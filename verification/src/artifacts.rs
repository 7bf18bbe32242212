//! Where a job's artifacts are kept between jobs.
use vstd::prelude::*;

use vstd::string::StringSliceAdditionalSpecFns;

use crate::paths::{artifacts_dir, cache_dir_spec, djb2, hex_digits, join_path, path_join, PathEnv};

verus! {

/// The artifacts directory of one job: `artifacts_dir()/{job}`.
pub fn job_artifacts_dir(env: &PathEnv, canonical: &str, job_name: &str) -> (r: String)
    ensures
        r@ == path_join(
            path_join(path_join(cache_dir_spec(*env), "artifacts"@), hex_digits(
                djb2(canonical.spec_bytes()) as nat,
                16,
            )),
            job_name@,
        ),
{
    let base = artifacts_dir(env, canonical);
    join_path(base.as_str(), job_name)
}

} // verus!
