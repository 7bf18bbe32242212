//! Cache keys and when caches are restored and saved. Reading the key files and
//! copying cache contents are left to the caller.
use vstd::prelude::*;

use vstd::string::StringSliceAdditionalSpecFns;

use crate::collections::var_entries;
use crate::model::job::{CacheConfig, CacheKey, CachePolicy, CacheWhen};
use crate::model::variables::{expand_spec, expand_variables, Variables};
use crate::paths::{
    cache_base_dir, cache_dir_spec, djb2, hex16, hex_digits, join_path, path_join, simple_hash,
    PathEnv,
};
use crate::text::{chars_of, concat3, push_char, views};

verus! {

/// A cache key with `/`, `\` and spaces replaced by `_`.
pub open spec fn sanitized(key: Seq<char>) -> Seq<char> {
    key.map_values(|c: char| if c == '/' || c == '\\' || c == ' ' { '_' } else { c })
}

pub fn sanitize_key(key: &str) -> (r: String)
    ensures
        r@ == sanitized(key@),
{
    let v = chars_of(key);
    let mut r = String::new();
    let mut i: usize = 0;
    while i < v.len()
        invariant
            v@ == key@,
            i <= v@.len(),
            r@ == sanitized(key@).subrange(0, i as int),
        decreases v@.len() - i,
    {
        let c = v[i];
        let d = if c == '/' || c == '\\' || c == ' ' {
            '_'
        } else {
            c
        };
        push_char(&mut r, d);
        i = i + 1;
        assert(r@ =~= sanitized(key@).subrange(0, i as int));
    }
    assert(sanitized(key@).subrange(0, v@.len() as int) =~= sanitized(key@));
    r
}

/// The directory holding the cache for `key`.
pub fn cache_key_dir(env: &PathEnv, canonical: &str, key: &str) -> (r: String)
    ensures
        r@ == path_join(
            path_join(path_join(cache_dir_spec(*env), "cache"@), hex_digits(
                djb2(canonical.spec_bytes()) as nat,
                16,
            )),
            sanitized(key@),
        ),
{
    let base = cache_base_dir(env, canonical);
    let k = sanitize_key(key);
    join_path(base.as_str(), k.as_str())
}

/// The key of a cache: a simple key expanded; for `key:files`, the hash of what was
/// read for the files (`hashed`), after the expanded prefix and a `-` when there is one;
/// `default` without a key.
pub open spec fn cache_key_spec(
    key: Option<CacheKey>,
    vars: Seq<(Seq<char>, crate::model::variables::VariableView)>,
    hashed: Seq<u8>,
) -> Seq<char> {
    match key {
        Some(CacheKey::Simple(s)) => expand_spec(s@, vars, 0),
        Some(CacheKey::Detailed { prefix, .. }) => match prefix {
            Some(p) => expand_spec(p@, vars, 0) + "-"@ + hex_digits(djb2(hashed) as nat, 16),
            None => hex_digits(djb2(hashed) as nat, 16),
        },
        None => "default"@,
    }
}

/// Resolve the cache key. `hashed_input` holds the contents of the key files (and their
/// last commits when `files_commits` is set), read by the caller in file order.
pub fn resolve_cache_key(config: &CacheConfig, variables: &Variables, hashed_input: &str) -> (r:
    String)
    ensures
        r@ == cache_key_spec(config.key, var_entries(*variables), hashed_input.spec_bytes()),
{
    match &config.key {
        Some(CacheKey::Simple(s)) => expand_variables(s.as_str(), variables),
        Some(CacheKey::Detailed { prefix, .. }) => {
            let hash = hex16(simple_hash(hashed_input));
            match prefix {
                Some(p) => {
                    let e = expand_variables(p.as_str(), variables);
                    concat3(e.as_str(), "-", hash.as_str())
                },
                None => hash,
            }
        },
        None => String::from_str("default"),
    }
}

/// The files whose contents make a `key:files` cache key, expanded; none otherwise.
pub fn cache_key_files(config: &CacheConfig, variables: &Variables) -> (r: Vec<String>)
    ensures
        match config.key {
            Some(CacheKey::Detailed { files, .. }) => r@.len() == files@.len() && forall|i: int|
                0 <= i < files@.len() ==> (#[trigger] r@[i])@ == expand_spec(
                    files@[i]@,
                    var_entries(*variables),
                    0,
                ),
            _ => r@.len() == 0,
        },
{
    let mut out: Vec<String> = Vec::new();
    if let Some(CacheKey::Detailed { files, .. }) = &config.key {
        let mut i: usize = 0;
        while i < files.len()
            invariant
                i <= files@.len(),
                out@.len() == i,
                forall|j: int|
                    0 <= j < i ==> (#[trigger] out@[j])@ == expand_spec(
                        files@[j]@,
                        var_entries(*variables),
                        0,
                    ),
            decreases files@.len() - i,
        {
            out.push(expand_variables(files[i].as_str(), variables));
            i = i + 1;
        }
    }
    out
}

/// Whether a cache is restored before a job: unless its policy is push-only.
pub fn should_restore(config: &CacheConfig) -> (r: bool)
    ensures
        r == !(config.policy == Some(CachePolicy::Push)),
{
    match config.policy {
        Some(CachePolicy::Push) => false,
        _ => true,
    }
}

/// Whether a cache is saved after a job: unless its policy is pull-only, and as
/// `cache:when` says (on success by default).
pub fn should_save(config: &CacheConfig, job_succeeded: bool) -> (r: bool)
    ensures
        r == (!(config.policy == Some(CachePolicy::Pull)) && match config.when_upload {
            Some(CacheWhen::OnFailure) => !job_succeeded,
            Some(CacheWhen::Always) => true,
            _ => job_succeeded,
        }),
{
    match config.policy {
        Some(CachePolicy::Pull) => false,
        _ => match config.when_upload {
            Some(CacheWhen::OnFailure) => !job_succeeded,
            Some(CacheWhen::Always) => true,
            _ => job_succeeded,
        },
    }
}

} // verus!
