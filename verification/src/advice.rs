//! Suggested fixes for the rules the analysis reports.
use vstd::prelude::*;

use crate::analyze::{installs_deps, script_lower};
use crate::model::job::{Job, JobView};
use crate::text::{before_char, concat, concat3, contains, contains_seq, join_strings, joined, lowercase_of, split_first, str_eq, to_lowercase};

verus! {

/// A suggested fix: YAML to add and why, or a message that no fix is known.
pub enum Fix {
    /// The fix for a known rule; `with_job` tells whether the job's name goes with it.
    Known { rule: String, with_job: bool, yaml_fix: String, explanation: String },
    Unknown { rule: String, error: String },
}

pub enum FixView {
    Known { rule: Seq<char>, with_job: bool, yaml_fix: Seq<char>, explanation: Seq<char> },
    Unknown { rule: Seq<char>, error: Seq<char> },
}

impl View for Fix {
    type V = FixView;

    open spec fn view(&self) -> FixView {
        match self {
            Fix::Known { rule, with_job, yaml_fix, explanation } => FixView::Known {
                rule: rule@,
                with_job: *with_job,
                yaml_fix: yaml_fix@,
                explanation: explanation@,
            },
            Fix::Unknown { rule, error } => FixView::Unknown { rule: rule@, error: error@ },
        }
    }
}

/// The lockfile and cached paths for a lowercased script.
pub open spec fn cache_choice(t: Seq<char>) -> (Seq<char>, Seq<char>) {
    if contains_seq(t, "npm"@) || contains_seq(t, "pnpm"@) {
        ("package-lock.json"@, "node_modules/\n      - .pnpm-store"@)
    } else if contains_seq(t, "pip"@) {
        ("requirements.txt"@, ".venv/"@)
    } else if contains_seq(t, "bundle"@) {
        ("Gemfile.lock"@, "vendor/bundle/"@)
    } else if contains_seq(t, "cargo"@) {
        ("Cargo.lock"@, "target/"@)
    } else {
        ("lockfile"@, "deps/"@)
    }
}

/// The fixed YAML and explanation of a rule whose fix does not depend on the job.
pub open spec fn fixed_advice(rule: Seq<char>) -> Option<(Seq<char>, Seq<char>)> {
    if rule == "missing-timeout"@ {
        Some(("timeout: 30m"@, "Set a timeout to prevent stuck jobs from wasting resources."@))
    } else if rule == "missing-retry"@ {
        Some(
            (
                "retry:\n  max: 2\n  when:\n    - runner_system_failure\n    - stuck_or_timeout_failure"@,
                "Retry on infrastructure failures. Don't retry on script_failure to catch real bugs."@,
            ),
        )
    } else if rule == "missing-interruptible"@ {
        Some(
            (
                "interruptible: true"@,
                "Mark test/lint jobs as interruptible so they're canceled when a new push supersedes them."@,
            ),
        )
    } else if rule == "deploy-without-rules"@ {
        Some(
            (
                "rules:\n  - if: $CI_COMMIT_BRANCH == $CI_DEFAULT_BRANCH\n    when: manual\n    allow_failure: false"@,
                "CRITICAL: Restrict deploys to the default branch with manual trigger."@,
            ),
        )
    } else if rule == "deploy-allow-failure"@ {
        Some(
            (
                "allow_failure: false"@,
                "Deploy failures should block the pipeline to prevent silent broken deployments."@,
            ),
        )
    } else if rule == "artifact-no-expiry"@ {
        Some(
            (
                "artifacts:\n  expire_in: 1 week"@,
                "Set an expiry to automatically clean up old artifacts and save storage."@,
            ),
        )
    } else if rule == "missing-coverage"@ {
        Some(
            (
                "coverage: '/Coverage:\\s*\\d+\\.?\\d*%/'"@,
                "Extract coverage percentage from test output. Adjust regex to match your test framework's format."@,
            ),
        )
    } else if rule == "dind-without-tls"@ {
        Some(
            (
                "variables:\n  DOCKER_TLS_VERIFY: '1'\n  DOCKER_CERT_PATH: /certs/client\n  DOCKER_HOST: tcp://docker:2376"@,
                "Enable TLS for Docker-in-Docker to prevent man-in-the-middle attacks."@,
            ),
        )
    } else if rule == "large-base-image"@ {
        Some(
            (
                "image: node:20-alpine  # or python:3.12-slim"@,
                "Alpine/slim images are 5-10x smaller, have fewer vulnerabilities, and pull faster."@,
            ),
        )
    } else if rule == "hardcoded-secret"@ {
        Some(
            (
                "# Move to GitLab CI/CD Variables:\n# Settings > CI/CD > Variables\n# Mark as: masked=true, protected=true"@,
                "CRITICAL: Never hardcode secrets in .gitlab-ci.yml. Use CI/CD variables with masked and protected flags."@,
            ),
        )
    } else if rule == "docker-socket-mount"@ {
        Some(("services:\n  - docker:24-dind\nvariables:\n  DOCKER_HOST: tcp://docker:2376\n  DOCKER_TLS_CERTDIR: /certs"@, "Use a Docker-in-Docker service instead of mounting /var/run/docker.sock, which gives root access to the host."@))
    } else if rule == "privileged-container"@ {
        Some(("# Remove --privileged; grant only what the job needs:\n# docker run --cap-add=NET_ADMIN ..."@, "Drop --privileged. Add only the specific capabilities the job needs with --cap-add."@))
    } else if rule == "unpinned-service-tag"@ {
        Some(("services:\n  - postgres:16-alpine  # Pin to specific version"@, "Pin service images to a specific tag so every run uses the same service version."@))
    } else if rule == "secret-in-image-name"@ {
        Some(("# Remove credentials from the image URL and authenticate to the registry:\nvariables:\n  DOCKER_AUTH_CONFIG: $DOCKER_AUTH_CONFIG"@, "Keep registry credentials out of image names. Provide them through DOCKER_AUTH_CONFIG as a masked CI/CD variable."@))
    } else if rule == "manual-deploy-no-confirmation"@ {
        Some(("manual_confirmation: 'Are you sure you want to deploy to production?'"@, "Ask for confirmation before a manual deploy runs, so it is not started by mistake."@))
    } else if rule == "no-dag-needs"@ {
        Some(("needs:\n  - job: build"@, "Use needs: to form a DAG, so a job starts as soon as the jobs it depends on finish instead of waiting for the whole previous stage."@))
    } else if rule == "use-needs-instead-of-dependencies"@ {
        Some(("needs:\n  - job: build\n    artifacts: true"@, "Replace dependencies: with needs: so the job starts as soon as the jobs it needs finish, still receiving their artifacts."@))
    } else if rule == "duplicate-script"@ {
        Some((".shared_script:\n  script:\n    - make test\n\njob:\n  extends: .shared_script"@, "Move the shared script into a hidden job and reuse it with extends: so it is maintained in one place."@))
    } else if rule == "unused-variable"@ {
        Some(("# Remove the variable from the top-level variables: block"@, "Remove variables that no job references to reduce clutter and confusion."@))
    } else if rule == "excessive-matrix"@ {
        Some(("parallel:\n  matrix:\n    - VERSION: ['18', '20']\n      OS: [alpine]"@, "Reduce the matrix dimensions or split the job, keeping the number of combinations manageable."@))
    } else {
        None
    }
}

/// The fix suggested for `rule`, given the job it was reported for, if any.
pub open spec fn fix_for(rule: Seq<char>, job: Option<JobView>) -> FixView {
    if rule == "missing-workflow-rules"@ {
        FixView::Known {
            rule,
            with_job: false,
            yaml_fix: "workflow:\n  rules:\n    - if: $CI_COMMIT_BRANCH == $CI_DEFAULT_BRANCH\n    - if: $CI_PIPELINE_SOURCE == \"merge_request_event\"\n    - if: $CI_COMMIT_TAG"@,
            explanation: "Add workflow:rules to prevent duplicate pipelines. This runs pipelines for default branch, MRs, and tags."@,
        }
    } else if rule == "unpinned-image-tag"@ {
        let image = match job {
            Some(j) => match j.image {
                Some(i) => i.name,
                None => Seq::empty(),
            },
            None => Seq::empty(),
        };
        FixView::Known {
            rule,
            with_job: true,
            yaml_fix: "image: "@ + before_char(image, ':') + ":20-alpine  # Pin to specific version"@,
            explanation: "Pin Docker image to a specific tag. Use alpine variants for smaller images. Consider using SHA256 digest for maximum reproducibility."@,
        }
    } else if rule == "missing-cache"@ {
        let t = lowercase_of(
            match job {
                Some(j) => joined(j.script, " "@),
                None => Seq::empty(),
            },
        );
        let c = cache_choice(t);
        FixView::Known {
            rule,
            with_job: true,
            yaml_fix: "cache:\n  key:\n    files:\n      - "@ + c.0 + "\n  paths:\n    - "@ + c.1
                + "\n  policy: pull-push"@,
            explanation: "Cache dependencies using "@ + c.0
                + " as key. This avoids re-downloading on every run."@,
        }
    } else {
        match fixed_advice(rule) {
            Some(a) => FixView::Known { rule, with_job: true, yaml_fix: a.0, explanation: a.1 },
            None => FixView::Unknown {
                rule,
                error: "No fix suggestion available for rule '"@ + rule + "'"@,
            },
        }
    }
}

/// The rules the pipeline analysis reports.
pub open spec fn analysis_rules() -> Set<Seq<char>> {
    set![
        "artifact-no-expiry"@,
        "deploy-allow-failure"@,
        "deploy-without-rules"@,
        "dind-without-tls"@,
        "docker-socket-mount"@,
        "duplicate-script"@,
        "excessive-matrix"@,
        "hardcoded-secret"@,
        "large-base-image"@,
        "manual-deploy-no-confirmation"@,
        "missing-cache"@,
        "missing-coverage"@,
        "missing-interruptible"@,
        "missing-retry"@,
        "missing-timeout"@,
        "missing-workflow-rules"@,
        "no-dag-needs"@,
        "privileged-container"@,
        "secret-in-image-name"@,
        "unpinned-image-tag"@,
        "unpinned-service-tag"@,
        "unused-variable"@,
        "use-needs-instead-of-dependencies"@,
    ]
}

/// Every rule that the analysis reports has a suggested YAML fix, whatever job it was
/// reported for.
pub proof fn law_every_rule_has_fix(rule: Seq<char>, job: Option<JobView>)
    requires
        analysis_rules().contains(rule),
    ensures
        fix_for(rule, job) is Known,
{
}

fn known(rule: &str, with_job: bool, yaml_fix: &str, explanation: &str) -> (r: Fix)
    ensures
        r@ == (FixView::Known {
            rule: rule@,
            with_job,
            yaml_fix: yaml_fix@,
            explanation: explanation@,
        }),
{
    Fix::Known {
        rule: String::from_str(rule),
        with_job,
        yaml_fix: String::from_str(yaml_fix),
        explanation: String::from_str(explanation),
    }
}

/// The fix for a rule whose advice is fixed text.
fn fixed_fix(rule: &str) -> (r: Option<Fix>)
    ensures
        match fixed_advice(rule@) {
            Some(a) => r matches Some(f) && f@ == (FixView::Known {
                rule: rule@,
                with_job: true,
                yaml_fix: a.0,
                explanation: a.1,
            }),
            None => r is None,
        },
{
    if str_eq(rule, "missing-timeout") {
        Some(known(rule, true, "timeout: 30m", "Set a timeout to prevent stuck jobs from wasting resources."))
    } else if str_eq(rule, "missing-retry") {
        Some(
            known(
                rule,
                true,
                "retry:\n  max: 2\n  when:\n    - runner_system_failure\n    - stuck_or_timeout_failure",
                "Retry on infrastructure failures. Don't retry on script_failure to catch real bugs.",
            ),
        )
    } else if str_eq(rule, "missing-interruptible") {
        Some(
            known(
                rule,
                true,
                "interruptible: true",
                "Mark test/lint jobs as interruptible so they're canceled when a new push supersedes them.",
            ),
        )
    } else if str_eq(rule, "deploy-without-rules") {
        Some(
            known(
                rule,
                true,
                "rules:\n  - if: $CI_COMMIT_BRANCH == $CI_DEFAULT_BRANCH\n    when: manual\n    allow_failure: false",
                "CRITICAL: Restrict deploys to the default branch with manual trigger.",
            ),
        )
    } else if str_eq(rule, "deploy-allow-failure") {
        Some(
            known(
                rule,
                true,
                "allow_failure: false",
                "Deploy failures should block the pipeline to prevent silent broken deployments.",
            ),
        )
    } else if str_eq(rule, "artifact-no-expiry") {
        Some(
            known(
                rule,
                true,
                "artifacts:\n  expire_in: 1 week",
                "Set an expiry to automatically clean up old artifacts and save storage.",
            ),
        )
    } else if str_eq(rule, "missing-coverage") {
        Some(
            known(
                rule,
                true,
                "coverage: '/Coverage:\\s*\\d+\\.?\\d*%/'",
                "Extract coverage percentage from test output. Adjust regex to match your test framework's format.",
            ),
        )
    } else if str_eq(rule, "dind-without-tls") {
        Some(
            known(
                rule,
                true,
                "variables:\n  DOCKER_TLS_VERIFY: '1'\n  DOCKER_CERT_PATH: /certs/client\n  DOCKER_HOST: tcp://docker:2376",
                "Enable TLS for Docker-in-Docker to prevent man-in-the-middle attacks.",
            ),
        )
    } else if str_eq(rule, "large-base-image") {
        Some(
            known(
                rule,
                true,
                "image: node:20-alpine  # or python:3.12-slim",
                "Alpine/slim images are 5-10x smaller, have fewer vulnerabilities, and pull faster.",
            ),
        )
    } else if str_eq(rule, "hardcoded-secret") {
        Some(
            known(
                rule,
                true,
                "# Move to GitLab CI/CD Variables:\n# Settings > CI/CD > Variables\n# Mark as: masked=true, protected=true",
                "CRITICAL: Never hardcode secrets in .gitlab-ci.yml. Use CI/CD variables with masked and protected flags.",
            ),
        )
    } else if str_eq(rule, "docker-socket-mount") {
        Some(known(rule, true, "services:\n  - docker:24-dind\nvariables:\n  DOCKER_HOST: tcp://docker:2376\n  DOCKER_TLS_CERTDIR: /certs", "Use a Docker-in-Docker service instead of mounting /var/run/docker.sock, which gives root access to the host."))
    } else if str_eq(rule, "privileged-container") {
        Some(known(rule, true, "# Remove --privileged; grant only what the job needs:\n# docker run --cap-add=NET_ADMIN ...", "Drop --privileged. Add only the specific capabilities the job needs with --cap-add."))
    } else if str_eq(rule, "unpinned-service-tag") {
        Some(known(rule, true, "services:\n  - postgres:16-alpine  # Pin to specific version", "Pin service images to a specific tag so every run uses the same service version."))
    } else if str_eq(rule, "secret-in-image-name") {
        Some(known(rule, true, "# Remove credentials from the image URL and authenticate to the registry:\nvariables:\n  DOCKER_AUTH_CONFIG: $DOCKER_AUTH_CONFIG", "Keep registry credentials out of image names. Provide them through DOCKER_AUTH_CONFIG as a masked CI/CD variable."))
    } else if str_eq(rule, "manual-deploy-no-confirmation") {
        Some(known(rule, true, "manual_confirmation: 'Are you sure you want to deploy to production?'", "Ask for confirmation before a manual deploy runs, so it is not started by mistake."))
    } else if str_eq(rule, "no-dag-needs") {
        Some(known(rule, true, "needs:\n  - job: build", "Use needs: to form a DAG, so a job starts as soon as the jobs it depends on finish instead of waiting for the whole previous stage."))
    } else if str_eq(rule, "use-needs-instead-of-dependencies") {
        Some(known(rule, true, "needs:\n  - job: build\n    artifacts: true", "Replace dependencies: with needs: so the job starts as soon as the jobs it needs finish, still receiving their artifacts."))
    } else if str_eq(rule, "duplicate-script") {
        Some(known(rule, true, ".shared_script:\n  script:\n    - make test\n\njob:\n  extends: .shared_script", "Move the shared script into a hidden job and reuse it with extends: so it is maintained in one place."))
    } else if str_eq(rule, "unused-variable") {
        Some(known(rule, true, "# Remove the variable from the top-level variables: block", "Remove variables that no job references to reduce clutter and confusion."))
    } else if str_eq(rule, "excessive-matrix") {
        Some(known(rule, true, "parallel:\n  matrix:\n    - VERSION: ['18', '20']\n      OS: [alpine]", "Reduce the matrix dimensions or split the job, keeping the number of combinations manageable."))
    } else {
        None
    }
}

/// The fix suggested for `rule` reported on `job` (what `tool_suggest_fix` answers).
pub fn suggest_fix(rule: &str, job: Option<&Job>) -> (r: Fix)
    ensures
        r@ == fix_for(
            rule@,
            match job {
                Some(j) => Some(j@),
                None => None,
            },
        ),
{
    if str_eq(rule, "missing-workflow-rules") {
        known(
            rule,
            false,
            "workflow:\n  rules:\n    - if: $CI_COMMIT_BRANCH == $CI_DEFAULT_BRANCH\n    - if: $CI_PIPELINE_SOURCE == \"merge_request_event\"\n    - if: $CI_COMMIT_TAG",
            "Add workflow:rules to prevent duplicate pipelines. This runs pipelines for default branch, MRs, and tags.",
        )
    } else if str_eq(rule, "unpinned-image-tag") {
        let image: String = match job {
            Some(j) => match &j.image {
                Some(i) => String::from_str(i.name()),
                None => String::new(),
            },
            None => String::new(),
        };
        let base = split_first(image.as_str(), ':');
        let fix = concat3("image: ", base.as_str(), ":20-alpine  # Pin to specific version");
        Fix::Known {
            rule: String::from_str(rule),
            with_job: true,
            yaml_fix: fix,
            explanation: String::from_str(
                "Pin Docker image to a specific tag. Use alpine variants for smaller images. Consider using SHA256 digest for maximum reproducibility.",
            ),
        }
    } else if str_eq(rule, "missing-cache") {
        let text: String = match job {
            Some(j) => join_strings(&j.script, " "),
            None => String::new(),
        };
        let t = to_lowercase(text.as_str());
        let s = t.as_str();
        let (key_file, paths) = if contains(s, "npm") || contains(s, "pnpm") {
            ("package-lock.json", "node_modules/\n      - .pnpm-store")
        } else if contains(s, "pip") {
            ("requirements.txt", ".venv/")
        } else if contains(s, "bundle") {
            ("Gemfile.lock", "vendor/bundle/")
        } else if contains(s, "cargo") {
            ("Cargo.lock", "target/")
        } else {
            ("lockfile", "deps/")
        };
        let a = concat3("cache:\n  key:\n    files:\n      - ", key_file, "\n  paths:\n    - ");
        let fix = concat3(a.as_str(), paths, "\n  policy: pull-push");
        let explanation = concat3(
            "Cache dependencies using ",
            key_file,
            " as key. This avoids re-downloading on every run.",
        );
        Fix::Known { rule: String::from_str(rule), with_job: true, yaml_fix: fix, explanation }
    } else {
        match fixed_fix(rule) {
            Some(f) => f,
            None => Fix::Unknown {
                rule: String::from_str(rule),
                error: concat3("No fix suggestion available for rule '", rule, "'"),
            },
        }
    }
}

} // verus!
