use base64::Engine;
use indexmap::IndexMap;
use lab_core::model::job::{AllowFailure, Job, When};
use lab_core::model::variables::{VariableValue, Variables};
use lab_core::secrets::{
    expand_masked,
    filter_pulled_variables, parse_env_content, parse_gitlab_remote, protected_branch_api_path,
    render_secrets_file, scope_secrets_for_job, urlencoding_simple, GitLabVarMeta, SecretMasker,
};

fn job_with_script(script: &[&str]) -> Job {
    Job {
        image: None,
        stage: "test".to_string(),
        script: script.iter().map(|s| s.to_string()).collect(),
        before_script: None,
        after_script: None,
        variables: Variables::new(),
        rules: None,
        needs: None,
        dependencies: None,
        artifacts: None,
        cache: None,
        services: None,
        when: When::OnSuccess,
        allow_failure: AllowFailure::default(),
        timeout: None,
        retry: None,
        parallel: None,
        extends: None,
        tags: None,
        resource_group: None,
        interruptible: None,
        inherit: None,
        coverage: None,
        start_in: None,
        trigger: None,
        manual_confirmation: None,
    }
}

#[test]
fn test_detect_ssh_url() {
    let url = "git@gitlab.com:repo-level/levelup-next/levelup-be-monorepo.git";
    let (project, groups) = parse_gitlab_remote(url).unwrap();
    assert_eq!(project, "repo-level/levelup-next/levelup-be-monorepo");
    assert_eq!(groups, vec!["repo-level/levelup-next", "repo-level"]);
}

#[test]
fn test_detect_https_url() {
    let url = "https://gitlab.com/group/subgroup/project.git";
    let (project, _) = parse_gitlab_remote(url).unwrap();
    assert_eq!(project, "group/subgroup/project");
}

#[test]
fn detect_unrecognized_url() {
    let e = parse_gitlab_remote("  file:///srv/repo  ").unwrap_err();
    assert_eq!(e.message(), "unrecognized git remote URL: file:///srv/repo");
}

#[test]
fn detect_http_url_groups() {
    let (project, groups) = parse_gitlab_remote("http://host/a/b.git\n").unwrap();
    assert_eq!(project, "a/b");
    assert_eq!(groups, vec!["a"]);
}

#[test]
fn test_load_env_file_format() {
    let vars =
        parse_env_content("# Comment\nKEY1=value1\nKEY2=\"quoted value\"\n\nKEY3=value with spaces\n");
    assert_eq!(vars.get("KEY1").unwrap().value(), "value1");
    assert_eq!(vars.get("KEY2").unwrap().value(), "quoted value");
    assert_eq!(vars.get("KEY3").unwrap().value(), "value with spaces");
    assert_eq!(vars.len(), 3);
}

#[test]
fn env_file_skips_bad_lines() {
    let vars = parse_env_content("=nokey\nnoequals\r\n  A = 1 \r\nA=2\nB=\"\n");
    assert_eq!(vars.len(), 2);
    assert_eq!(vars.get("A").unwrap().value(), "2");
    assert_eq!(vars.get("B").unwrap().value(), "\"");
    assert_eq!(vars.get_index(0).unwrap().0, "A");
}

#[test]
fn test_masker_basic() {
    let mut masker = SecretMasker::new();
    masker.add_value("my-secret-token");
    masker.finalize();
    assert_eq!(masker.mask("Token is my-secret-token here"), "Token is [MASKED] here");
    assert_eq!(masker.mask("no secrets here"), "no secrets here");
}

#[test]
fn test_masker_multiple_values() {
    let mut masker = SecretMasker::new();
    masker.add_value("secret-one");
    masker.add_value("secret-two");
    masker.finalize();
    assert_eq!(
        masker.mask("first: secret-one, second: secret-two"),
        "first: [MASKED], second: [MASKED]"
    );
}

#[test]
fn test_masker_base64_variant() {
    let mut masker = SecretMasker::new();
    masker.add_value("hello-world");
    masker.finalize();
    let b64 = base64::engine::general_purpose::STANDARD.encode("hello-world");
    assert_eq!(masker.mask(&b64), "[MASKED]");
}

#[test]
fn test_masker_ignores_short_values() {
    let mut masker = SecretMasker::new();
    masker.add_value("ab");
    masker.add_value("yes");
    masker.finalize();
    assert_eq!(masker.mask("ab yes"), "ab yes");
    assert!(!masker.has_values());
}

#[test]
fn test_masker_longest_first() {
    let mut masker = SecretMasker::new();
    masker.add_value("secret");
    masker.add_value("my-secret-long");
    masker.finalize();
    let result = masker.mask("value is my-secret-long");
    assert!(result.contains("[MASKED]"));
    assert!(!result.contains("secret"));
}

#[test]
fn test_masker_debug_redacted() {
    let mut masker = SecretMasker::new();
    masker.add_value("super-secret-value");
    masker.finalize();
    let debug_output = masker.debug_text();
    assert!(!debug_output.contains("super-secret-value"));
    assert!(debug_output.contains("count"));
    assert_eq!(debug_output, "SecretMasker { count: 2 }");
}

#[test]
fn masker_trims_values() {
    let mut masker = SecretMasker::new();
    masker.add_value("  padded-secret \n");
    masker.finalize();
    assert_eq!(masker.mask("x padded-secret y"), "x [MASKED] y");
}

#[test]
fn test_scope_secrets_for_job() {
    let mut all_secrets = Variables::new();
    all_secrets.insert("AWS_KEY".into(), VariableValue::Simple("aws-val".into()));
    all_secrets.insert("DB_PASS".into(), VariableValue::Simple("db-val".into()));
    all_secrets.insert("UNUSED".into(), VariableValue::Simple("unused-val".into()));

    let job = job_with_script(&["echo $AWS_KEY"]);
    let scoped = scope_secrets_for_job(&job, &all_secrets);
    assert!(scoped.contains_key("AWS_KEY"));
    assert!(!scoped.contains_key("DB_PASS"));
    assert!(!scoped.contains_key("UNUSED"));
}

#[test]
fn scope_secrets_braced_reference() {
    let mut all_secrets = Variables::new();
    all_secrets.insert("TOKEN".into(), VariableValue::Simple("t".into()));
    let job = job_with_script(&["curl -H ${TOKEN}"]);
    let scoped = scope_secrets_for_job(&job, &all_secrets);
    assert_eq!(scoped.len(), 1);
}

#[test]
fn url_encoding() {
    assert_eq!(urlencoding_simple("feature/my branch"), "feature%2Fmy%20branch");
    assert_eq!(
        protected_branch_api_path("group/proj", "release/1 x"),
        "projects/group%2Fproj/protected_branches/release%2F1%20x"
    );
}

#[test]
fn secrets_file_rendering() {
    let mut vars = Variables::new();
    vars.insert("A".into(), VariableValue::Simple("1".into()));
    vars.insert("B".into(), VariableValue::Simple("say \"hi\"".into()));
    assert_eq!(
        render_secrets_file(&vars),
        "# Generated by `lab secrets pull`\n\nA=1\n# B (contains special chars, stored as-is)\nB=say \"hi\"\n"
    );
}

fn meta(key: &str, value: &str, protected: bool, masked: bool, hidden: bool, scope: &str) -> GitLabVarMeta {
    GitLabVarMeta {
        key: key.into(),
        value: value.into(),
        protected,
        masked,
        hidden,
        environment_scope: scope.into(),
    }
}

#[test]
fn pulled_variables_filtering() {
    let raw = vec![
        meta("G", "group", false, false, false, "*"),
        meta("HIDDEN", "x", false, false, true, "*"),
        meta("EMPTY", "", false, false, false, "*"),
        meta("PROT", "p", true, false, false, "*"),
        meta("MASK", "m", false, true, false, "production"),
        meta("G", "project", false, false, false, "*"),
    ];
    let r = filter_pulled_variables(raw, false);
    assert_eq!(r.skipped_hidden, vec!["HIDDEN", "EMPTY"]);
    assert_eq!(r.skipped_protected, vec!["PROT"]);
    assert_eq!(r.masked_keys, vec!["MASK"]);
    assert_eq!(r.skipped_scope, vec![("MASK".to_string(), "production".to_string())]);
    assert_eq!(r.included.len(), 2);
    assert_eq!(r.included.get("G").unwrap().value(), "project");
    let _unused: IndexMap<String, String> = IndexMap::new();
}

#[test]
fn pulled_protected_kept_on_protected_branch() {
    let r = filter_pulled_variables(vec![meta("PROT", "p", true, false, false, "*")], true);
    assert_eq!(r.included.len(), 1);
    assert!(r.skipped_protected.is_empty());
}

#[test]
fn every_secret_and_its_base64_are_masked() {
    let mut secrets = Variables::new();
    secrets.insert("TOKEN".into(), VariableValue::Simple("  hunter22 ".into()));
    secrets.insert("SHORT".into(), VariableValue::Simple("abc".into()));
    let masker = SecretMasker::from_secrets(&secrets);
    let encoded = base64::engine::general_purpose::STANDARD.encode("hunter22");
    assert_eq!(masker.mask("pw=hunter22"), "pw=[MASKED]");
    assert_eq!(masker.mask(&format!("b64 {encoded}")), "b64 [MASKED]");
    assert_eq!(masker.mask("abc"), "abc");
}

#[test]
fn scope_secrets_whole_names_only() {
    let mut all_secrets = Variables::new();
    all_secrets.insert("AWS".into(), VariableValue::Simple("short".into()));
    all_secrets.insert("AWS_KEY".into(), VariableValue::Simple("long".into()));
    let job = job_with_script(&["echo $AWS_KEY"]);
    let scoped = scope_secrets_for_job(&job, &all_secrets);
    assert!(scoped.contains_key("AWS_KEY"));
    assert!(!scoped.contains_key("AWS"));
    let job = job_with_script(&["echo $AWS-$AWS_KEY"]);
    let scoped = scope_secrets_for_job(&job, &all_secrets);
    assert_eq!(scoped.len(), 2);
}

#[test]
fn no_registered_secret_survives_masking() {
    let mut masker = SecretMasker::new();
    masker.add_value("abcdef");
    masker.add_value("cdefgh");
    masker.add_value("zz-top-secret");
    masker.finalize();
    let out = masker.mask("xabcdefghx zz-top-secret cdefgh");
    for s in ["abcdef", "cdefgh", "zz-top-secret"] {
        assert!(!out.contains(s), "{s} survived in {out}");
    }
    assert_eq!(out, "x[MASKED]ghx [MASKED] [MASKED]");
}

#[test]
fn finalize_twice_changes_nothing() {
    let mut masker = SecretMasker::new();
    masker.add_value("short-one");
    masker.add_value("a-much-longer-secret");
    masker.add_value("short-one");
    masker.finalize();
    let once = masker.mask("a-much-longer-secret and short-one");
    masker.finalize();
    let twice = masker.mask("a-much-longer-secret and short-one");
    assert_eq!(once, twice);
    assert_eq!(once, "[MASKED] and [MASKED]");
}

#[test]
fn secrets_file_reads_back_quoted_inner_values() {
    let mut vars = Variables::new();
    vars.insert("A".into(), VariableValue::Simple("1".into()));
    vars.insert("B".into(), VariableValue::Simple("say \"hi\" now".into()));
    let back = parse_env_content(&render_secrets_file(&vars));
    let keys: Vec<&String> = back.keys().collect();
    assert_eq!(keys, vec!["A", "B"]);
    assert_eq!(back.get("A").unwrap().value(), "1");
    assert_eq!(back.get("B").unwrap().value(), "say \"hi\" now");
}

#[test]
fn expanded_values_come_back_masked() {
    let mut vars = Variables::new();
    vars.insert("TOKEN".into(), VariableValue::Simple("s3cr3t-token".into()));
    vars.insert("URL".into(), VariableValue::Simple("https://host/$TOKEN".into()));
    let mut secrets = Variables::new();
    secrets.insert("TOKEN".into(), VariableValue::Simple("s3cr3t-token".into()));
    assert_eq!(expand_masked("$URL", &vars, &secrets), "https://host/[MASKED]");
    assert_eq!(expand_masked("$URL", &vars, &Variables::new()), "https://host/s3cr3t-token");
}
