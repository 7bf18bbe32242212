use lab_core::parser::includes::{
    classify_include, deep_merge_included, parse_component, take_includes, IncludeEntry,
};
use lab_core::parser::schema::{job_definitions, parse_stages, workflow_parts};
use lab_core::parser::document::{load_text, parse_document};
use lab_core::parser::yaml::{
    resolve_extends, resolve_merge_keys, resolve_reference_tags, yaml_eq, Yaml,
};

fn parse(text: &str) -> Yaml {
    parse_document(text).unwrap()
}

fn get<'a>(y: &'a Yaml, key: &str) -> Option<&'a Yaml> {
    match y {
        Yaml::Mapping(entries) => entries.iter().find_map(|(k, v)| match k {
            Yaml::String(s) if s == key => Some(v),
            _ => None,
        }),
        _ => None,
    }
}

fn as_str(y: &Yaml) -> Option<&str> {
    match y {
        Yaml::String(s) => Some(s.as_str()),
        _ => None,
    }
}

#[test]
fn test_merge_keys() {
    let yaml = r#"
.defaults: &defaults
  image: rust:latest
  timeout: 30m

job1:
  <<: *defaults
  script:
    - cargo test
"#;
    let mut value = parse(yaml);
    resolve_merge_keys(&mut value);

    let job1 = get(&value, "job1").unwrap();
    assert_eq!(as_str(get(job1, "image").unwrap()).unwrap(), "rust:latest");
    assert_eq!(as_str(get(job1, "timeout").unwrap()).unwrap(), "30m");
    assert!(get(job1, "<<").is_none());
}

#[test]
fn test_extends_resolution() {
    let yaml = r#"
.base:
  image: node:18
  before_script:
    - npm ci

test:
  extends: .base
  script:
    - npm test
"#;
    let mut value = parse(yaml);
    resolve_merge_keys(&mut value);
    if let Yaml::Mapping(ref mut m) = value {
        resolve_extends(m);
    }

    let test = get(&value, "test").unwrap();
    assert_eq!(as_str(get(test, "image").unwrap()).unwrap(), "node:18");
    assert!(get(test, "extends").is_none());
    assert!(get(test, "script").is_some());
    assert!(get(test, "before_script").is_some());
}

#[test]
fn test_extends_override() {
    let yaml = r#"
.base:
  image: node:16
  variables:
    NODE_ENV: production

test:
  extends: .base
  image: node:20
  script:
    - npm test
"#;
    let mut value = parse(yaml);
    resolve_merge_keys(&mut value);
    if let Yaml::Mapping(ref mut m) = value {
        resolve_extends(m);
    }

    let test = get(&value, "test").unwrap();
    assert_eq!(as_str(get(test, "image").unwrap()).unwrap(), "node:20");
    assert!(get(test, "variables").is_some());
}

#[test]
fn test_reference_tags() {
    let yaml = r#"
.shared:
  script:
    - echo "shared step 1"
    - echo "shared step 2"
  variables:
    SHARED_VAR: "hello"

test:
  script:
    - !reference [.shared, script]
    - echo "own step"
  variables:
    MY_VAR: "world"
"#;
    let mut value = parse(yaml);
    resolve_merge_keys(&mut value);
    resolve_reference_tags(&mut value);

    let test = get(&value, "test").unwrap();
    let script = match get(test, "script").unwrap() {
        Yaml::Sequence(s) => s,
        _ => panic!("script is not a sequence"),
    };
    assert!(script.len() >= 3, "expected at least 3 script entries, got {}", script.len());
    assert_eq!(as_str(&script[0]).unwrap(), "echo \"shared step 1\"");
    assert_eq!(as_str(&script[2]).unwrap(), "echo \"own step\"");
}

#[test]
fn deep_merge_of_nested_extends() {
    let yaml = r#"
.base:
  variables:
    A: "1"
    B: "2"
job:
  extends: [.base]
  variables:
    B: "3"
"#;
    let mut value = parse(yaml);
    if let Yaml::Mapping(ref mut m) = value {
        resolve_extends(m);
    }
    let vars = get(get(&value, "job").unwrap(), "variables").unwrap();
    assert_eq!(as_str(get(vars, "A").unwrap()).unwrap(), "1");
    assert_eq!(as_str(get(vars, "B").unwrap()).unwrap(), "3");
}

#[test]
fn includes_are_taken_out() {
    let mut value = parse(
        "include:\n  - local: ci/a.yml\n  - https://example.com/b.yml\n  - project: g/p\n    file: [x.yml, y.yml]\n    ref: v1\nstages: [build]\n",
    );
    let entries = take_includes(&mut value);
    assert!(get(&value, "include").is_none());
    assert_eq!(entries.len(), 4);
    assert!(matches!(&entries[0], IncludeEntry::Local(p) if p == "ci/a.yml"));
    assert!(matches!(&entries[1], IncludeEntry::Remote(u) if u == "https://example.com/b.yml"));
    assert!(matches!(&entries[3], IncludeEntry::Project { file, git_ref: Some(r), .. } if file == "y.yml" && r == "v1"));
}

#[test]
fn include_rules_filter() {
    let mut value = parse(
        "include:\n  - local: a.yml\n    rules:\n      - if: $NOT_SET\n  - local: b.yml\n    rules:\n      - when: always\n",
    );
    let entries = take_includes(&mut value);
    assert_eq!(entries.len(), 1);
    assert!(matches!(&entries[0], IncludeEntry::Local(p) if p == "b.yml"));
}

#[test]
fn included_values_fill_gaps_only() {
    let mut main = match parse("a: 1\nvars:\n  X: main\n") {
        Yaml::Mapping(m) => m,
        _ => panic!(),
    };
    let inc = match parse("a: 2\nb: 3\nvars:\n  X: inc\n  Y: inc\n") {
        Yaml::Mapping(m) => m,
        _ => panic!(),
    };
    deep_merge_included(&mut main, &inc);
    let merged = Yaml::Mapping(main);
    assert!(yaml_eq(&merged, &parse("a: 1\nvars:\n  X: main\n  Y: inc\nb: 3\n")));
}

#[test]
fn classify_includes() {
    assert!(matches!(classify_include("http://x/y.yml"), IncludeEntry::Remote(_)));
    assert!(matches!(classify_include("/ci/y.yml"), IncludeEntry::Local(_)));
}

#[test]
fn component_reference() {
    let c = parse_component("gitlab.com/org/proj/comp/sub@1.0").unwrap();
    assert_eq!(c.hostname, "gitlab.com");
    assert_eq!(c.project_path, "org/proj");
    assert_eq!(c.component_name, "comp/sub");
    assert_eq!(c.version, "1.0");
    assert!(parse_component("gitlab.com/org/proj").is_err());
    assert!(parse_component("gitlab.com/org@2").is_err());
}

#[test]
fn stages_and_jobs_of_document() {
    let doc = match parse("stages: [build, test]\nvariables: {A: 1}\n.hidden: {}\nbuild: {script: [x]}\ndefault: {}\n") {
        Yaml::Mapping(m) => m,
        _ => panic!(),
    };
    assert_eq!(parse_stages(&doc), vec!["build", "test"]);
    let jobs = job_definitions(&doc);
    assert_eq!(jobs.len(), 1);
    assert_eq!(jobs[0].0, "build");
    assert!(workflow_parts(&doc).unwrap().is_none());
}

#[test]
fn workflow_must_be_mapping() {
    let doc = match parse("workflow: [a]\n") {
        Yaml::Mapping(m) => m,
        _ => panic!(),
    };
    let e = workflow_parts(&doc).err().unwrap();
    assert_eq!(e.message(), "invalid pipeline configuration: workflow must be a mapping");
}

#[test]
fn load_text_resolves_merge_keys_references_and_extends() {
    let text = r#"
.defaults: &defaults
  image: rust:latest
.setup:
  script: [echo setup]
.base:
  stage: build
job:
  <<: *defaults
  extends: .base
  script:
    - !reference [.setup, script]
    - echo run
"#;
    let doc = load_text(text).unwrap();
    let job = get(&doc, "job").unwrap();
    assert_eq!(as_str(get(job, "image").unwrap()), Some("rust:latest"));
    assert_eq!(as_str(get(job, "stage").unwrap()), Some("build"));
    match get(job, "script").unwrap() {
        Yaml::Sequence(items) => {
            let lines: Vec<&str> = items.iter().filter_map(as_str).collect();
            assert_eq!(lines, vec!["echo setup", "echo run"]);
        }
        _ => panic!("script is not a sequence"),
    }
    assert!(matches!(load_text("key: [unclosed"), Err(lab_core::error::LabError::YamlParse(_))));
}

fn mapping_of(doc: &Yaml) -> &Vec<(Yaml, Yaml)> {
    match doc {
        Yaml::Mapping(m) => m,
        _ => panic!("root must be a mapping"),
    }
}

fn string_list(y: &Yaml) -> Vec<String> {
    match y {
        Yaml::Sequence(items) => items.iter().filter_map(as_str).map(|s| s.to_string()).collect(),
        _ => panic!("not a sequence"),
    }
}

#[test]
fn test_simple_pipeline() {
    let doc = load_text(
        r#"
stages:
  - build
  - test

variables:
  RUST_VERSION: "1.80"

build:
  stage: build
  image: rust:latest
  script:
    - cargo build

test:
  stage: test
  image: rust:latest
  script:
    - cargo test
  needs:
    - build
"#,
    )
    .unwrap();
    let m = mapping_of(&doc);
    assert_eq!(parse_stages(m), vec!["build", "test"]);
    let jobs = job_definitions(m);
    assert_eq!(jobs.len(), 2);
    assert!(jobs.iter().any(|(n, _)| n == "build"));
    assert!(jobs.iter().any(|(n, _)| n == "test"));
    let vars = get(&doc, "variables").unwrap();
    assert_eq!(as_str(get(vars, "RUST_VERSION").unwrap()), Some("1.80"));
}

#[test]
fn test_default_stages() {
    let doc = load_text(
        r#"
test:
  script:
    - echo "hello"
"#,
    )
    .unwrap();
    let m = mapping_of(&doc);
    assert_eq!(parse_stages(m), vec![".pre", "build", "test", "deploy", ".post"]);
    assert!(get(get(&doc, "test").unwrap(), "stage").is_none());
}

#[test]
fn test_hidden_jobs_excluded() {
    let doc = load_text(
        r#"
stages:
  - test

.template:
  image: node:18

test:
  extends: .template
  script:
    - npm test
"#,
    )
    .unwrap();
    let jobs = job_definitions(mapping_of(&doc));
    assert_eq!(jobs.len(), 1);
    assert!(!jobs.iter().any(|(n, _)| n == ".template"));
}

#[test]
fn test_extends_with_after_script() {
    let doc = load_text(
        r#"
stages:
  - test

.base:
  after_script:
    - echo "cleanup"

test:
  extends: .base
  script:
    - echo "test"
"#,
    )
    .unwrap();
    let job = get(&doc, "test").unwrap();
    assert_eq!(string_list(get(job, "after_script").unwrap()), vec!["echo \"cleanup\"".to_string()]);
}

fn job_of<'a>(doc: &'a Yaml, name: &str) -> &'a Yaml {
    get(doc, name).unwrap()
}

#[test]
fn test_stages_ordering() {
    let doc = load_text(
        r#"
stages:
  - prepare
  - build
  - test
  - deploy

prepare:
  stage: prepare
  script: [echo prepare]

build:
  stage: build
  script: [echo build]

test:
  stage: test
  script: [echo test]

deploy:
  stage: deploy
  script: [echo deploy]
"#,
    )
    .unwrap();
    let m = mapping_of(&doc);
    assert_eq!(parse_stages(m), vec!["prepare", "build", "test", "deploy"]);
    assert_eq!(job_definitions(m).len(), 4);
}

#[test]
fn test_extends_single_and_multiple() {
    let doc = load_text(
        r#"
stages: [test]
.base:
  image: node:18
  variables:
    NODE_ENV: test

.with_coverage:
  after_script: [echo coverage]

test:
  extends:
    - .base
    - .with_coverage
  script: [npm test]
"#,
    )
    .unwrap();
    let job = job_of(&doc, "test");
    assert_eq!(as_str(get(job, "image").unwrap()), Some("node:18"));
    assert!(get(job, "after_script").is_some());
    assert!(get(get(job, "variables").unwrap(), "NODE_ENV").is_some());
}

#[test]
fn test_yaml_anchors() {
    let doc = load_text(
        r#"
stages: [test]

.vars: &common_vars
  NODE_ENV: test
  CI: "true"

test:
  variables:
    <<: *common_vars
    EXTRA: "value"
  script: [echo test]
"#,
    )
    .unwrap();
    let vars = get(job_of(&doc, "test"), "variables").unwrap();
    assert_eq!(as_str(get(vars, "NODE_ENV").unwrap()), Some("test"));
    assert_eq!(as_str(get(vars, "EXTRA").unwrap()), Some("value"));
}

#[test]
fn test_extends_chain() {
    let doc = load_text(
        r#"
stages: [test]

.level1:
  image: alpine:latest

.level2:
  extends: .level1
  before_script: [echo setup]

test:
  extends: .level2
  script: [echo test]
"#,
    )
    .unwrap();
    let job = job_of(&doc, "test");
    assert_eq!(as_str(get(job, "image").unwrap()), Some("alpine:latest"));
    assert!(get(job, "before_script").is_some());
}

#[test]
fn test_hidden_jobs_not_in_pipeline() {
    let doc = load_text(
        r#"
stages: [test]
.template:
  image: node:20

.another_hidden:
  before_script: [echo hi]

test:
  extends: .template
  script: [echo test]
"#,
    )
    .unwrap();
    let jobs = job_definitions(mapping_of(&doc));
    assert_eq!(jobs.len(), 1);
    assert!(jobs.iter().any(|(n, _)| n == "test"));
}

#[test]
fn test_merge_key_multiple_sources() {
    let doc = load_text(
        r#"
stages: [test]

.defaults: &defaults
  image: alpine:latest

.env: &env_config
  variables:
    ENV: production

test:
  <<: [*defaults, *env_config]
  script: [echo test]
"#,
    )
    .unwrap();
    let job = job_of(&doc, "test");
    assert_eq!(as_str(get(job, "image").unwrap()), Some("alpine:latest"));
    assert!(get(get(job, "variables").unwrap(), "ENV").is_some());
}

#[test]
fn test_extends_override_precedence() {
    let doc = load_text(
        r#"
stages: [test]
.base:
  image: node:16
  variables:
    A: "from-base"
    B: "from-base"

test:
  extends: .base
  image: node:20
  variables:
    B: "from-job"
    C: "from-job"
  script: [echo test]
"#,
    )
    .unwrap();
    let job = job_of(&doc, "test");
    assert_eq!(as_str(get(job, "image").unwrap()), Some("node:20"));
    let vars = get(job, "variables").unwrap();
    assert_eq!(as_str(get(vars, "A").unwrap()), Some("from-base"));
    assert_eq!(as_str(get(vars, "B").unwrap()), Some("from-job"));
    assert_eq!(as_str(get(vars, "C").unwrap()), Some("from-job"));
}

#[test]
fn test_duplicate_stage_names() {
    let doc = load_text(
        r#"
stages:
  - build
  - build
  - test

build:
  stage: build
  script: [echo build]
test:
  stage: test
  script: [echo test]
"#,
    )
    .unwrap();
    assert!(parse_stages(mapping_of(&doc)).contains(&"build".to_string()));
}

#[test]
fn test_extends_conflict_last_wins() {
    let doc = load_text(
        r#"
stages: [test]
.base:
  image: ruby:3.0
  retry: 2

.override:
  image: python:3.12
  retry: 1

test:
  extends:
    - .base
    - .override
  script: [echo test]
"#,
    )
    .unwrap();
    let job = job_of(&doc, "test");
    assert_eq!(as_str(get(job, "image").unwrap()), Some("python:3.12"));
    assert!(matches!(get(job, "retry").unwrap(), Yaml::Int(1)));
}

#[test]
fn spec_stages_default_order() {
    let doc = load_text(
        r#"
test_job:
  script: echo test
"#,
    )
    .unwrap();
    assert_eq!(parse_stages(mapping_of(&doc)), vec![".pre", "build", "test", "deploy", ".post"]);
}

#[test]
fn spec_extends_basic() {
    let doc = load_text(
        r#"
stages: [test]
.tests:
  stage: test
  image: ruby:3.0

rspec:
  extends: .tests
  script: rake rspec

rubocop:
  extends: .tests
  script: bundle exec rubocop
"#,
    )
    .unwrap();
    let rspec = job_of(&doc, "rspec");
    assert_eq!(as_str(get(rspec, "stage").unwrap()), Some("test"));
    assert_eq!(as_str(get(rspec, "image").unwrap()), Some("ruby:3.0"));
    assert_eq!(as_str(get(rspec, "script").unwrap()), Some("rake rspec"));
    let rubocop = job_of(&doc, "rubocop");
    assert_eq!(as_str(get(rubocop, "stage").unwrap()), Some("test"));
    assert_eq!(as_str(get(rubocop, "image").unwrap()), Some("ruby:3.0"));
    assert_eq!(as_str(get(rubocop, "script").unwrap()), Some("bundle exec rubocop"));
}

#[test]
fn spec_extends_multiple_parents() {
    let doc = load_text(
        r#"
stages: [test]
.base_image:
  image: node:20

.base_scripts:
  before_script: [npm ci]

test:
  extends:
    - .base_image
    - .base_scripts
  script: [npm test]
"#,
    )
    .unwrap();
    let job = job_of(&doc, "test");
    assert_eq!(as_str(get(job, "image").unwrap()), Some("node:20"));
    assert!(get(job, "before_script").is_some());
}

#[test]
fn spec_needs_empty_starts_immediately() {
    let doc = load_text(
        r#"
stages: [build, test]
build:
  stage: build
  script: echo build
lint:
  stage: test
  needs: []
  script: echo lint
"#,
    )
    .unwrap();
    assert!(string_list(get(job_of(&doc, "lint"), "needs").unwrap()).is_empty());
}

#[test]
fn spec_job_names_with_spaces() {
    let doc = load_text(
        r#"
stages: [test]
"rspec 2.7":
  script: bundle exec rspec
"test job":
  script: echo test
"#,
    )
    .unwrap();
    let jobs = job_definitions(mapping_of(&doc));
    assert!(jobs.iter().any(|(n, _)| n == "rspec 2.7"));
    assert!(jobs.iter().any(|(n, _)| n == "test job"));
}
