use lab_core::paths::{cache_dir, data_dir, secrets_file, workdir_key, PathEnv};

fn env() -> PathEnv {
    PathEnv { xdg_data_home: None, xdg_cache_home: None, home: Some("/home/user".to_string()) }
}

#[test]
fn test_workdir_key_deterministic() {
    let key1 = workdir_key("/tmp/test-project");
    let key2 = workdir_key("/tmp/test-project");
    assert_eq!(key1, key2);
    assert_eq!(key1.len(), 16);
}

#[test]
fn test_workdir_key_different_paths() {
    let key1 = workdir_key("/tmp/project-a");
    let key2 = workdir_key("/tmp/project-b");
    assert_ne!(key1, key2);
}

#[test]
fn test_data_dir_default() {
    let dir = data_dir(&env());
    assert!(dir.ends_with("/lab"));
    assert_eq!(dir, "/home/user/.local/share/lab");
}

#[test]
fn test_cache_dir_default() {
    let dir = cache_dir(&env());
    assert!(dir.ends_with("/lab"));
    assert_eq!(dir, "/home/user/.cache/lab");
}

#[test]
fn test_secrets_file_path() {
    let path = secrets_file(&env(), None, "/tmp/some-project");
    assert!(path.contains("secrets"));
    assert!(path.ends_with("secrets.env"));
}

#[test]
fn xdg_dirs_take_precedence() {
    let e = PathEnv {
        xdg_data_home: Some("/xdg/data".to_string()),
        xdg_cache_home: Some("/xdg/cache".to_string()),
        home: Some("/home/user".to_string()),
    };
    assert_eq!(data_dir(&e), "/xdg/data/lab");
    assert_eq!(cache_dir(&e), "/xdg/cache/lab");
}

#[test]
fn secrets_file_under_remote_project() {
    let path = secrets_file(&env(), Some("group/project"), "/tmp/x");
    assert_eq!(path, "/home/user/.local/share/lab/secrets/group/project/secrets.env");
}

#[test]
fn workdir_key_is_lowercase_hex() {
    let key = workdir_key("/tmp/test-project");
    assert!(key.chars().all(|c| c.is_ascii_hexdigit() && !c.is_ascii_uppercase()));
}
