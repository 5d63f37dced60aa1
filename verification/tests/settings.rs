use std::path::PathBuf;
use todos_extension::config::{
    get_backend_config, set_backend_config, set_todo_path, todo_path, BackendConfig, Settings,
};

fn is_local(config: &BackendConfig, path: &str) -> bool {
    matches!(config, BackendConfig::Local(p) if p == &PathBuf::from(path))
}

#[test]
fn new_settings_use_the_local_file() {
    let settings = Settings::new(PathBuf::from("/tmp/todo.md"));
    assert_eq!(todo_path(&settings), PathBuf::from("/tmp/todo.md"));
    assert!(is_local(&get_backend_config(&settings), "/tmp/todo.md"));
}

#[test]
fn setting_the_backend_leaves_the_path() {
    let mut settings = Settings::new(PathBuf::from("/tmp/todo.md"));
    set_backend_config(
        &mut settings,
        BackendConfig::WebDav {
            url: "https://dav.example/todo.md".to_string(),
            username: Some("u".to_string()),
            password: None,
        },
    );
    assert_eq!(todo_path(&settings), PathBuf::from("/tmp/todo.md"));
    match get_backend_config(&settings) {
        BackendConfig::WebDav { url, username, password } => {
            assert_eq!(url, "https://dav.example/todo.md");
            assert_eq!(username.as_deref(), Some("u"));
            assert_eq!(password, None);
        }
        BackendConfig::Local(_) => panic!("the WebDAV backend was set"),
    }
}

#[test]
fn setting_the_path_makes_the_local_file_the_backend() {
    let mut settings = Settings::new(PathBuf::from("/tmp/a.md"));
    set_backend_config(
        &mut settings,
        BackendConfig::WebDav { url: "u".to_string(), username: None, password: None },
    );
    set_todo_path(&mut settings, PathBuf::from("/tmp/b.md"));
    assert_eq!(todo_path(&settings), PathBuf::from("/tmp/b.md"));
    assert!(is_local(&get_backend_config(&settings), "/tmp/b.md"));
}

#[test]
fn the_backend_handed_out_is_a_copy() {
    let mut settings = Settings::new(PathBuf::from("/tmp/a.md"));
    let before = get_backend_config(&settings);
    set_todo_path(&mut settings, PathBuf::from("/tmp/b.md"));
    assert!(is_local(&before, "/tmp/a.md"));
    assert!(is_local(&before.clone(), "/tmp/a.md"));
}
