use chat_server::migration::{file_extension, is_migration_file};
use chat_server::registry::UserRegistry;

#[test]
fn registry_knows_loaded_and_registered_users() {
    let mut registry = UserRegistry::from_names(vec!["ann".to_string()]);
    assert!(!registry.is_new_user(&"ann".to_string()));
    assert!(registry.is_new_user(&"bob".to_string()));
    registry.register("bob".to_string());
    assert!(!registry.is_new_user(&"bob".to_string()));
    assert!(!registry.is_new_user(&"ann".to_string()));
}

#[test]
fn migration_files_are_sql_files() {
    assert!(is_migration_file("001_users.sql"));
    assert!(is_migration_file("a.b.sql"));
    assert!(is_migration_file("..sql"));
    assert!(!is_migration_file(".sql"));
    assert!(!is_migration_file("sql"));
    assert!(!is_migration_file("a.SQL"));
    assert!(!is_migration_file("a.sql.bak"));
    assert!(!is_migration_file(".."));
    assert!(!is_migration_file(""));
}

#[test]
fn extension_matches_std_path() {
    for name in ["a.sql", ".sql", "..sql", "a.", "abc", "x.tar.gz", "..", ".a.b"] {
        let expected = std::path::Path::new(name).extension().map(|e| e.to_str().unwrap().to_string());
        assert_eq!(file_extension(name), expected, "{}", name);
    }
}

#[test]
fn welcome_records_new_users_once() {
    let mut registry = UserRegistry::from_names(vec!["ann".to_string()]);
    assert!(!registry.welcome(&"ann".to_string()));
    assert!(registry.welcome(&"bob".to_string()));
    assert!(!registry.welcome(&"bob".to_string()));
    assert!(!registry.is_new_user(&"bob".to_string()));
}
