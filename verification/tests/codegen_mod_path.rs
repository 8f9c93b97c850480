use tusks::codegen::mod_path::ModulePath;

#[test]
fn empty_path() {
    let p = ModulePath::new();
    assert!(p.is_empty());
    assert!(p.last().is_none());
}

#[test]
fn join_creates_new_path() {
    let p = ModulePath::new().join("git").join("advanced");
    assert!(!p.is_empty());
    assert_eq!(p.last(), Some("advanced"));
}

#[test]
fn join_does_not_mutate_original() {
    let p = ModulePath::new();
    let _ = p.join("git");
    assert!(p.is_empty());
}

#[test]
fn cli_path_empty() {
    let p = ModulePath::new();
    assert_eq!(p.cli_path().to_string(), "cli");
}

#[test]
fn cli_path_nested() {
    let p = ModulePath::new().join("git").join("advanced");
    assert_eq!(p.cli_path().to_string(), "cli :: git :: advanced");
}

#[test]
fn super_path_to_empty() {
    let p = ModulePath::new();
    assert_eq!(p.super_path_to("my_func").to_string(), "super :: my_func");
}

#[test]
fn super_path_to_nested() {
    let p = ModulePath::new().join("git");
    assert_eq!(p.super_path_to("my_func").to_string(), "super :: git :: my_func");
}

#[test]
fn super_path_ends_with_colons() {
    assert_eq!(ModulePath::new().super_path().to_string(), "super ::");
    assert_eq!(ModulePath::new().join("db").super_path().to_string(), "super :: db ::");
}
