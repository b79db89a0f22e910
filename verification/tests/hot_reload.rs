use saya_core::db::{migration_step, MigrationStep};
use saya_core::plugins::hot_reload::{get_changed_plugin, path_components, WatchedPath};

fn watched(path: &str, exists: bool) -> WatchedPath {
    WatchedPath { path: path.into(), exists }
}

#[test]
fn changed_plugin_names() {
    let dir = "/home/u/.local/share/saya-core/plugins";
    let paths = vec![
        watched("/tmp/elsewhere/x", true),
        watched("/home/u/.local/share/saya-core/plugins/.git/index", true),
        watched("/home/u/.local/share/saya-core/plugins/gone/ui/app.js", false),
        watched("/home/u/.local/share/saya-core/plugins/email/ui/app.js", true),
        watched("/home/u/.local/share/saya-core/plugins/tasks/ui/index.html", true),
    ];
    assert_eq!(get_changed_plugin(dir, &paths), Some("email".to_string()));
    assert_eq!(get_changed_plugin(dir, &paths[..3]), None);
    // The directory itself names no plugin.
    assert_eq!(get_changed_plugin(dir, &[watched(dir, true)]), None);
    // Components, not text, are compared.
    assert_eq!(
        get_changed_plugin("/a/plug", &[watched("/a/plugins/x", true), watched("/a//plug/./y/z", true)]),
        Some("y".to_string())
    );
    assert_eq!(get_changed_plugin("/a/plug/", &[watched("/a/plug/q", true)]), Some("q".to_string()));
}

#[test]
fn components_of_paths() {
    assert_eq!(path_components("/a//b/./c/"), vec!["/", "a", "b", "c"]);
    assert_eq!(path_components("./x/../y"), vec![".", "x", "..", "y"]);
    assert_eq!(path_components("a/."), vec!["a"]);
    assert!(path_components("").is_empty());
}

#[test]
fn migrations() {
    assert_eq!(migration_step(0), MigrationStep::InitialSchema);
    assert_eq!(migration_step(-3), MigrationStep::InitialSchema);
    assert_eq!(migration_step(1), MigrationStep::AddAxisDescriptions);
    assert_eq!(migration_step(2), MigrationStep::UpToDate);
    assert_eq!(migration_step(9), MigrationStep::UpToDate);
}
