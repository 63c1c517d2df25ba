use androkit::model::{AndroidProject, Module};
use androkit::project::cache::{entry_is_valid, is_fresh, signature, signature_files, CACHE_SCHEMA};

fn module(path: &str, dir: &str, app: bool) -> Module {
    Module { path: path.to_string(), dir: dir.to_string(), is_application: app }
}

fn project(app_module: Option<&str>) -> AndroidProject {
    AndroidProject {
        root: "/p".to_string(),
        modules: vec![module(":app", "app", true), module(":core", "core", false)],
        app_module: app_module.map(|s| s.to_string()),
        variants: vec![],
        default_variant: None,
        application_id: None,
        launch_activity: None,
    }
}

#[test]
fn signature_files_cover_settings_builds_and_manifest() {
    let files = signature_files("/p", &project(Some(":app")));
    assert_eq!(
        files,
        vec![
            "/p/settings.gradle",
            "/p/settings.gradle.kts",
            "/p/gradle/libs.versions.toml",
            "/p/build.gradle",
            "/p/build.gradle.kts",
            "/p/app/build.gradle",
            "/p/app/build.gradle.kts",
            "/p/core/build.gradle",
            "/p/core/build.gradle.kts",
            "/p/app/src/main/AndroidManifest.xml",
        ]
    );
    assert_eq!(signature_files("/p", &project(None)).len(), 9);
    assert_eq!(signature_files("/p", &project(Some(":gone"))).len(), 9);
}

#[test]
fn signature_keeps_existing_files_sorted() {
    let probed = vec![
        ("/p/settings.gradle".to_string(), Some(30u64)),
        ("/p/settings.gradle.kts".to_string(), None),
        ("/p/app/build.gradle".to_string(), Some(20u64)),
        ("/p/Zed/build.gradle".to_string(), Some(5u64)),
        ("/p/app/build.gradle".to_string(), Some(10u64)),
    ];
    let sig = signature(&probed);
    assert_eq!(
        sig,
        vec![
            ("/p/Zed/build.gradle".to_string(), 5),
            ("/p/app/build.gradle".to_string(), 10),
            ("/p/app/build.gradle".to_string(), 20),
            ("/p/settings.gradle".to_string(), 30),
        ]
    );
    let mut reversed = probed.clone();
    reversed.reverse();
    assert_eq!(signature(&reversed), sig);
    assert!(signature(&[]).is_empty());
}

#[test]
fn freshness_compares_whole_signature() {
    let a = vec![("/p/a".to_string(), 1u64), ("/p/b".to_string(), 2u64)];
    assert!(is_fresh(&a, &a.clone()));
    let touched = vec![("/p/a".to_string(), 1u64), ("/p/b".to_string(), 3u64)];
    assert!(!is_fresh(&a, &touched));
    assert!(!is_fresh(&a, &a[..1]));
    assert!(is_fresh(&[], &[]));
}

#[test]
fn entries_of_an_older_layout_are_invalid() {
    let a = vec![("/p/a".to_string(), 1u64)];
    assert!(entry_is_valid(CACHE_SCHEMA, &a, &a));
    assert!(!entry_is_valid(0, &a, &a));
    assert!(!entry_is_valid(CACHE_SCHEMA, &a, &[]));
}
