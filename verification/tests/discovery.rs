use androkit::model::Module;
use androkit::project::{assemble_project, describe_module, find_root, module_dir, module_paths, DirProbe};
use androkit::project::dsl::application_plugin_aliases;

const ROOT: &str = "/work/multi-variant";

const SETTINGS: &str = "rootProject.name = \"sample\"\ninclude ':app', ':core'\n";

const APP_BUILD: &str = r#"plugins {
    id 'com.android.application'
}

android {
    namespace "com.example.sample"
    compileSdk 34

    defaultConfig {
        applicationId "com.example.sample"
        minSdk 24
    }

    flavorDimensions "env"
    productFlavors {
        dev { dimension "env" }
        prod { dimension "env" }
    }

    buildTypes {
        release { minifyEnabled true }
    }
}
"#;

const CORE_BUILD: &str = "plugins {\n    id 'com.android.library'\n}\n";

const APP_MANIFEST: &str = r#"<?xml version="1.0" encoding="utf-8"?>
<manifest xmlns:android="http://schemas.android.com/apk/res/android">
    <application android:label="Sample">
        <activity android:name=".ui.MainActivity" android:exported="true">
            <intent-filter>
                <action android:name="android.intent.action.MAIN" />
                <category android:name="android.intent.category.LAUNCHER" />
            </intent-filter>
        </activity>
    </application>
</manifest>
"#;

fn modules() -> Vec<Module> {
    let aliases = application_plugin_aliases("");
    module_paths(Some(SETTINGS), true)
        .into_iter()
        .map(|path| {
            let dir = module_dir(Some(SETTINGS), &path);
            let script = if path == ":app" { APP_BUILD } else { CORE_BUILD };
            describe_module(path, dir, Some(script), &aliases)
        })
        .collect()
}

#[test]
fn discovers_multi_variant_project() {
    let project = assemble_project(ROOT, modules(), Some(APP_BUILD), Some(APP_MANIFEST));

    // Modules: :app (application) and :core (library).
    assert_eq!(project.modules.len(), 2);
    assert_eq!(project.app_module.as_deref(), Some(":app"));
    let app = project.modules.iter().find(|m| m.path == ":app").unwrap();
    assert!(app.is_application);
    assert_eq!(app.dir, "app");
    let core = project.modules.iter().find(|m| m.path == ":core").unwrap();
    assert!(!core.is_application);

    // applicationId.
    assert_eq!(
        project.application_id.as_deref(),
        Some("com.example.sample")
    );

    // Variants: {dev,prod} x {debug,release} = 4.
    let names: Vec<&str> = project.variants.iter().map(|v| v.name.as_str()).collect();
    assert_eq!(names.len(), 4);
    for expected in ["devDebug", "devRelease", "prodDebug", "prodRelease"] {
        assert!(names.contains(&expected), "missing variant {expected}");
    }

    // Default variant prefers devDebug.
    assert_eq!(project.default_variant.as_deref(), Some("devDebug"));

    // Launcher activity resolved & fully-qualified as a component.
    assert_eq!(
        project.launch_activity.as_deref(),
        Some("com.example.sample/com.example.sample.ui.MainActivity")
    );
}

#[test]
fn derives_task_names_from_convention() {
    let project = assemble_project(ROOT, modules(), Some(APP_BUILD), Some(APP_MANIFEST));
    assert_eq!(project.install_task("devDebug"), "installDevDebug");
    assert_eq!(project.unit_test_task("devDebug"), "testDevDebugUnitTest");
    assert_eq!(project.assemble_task("prodRelease"), "assembleProdRelease");
}

fn probe(dir: &str, settings: bool) -> DirProbe {
    DirProbe {
        dir: dir.to_string(),
        settings_gradle: settings,
        settings_gradle_kts: false,
        gradlew: false,
        build_gradle: false,
    }
}

#[test]
fn find_root_walks_up_from_nested_dir() {
    let nested = format!("{ROOT}/app/src/main");
    let ancestors = vec![
        probe(&nested, false),
        probe(&format!("{ROOT}/app/src"), false),
        probe(&format!("{ROOT}/app"), false),
        probe(ROOT, true),
        probe("/work", false),
        probe("/", false),
    ];
    let root = find_root(&nested, &ancestors).expect("should find root");
    assert_eq!(root, ROOT);
}

#[test]
fn find_root_accepts_wrapper_with_build_script_and_reports_failure() {
    let bare = DirProbe {
        dir: "/p".to_string(),
        settings_gradle: false,
        settings_gradle_kts: false,
        gradlew: true,
        build_gradle: true,
    };
    assert_eq!(find_root("/p/x", &[probe("/p/x", false), bare]).unwrap(), "/p");
    let e = find_root("/nowhere", &[probe("/nowhere", false), probe("/", false)]).unwrap_err();
    assert_eq!(
        e.message(),
        "No Android/Gradle project found at or above /nowhere (no settings.gradle)."
    );
}

#[test]
fn project_without_application_module() {
    let ms = vec![describe_module(":lib".to_string(), "lib".to_string(), Some(CORE_BUILD), &[])];
    let project = assemble_project(ROOT, ms, None, None);
    assert_eq!(project.app_module, None);
    assert!(project.variants.is_empty());
    assert_eq!(project.default_variant, None);
    assert_eq!(project.application_id, None);
    assert_eq!(project.launch_activity, None);
}

#[test]
fn single_module_project_uses_root_dir() {
    assert_eq!(module_paths(None, true), vec![":"]);
    assert!(module_paths(None, false).is_empty());
    assert_eq!(module_paths(Some("rootProject.name = 'x'"), true), vec![":"]);
    assert_eq!(module_dir(None, ":"), ".");
    let relocated = "include ':lib'\nproject(':lib').projectDir = file('libs/core')";
    assert_eq!(module_dir(Some(relocated), ":lib"), "libs/core");
    assert_eq!(module_dir(Some(relocated), ":feature:home"), "feature/home");
}
