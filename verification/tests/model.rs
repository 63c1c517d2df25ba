use androkit::error::Error;
use androkit::exec::find_program;
use androkit::model::{capitalize, AndroidProject};

fn empty_project() -> AndroidProject {
    AndroidProject {
        root: "/p".to_string(),
        modules: vec![],
        app_module: None,
        variants: vec![],
        default_variant: None,
        application_id: None,
        launch_activity: None,
    }
}

#[test]
fn task_names_follow_gradle_convention() {
    let p = empty_project();
    assert_eq!(p.install_task("devDebug"), "installDevDebug");
    assert_eq!(p.unit_test_task("devDebug"), "testDevDebugUnitTest");
    assert_eq!(p.assemble_task("prodRelease"), "assembleProdRelease");
    assert_eq!(p.install_task(""), "install");
}

#[test]
fn capitalize_uppercases_first_character_only() {
    assert_eq!(capitalize("devDebug"), "DevDebug");
    assert_eq!(capitalize("debug"), "Debug");
    assert_eq!(capitalize(""), "");
    assert_eq!(capitalize("1abc"), "1abc");
    assert_eq!(capitalize("ßeta"), "SSeta");
    assert_eq!(capitalize("éclair"), "Éclair");
}

#[test]
fn find_program_reports_missing_tool() {
    assert_eq!(find_program("aapt", Some("/sdk/aapt".to_string())).unwrap(), "/sdk/aapt");
    let e = find_program("aapt2", None).unwrap_err();
    assert!(matches!(&e, Error::ProgramNotFound { name } if name == "aapt2"));
    assert_eq!(
        e.message(),
        "`aapt2` not found in PATH. Please install the Android SDK and ensure `aapt2` is available."
    );
}

#[test]
fn remaining_error_messages() {
    assert_eq!(Error::RecordingFailed.message(), "Screen recording failed or was interrupted");
    assert_eq!(
        Error::NotAnApk { path: "/x.apk".to_string() }.message(),
        "/x.apk does not look like an APK (no AndroidManifest.xml)"
    );
}
