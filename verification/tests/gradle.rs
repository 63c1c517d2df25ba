use androkit::error::Error;
use androkit::gradle::Gradle;

#[test]
fn wrapper_preference_depends_on_platform() {
    assert_eq!(Gradle::wrapper_names(false), vec!["gradlew", "gradlew.bat"]);
    assert_eq!(Gradle::wrapper_names(true), vec!["gradlew.bat", "gradlew"]);
}

#[test]
fn at_picks_first_present_wrapper() {
    let g = Gradle::at("/proj", false, [true, true]).unwrap();
    assert_eq!(g.root, "/proj");
    assert_eq!(g.gradlew(), "/proj/gradlew");
    let g = Gradle::at("/proj", false, [false, true]).unwrap();
    assert_eq!(g.gradlew(), "/proj/gradlew.bat");
    let g = Gradle::at("/proj", true, [true, true]).unwrap();
    assert_eq!(g.gradlew(), "/proj/gradlew.bat");
}

#[test]
fn at_errors_without_wrapper() {
    let e = Gradle::at("/proj", false, [false, false]).unwrap_err();
    assert!(matches!(e, Error::NoGradleWrapper { .. }));
    assert_eq!(
        e.message(),
        "No Gradle wrapper (gradlew) found at /proj. Is this an Android/Gradle project?"
    );
}

#[test]
fn task_arguments() {
    let g = Gradle::at("/proj", false, [true, false]).unwrap();
    assert_eq!(g.tasks(Some(":app")), vec!["-q", ":app:tasks", "--all"]);
    assert_eq!(g.tasks(Some(":app::")), vec!["-q", ":app:tasks", "--all"]);
    assert_eq!(g.tasks(None), vec!["-q", "tasks", "--all"]);
    assert_eq!(g.run_task(":app:installDevDebug", &["--offline"]), vec![":app:installDevDebug", "--offline"]);
    assert_eq!(g.run_task("clean", &[]), vec!["clean"]);
    assert_eq!(g.stop_daemons(), vec!["--stop"]);
}
