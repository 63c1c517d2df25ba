use androkit::manifest::{launcher_activity, manifest_package};

const MANIFEST: &str = r#"<?xml version="1.0" encoding="utf-8"?>
<manifest xmlns:android="http://schemas.android.com/apk/res/android"
    package="com.example.legacy">
    <application android:label="X">
        <activity android:name=".SplashActivity" android:exported="false" />
        <activity android:name=".MainActivity" android:exported="true">
            <intent-filter>
                <action android:name="android.intent.action.MAIN" />
                <category android:name="android.intent.category.LAUNCHER" />
            </intent-filter>
        </activity>
    </application>
</manifest>"#;

#[test]
fn finds_relative_launcher_and_resolves_against_application_id() {
    let activity = launcher_activity(MANIFEST, Some("com.example.app"));
    assert_eq!(activity, Some("com.example.app.MainActivity".to_string()));
}

#[test]
fn falls_back_to_manifest_package() {
    let activity = launcher_activity(MANIFEST, None);
    assert_eq!(
        activity,
        Some("com.example.legacy.MainActivity".to_string())
    );
}

#[test]
fn handles_fully_qualified_name() {
    let xml = r#"<activity android:name="com.foo.Bar">
        <intent-filter>
            <action android:name="android.intent.action.MAIN"/>
            <category android:name="android.intent.category.LAUNCHER"/>
        </intent-filter></activity>"#;
    assert_eq!(
        launcher_activity(xml, Some("com.example.app")),
        Some("com.foo.Bar".to_string())
    );
}

#[test]
fn no_launcher_returns_none() {
    let xml = r#"<activity android:name=".Lonely" />"#;
    assert_eq!(launcher_activity(xml, Some("com.x")), None);
}

#[test]
fn finds_launcher_in_activity_alias() {
    let xml = r#"<activity android:name=".RealActivity" />
    <activity-alias android:name=".LauncherAlias" android:targetActivity=".RealActivity">
        <intent-filter>
            <action android:name="android.intent.action.MAIN"/>
            <category android:name="android.intent.category.LAUNCHER"/>
        </intent-filter>
    </activity-alias>"#;
    assert_eq!(
        launcher_activity(xml, Some("com.x")),
        Some("com.x.LauncherAlias".to_string())
    );
}

#[test]
fn reads_declared_package() {
    assert_eq!(manifest_package(MANIFEST), Some("com.example.legacy".to_string()));
    assert_eq!(manifest_package("<manifest/>"), None);
}

#[test]
fn bare_name_without_package_is_kept() {
    let xml = r#"<activity android:name="Main"><intent-filter>
        <action android:name="android.intent.action.MAIN"/>
        <category android:name="android.intent.category.LAUNCHER"/></intent-filter></activity>"#;
    assert_eq!(launcher_activity(xml, None), Some("Main".to_string()));
    assert_eq!(launcher_activity(xml, Some("com.x")), Some("com.x.Main".to_string()));
}
