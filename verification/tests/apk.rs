use androkit::apk::{
    analyze_apk, apk_paths, basic_apk_info, has_manifest_entry, bundle_base, extension, find_base_apk, package_kind,
    parse_aapt_badging, tag_bundle, PackageKind,
};
use androkit::error::Error;

#[test]
fn parses_aapt_badging() {
    let sample = r#"package: name='com.example.app' versionCode='42' versionName='1.2.3' platformBuildVersionName=''
application-label:'Example App'
application-label-en:'Example App'
uses-permission: name='android.permission.CAMERA'
uses-permission: name='android.permission.INTERNET'"#;
    let info = parse_aapt_badging(sample, "/tmp/x.apk");
    assert_eq!(info.package_name, "com.example.app");
    assert_eq!(info.version_code, "42");
    assert_eq!(info.version_name, "1.2.3");
    assert_eq!(info.app_name, "Example App");
    assert_eq!(
        info.permissions,
        vec![
            "android.permission.CAMERA".to_string(),
            "android.permission.INTERNET".to_string()
        ]
    );
}

#[test]
fn empty_version_name_becomes_not_set() {
    let sample = "package: name='c.x' versionCode='1' versionName=''";
    let info = parse_aapt_badging(sample, "/tmp/x.apk");
    assert_eq!(info.version_name, "Not set");
}

#[test]
fn base_apk_prefers_exact_name() {
    let apks = vec![
        "/t/split_config.arm64.apk".to_string(),
        "/t/base.apk".to_string(),
    ];
    assert_eq!(find_base_apk(&apks, &[0, 0]), "/t/base.apk".to_string());
}

#[test]
fn base_apk_falls_back_to_name_containing_base_then_largest() {
    let apks = vec!["/t/a.apk".to_string(), "/t/Base-master.APK".to_string()];
    assert_eq!(find_base_apk(&apks, &[900, 1]), "/t/Base-master.APK");
    let apks = vec!["/t/a.apk".to_string(), "/t/b.apk".to_string(), "/t/c.apk".to_string()];
    assert_eq!(find_base_apk(&apks, &[5, 9, 9]), "/t/c.apk");
    assert_eq!(find_base_apk(&apks, &[10, 9, 3]), "/t/a.apk");
    // Only the file name counts, not the directories above it.
    let apks = vec!["/base/x.apk".to_string(), "/t/y.apk".to_string()];
    assert_eq!(find_base_apk(&apks, &[1, 5]), "/t/y.apk");
}

#[test]
fn badging_defaults_and_label_fallbacks() {
    let info = parse_aapt_badging("", "/a.apk");
    assert_eq!(info.file, "/a.apk");
    assert_eq!(info.package_name, "N/A");
    assert_eq!(info.app_name, "N/A");
    assert_eq!(info.version_code, "N/A");
    assert_eq!(info.version_name, "N/A");
    assert!(info.permissions.is_empty());
    assert_eq!(info.source_file, None);
    let localized = "application-label-de:'Beispiel'\napplication-label-fr:'Exemple'";
    assert_eq!(parse_aapt_badging(localized, "/a.apk").app_name, "Beispiel");
    let dq = "package: name=\"com.dq\" versionCode=\"7\"\nuses-permission: name='p.A'\nuses-permission: name='p.A'";
    let info = parse_aapt_badging(dq, "/a.apk");
    assert_eq!(info.package_name, "com.dq");
    assert_eq!(info.version_code, "7");
    assert_eq!(info.permissions, vec!["p.A".to_string()]);
}

#[test]
fn package_kind_by_extension() {
    assert_eq!(package_kind("/x/app.apk").unwrap(), PackageKind::Apk);
    assert_eq!(package_kind("/x/APP.XAPK").unwrap(), PackageKind::Bundle);
    assert_eq!(package_kind("/x/app.apkm").unwrap(), PackageKind::Bundle);
    let e = package_kind("/x/app.zip").unwrap_err();
    assert!(matches!(e, Error::UnsupportedFileType));
    assert_eq!(e.message(), "Unsupported file type. Only APK, XAPK, and APKM files are supported.");
    assert!(package_kind("/x/.apk").is_err());
    assert_eq!(extension("/x/Thing.ApK"), Some("apk".to_string()));
    assert_eq!(extension("/x/noext"), None);
    assert_eq!(package_kind("A.APK").unwrap(), PackageKind::Apk);
    assert_eq!(extension(".bashrc"), None);
    assert_eq!(extension("a."), Some("".to_string()));
    assert_eq!(extension("/d/.a.b"), Some("b".to_string()));
}

#[test]
fn analyze_apk_prefers_aapt_then_archive() {
    let info = analyze_apk("/a.apk", Some("package: name='com.a' versionCode='3'"), false).unwrap();
    assert_eq!(info.package_name, "com.a");
    let basic = analyze_apk("/a.apk", None, true).unwrap();
    assert_eq!(basic.package_name, "N/A (install aapt/aapt2 for full info)");
    assert_eq!(basic.app_name, "N/A");
    let e = analyze_apk("/a.apk", None, false).unwrap_err();
    assert_eq!(e.message(), "/a.apk does not look like an APK (no AndroidManifest.xml)");
    assert!(basic_apk_info("/b.apk", true).is_ok());
}

#[test]
fn bundle_helpers() {
    let files = vec![
        "/tmp/b/base.apk".to_string(),
        "/tmp/b/icon.png".to_string(),
        "/tmp/b/config.xxhdpi.APK".to_string(),
    ];
    let apks = apk_paths(&files);
    assert_eq!(apks, vec!["/tmp/b/base.apk", "/tmp/b/config.xxhdpi.APK"]);
    assert_eq!(bundle_base(&apks, &[1, 2]).unwrap(), "/tmp/b/base.apk");
    let e = bundle_base(&[], &[]).unwrap_err();
    assert_eq!(e.message(), "No APK files found in bundle");
    let info = parse_aapt_badging("package: name='com.b'", "/tmp/b/base.apk");
    let tagged = tag_bundle(info, "/d/app.xapk", 2);
    assert_eq!(tagged.package_name, "com.b");
    assert_eq!(tagged.source_file.as_deref(), Some("/d/app.xapk"));
    assert_eq!(tagged.apk_count, Some(2));
}

#[test]
fn manifest_entry_is_found_by_exact_name() {
    let names = vec!["classes.dex".to_string(), "AndroidManifest.xml".to_string()];
    assert!(has_manifest_entry(&names));
    assert!(!has_manifest_entry(&["res/AndroidManifest.xml".to_string(), "a".to_string()]));
    assert!(!has_manifest_entry(&[]));
}
