use androkit::adb::{meminfo_kb, parse_battery, parse_ssid, resolve_output, storage_kb, Adb, CommandOutput};
use androkit::error::Error;
use androkit::model::NetworkInfo;
use androkit::adb::{health_readings, network_summary};

fn out(stdout: &str, stderr: &str) -> CommandOutput {
    CommandOutput { stdout: stdout.to_string(), stderr: stderr.to_string() }
}

fn adb() -> Adb {
    Adb::with_path("/opt/sdk/platform-tools/adb".to_string())
}

#[test]
fn parses_ssid_stripping_quotes() {
    let sample = r#"  mWifiInfo SSID: "HomeNet", BSSID: aa:bb"#;
    assert_eq!(parse_ssid(sample), Some("HomeNet".to_string()));
}

#[test]
fn ignores_unknown_ssid() {
    assert_eq!(parse_ssid("SSID: <unknown ssid>"), None);
    assert_eq!(parse_ssid("SSID: 0x0"), None);
}

#[test]
fn ssid_skips_placeholder_lines_and_takes_first_real_one() {
    let sample = "SSID: <unknown ssid>\nfoo\n mWifiInfo SSID: \"Office\", x\nSSID: Other";
    assert_eq!(parse_ssid(sample), Some("Office".to_string()));
    assert_eq!(parse_ssid("no wifi here"), None);
    assert_eq!(parse_ssid("SSID: \"\""), None);
}

#[test]
fn new_uses_the_path_found_or_fails() {
    let a = Adb::new(Some("/usr/bin/adb".to_string())).unwrap();
    assert_eq!(a.path(), "/usr/bin/adb");
    match Adb::new(None) {
        Err(Error::ProgramNotFound { name }) => assert_eq!(name, "adb"),
        other => panic!("unexpected {:?}", other),
    }
    let e = Adb::new(None).unwrap_err();
    assert_eq!(
        e.message(),
        "`adb` not found in PATH. Please install the Android SDK and ensure `adb` is available."
    );
}

#[test]
fn devices_lists_serials_and_skips_chatter() {
    let listing = "* daemon not running; starting now at tcp:5037\n* daemon started successfully\nList of devices attached\nemulator-5554          device product:sdk model:Pixel\n\nR58M123 device usb:1-1\n";
    let d = adb().devices(&out(listing, "")).unwrap();
    assert_eq!(d, vec!["emulator-5554".to_string(), "R58M123".to_string()]);
}

#[test]
fn devices_errors_when_none_attached() {
    let e = adb().devices(&out("List of devices attached\n\n", "")).unwrap_err();
    assert!(matches!(e, Error::NoDevices));
    assert!(e.message().starts_with("No connected devices found."));
}

#[test]
fn device_info_reads_getprop_lines() {
    let getprop = "[ro.product.model]: [Pixel 7]\n[ro.build.version.sdk]: [34]\n[ro.product.brand]: [google]\n[ro.unrelated]: [x]\n[ro.build.version.sdk]: [35]\n";
    let info = adb().device_info("emulator-5554", &out(getprop, ""));
    assert_eq!(info.serial, "emulator-5554");
    assert_eq!(info.model.as_deref(), Some("Pixel 7"));
    assert_eq!(info.brand.as_deref(), Some("google"));
    assert_eq!(info.sdk.as_deref(), Some("35"));
    assert_eq!(info.manufacturer, None);
    assert_eq!(info.security_patch, None);
}

#[test]
fn network_info_collects_inet_addresses() {
    let ip = "1: lo: <LOOPBACK>\n    inet 127.0.0.1/8 scope host lo\n3: wlan0: <UP>\n    inet 192.168.1.23/24 brd 192.168.1.255 scope global wlan0\n";
    let wifi = "mWifiInfo SSID: \"HomeNet\", BSSID: aa";
    let info = adb().network_info("s1", Some(&out(ip, "")), Some(&out(wifi, "")));
    assert_eq!(info.device, "s1");
    assert_eq!(info.ip_addresses, vec!["127.0.0.1".to_string(), "192.168.1.23".to_string()]);
    assert_eq!(info.ssid.as_deref(), Some("HomeNet"));
    let none = adb().network_info("s1", None, None);
    assert!(none.ip_addresses.is_empty());
    assert_eq!(none.ssid, None);
}

#[test]
fn network_summary_skips_loopback() {
    let info = NetworkInfo {
        device: "s".to_string(),
        ip_addresses: vec!["127.0.0.1".to_string(), "10.0.0.5".to_string()],
        ssid: Some("Net".to_string()),
    };
    let n = network_summary(info);
    assert_eq!(n.ip.as_deref(), Some("10.0.0.5"));
    assert_eq!(n.ssid.as_deref(), Some("Net"));
    let only_lo = NetworkInfo { device: "s".to_string(), ip_addresses: vec!["127.0.0.1".to_string()], ssid: None };
    assert_eq!(network_summary(only_lo).ip, None);
}

#[test]
fn battery_takes_last_level_and_status() {
    let b = parse_battery("Current Battery Service state:\n  level: 50\n  status: 2\n  level: 87\n");
    assert_eq!(b.level.as_deref(), Some("87"));
    assert_eq!(b.status.as_deref(), Some("2"));
    assert_eq!(parse_battery("nothing").level, None);
}

#[test]
fn storage_reads_first_full_row_after_header() {
    let df = "Filesystem     1K-blocks    Used Available Use% Mounted on\n/dev/block/dm-5 1,000,000 250,000 750,000 25% /data\n";
    assert_eq!(
        storage_kb(df),
        Some(("1000000".to_string(), "250000".to_string(), "750000".to_string()))
    );
    assert_eq!(storage_kb("Filesystem 1K-blocks Used Available Use% Mounted\nshort row\n"), None);
    assert_eq!(storage_kb("/dev/a 1 2 3 4% /data"), None);
}

#[test]
fn meminfo_reads_total_and_available() {
    let m = "MemTotal:        7852548 kB\nMemFree:          211700 kB\nMemAvailable:    3050196 kB\n";
    assert_eq!(meminfo_kb(m), (Some("7852548".to_string()), Some("3050196".to_string())));
    assert_eq!(meminfo_kb("MemTotal:\n"), (None, None));
}

#[test]
fn list_packages_sorts_case_insensitively() {
    let listing = "package:com.zeta\npackage:com.Alpha\n\npackage:com.beta\npackage:com.alpha\n";
    let names = adb().list_packages(&out(listing, ""));
    assert_eq!(names, vec!["com.Alpha", "com.alpha", "com.beta", "com.zeta"]);
}

#[test]
fn apk_path_for_strips_package_suffix() {
    let listing = "package:/data/app/com.a-1/base.apk=com.a\npackage:/data/app/com.example-2/base.apk=com.example\n";
    let p = adb().apk_path_for("com.example", &out(listing, "")).unwrap();
    assert_eq!(p, "/data/app/com.example-2/base.apk");
    let e = adb().apk_path_for("com.missing", &out(listing, "")).unwrap_err();
    assert_eq!(e.message(), "Could not find APK path for com.missing");
}

#[test]
fn download_apk_pulls_resolved_path() {
    let listing = "package:/data/app/x/base.apk=com.x\n";
    let args = adb().download_apk("s1", "com.x", &out(listing, ""), "/tmp/com.x.apk").unwrap();
    assert_eq!(args, vec!["-s", "s1", "pull", "/data/app/x/base.apk", "/tmp/com.x.apk"]);
    assert!(matches!(
        adb().download_apk("s1", "com.y", &out(listing, ""), "/tmp/y.apk"),
        Err(Error::ApkPathNotFound { .. })
    ));
}

#[test]
fn start_activity_fails_on_error_line() {
    let a = adb();
    assert_eq!(
        a.start_activity_args("s1", "com.x/.Main"),
        vec!["-s", "s1", "shell", "am", "start", "-n", "com.x/.Main"]
    );
    assert!(a.start_activity("com.x/.Main", &out("Starting: Intent", "")).is_ok());
    let e = a.start_activity("com.x/.Main", &out("", "  Error: Activity class does not exist.\n")).unwrap_err();
    assert_eq!(e.message(), "Failed to start com.x/.Main: Error: Activity class does not exist.");
}

#[test]
fn launch_url_fails_on_error_line() {
    let a = adb();
    assert_eq!(
        a.launch_url_args("s1", "https://x.io"),
        vec!["-s", "s1", "shell", "am", "start", "-a", "android.intent.action.VIEW", "-d", "https://x.io"]
    );
    assert!(a.launch_url("https://x.io", &out("", "Starting: Intent")).is_ok());
    let e = a.launch_url("https://x.io", &out("", "Error: no handler")).unwrap_err();
    assert_eq!(e.message(), "Failed to launch https://x.io: Error: no handler");
}

#[test]
fn clear_data_and_uninstall_need_success() {
    let a = adb();
    assert_eq!(a.clear_data_args("s1", "com.x"), vec!["-s", "s1", "shell", "pm", "clear", "com.x"]);
    assert!(a.clear_data("com.x", &out("Success\n", "")).is_ok());
    let e = a.clear_data("com.x", &out("Failed\n", "")).unwrap_err();
    assert_eq!(e.message(), "Failed to clear data for com.x");
    assert_eq!(a.uninstall_args("s1", "com.x"), vec!["-s", "s1", "uninstall", "com.x"]);
    assert!(a.uninstall("com.x", &out("Success", "")).is_ok());
    let e = a.uninstall("com.x", &out(" Failure [DELETE_FAILED_INTERNAL_ERROR]\n", "")).unwrap_err();
    assert_eq!(e.message(), "Failed to uninstall com.x: Failure [DELETE_FAILED_INTERNAL_ERROR]");
}

#[test]
fn pid_of_is_trimmed_output() {
    let a = adb();
    assert_eq!(a.pid_of_args("s1", "com.x"), vec!["-s", "s1", "shell", "pidof", "com.x"]);
    assert_eq!(a.pid_of(&out(" 4242\n", "")), Some("4242".to_string()));
    assert_eq!(a.pid_of(&out("\n", "")), None);
}

#[test]
fn install_apk_checks_file_and_outcome() {
    let a = adb();
    assert_eq!(
        a.install_apk_args("s1", "/tmp/a.apk", true).unwrap(),
        vec!["-s", "s1", "install", "-d", "/tmp/a.apk"]
    );
    let e = a.install_apk_args("s1", "/tmp/a.apk", false).unwrap_err();
    assert_eq!(e.message(), "File does not exist: /tmp/a.apk");
    assert!(a.install_apk(&out("Performing Streamed Install\nSuccess\n", "")).is_ok());
    let e = a.install_apk(&out("", " adb: failed to install\n")).unwrap_err();
    assert_eq!(e.message(), "Failed to install APK: adb: failed to install");
}

#[test]
fn install_multiple_needs_apks() {
    let a = adb();
    let apks = vec!["/t/base.apk".to_string(), "/t/split.apk".to_string()];
    assert_eq!(
        a.install_multiple_args("s1", &apks).unwrap(),
        vec!["-s", "s1", "install-multiple", "-d", "/t/base.apk", "/t/split.apk"]
    );
    let e = a.install_multiple_args("s1", &[]).unwrap_err();
    assert!(matches!(e, Error::NoApks));
    assert_eq!(e.message(), "No APKs to install");
    assert!(a.install_multiple(&out("Success", "")).is_ok());
    let e = a.install_multiple(&out("", "boom ")).unwrap_err();
    assert_eq!(e.message(), "Failed to install APKs: boom");
}

#[test]
fn lifecycle_invocations() {
    let a = adb();
    assert_eq!(a.stop_app("s1", "com.x"), vec!["-s", "s1", "shell", "am", "force-stop", "com.x"]);
    assert_eq!(
        a.launch_package("s1", "com.x"),
        vec!["-s", "s1", "shell", "monkey", "-p", "com.x", "-c", "android.intent.category.LAUNCHER", "1"]
    );
    assert_eq!(
        a.grant("s1", "com.x", &["android.permission.CAMERA", "android.permission.RECORD_AUDIO"]),
        vec![
            vec!["-s", "s1", "shell", "pm", "grant", "com.x", "android.permission.CAMERA"],
            vec!["-s", "s1", "shell", "pm", "grant", "com.x", "android.permission.RECORD_AUDIO"],
        ]
    );
    assert_eq!(
        a.revoke("s1", "com.x", &["android.permission.CAMERA"]),
        vec![vec!["-s", "s1", "shell", "pm", "revoke", "com.x", "android.permission.CAMERA"]]
    );
    assert!(a.grant("s1", "com.x", &[]).is_empty());
    assert_eq!(a.enable_usb("s1"), vec![vec!["disconnect"], vec!["-s", "s1", "usb"]]);
    assert_eq!(
        a.screenshot("s1", "/tmp/shot.png"),
        vec![
            vec!["-s", "s1", "shell", "screencap", "-p", "/sdcard/screen.png"],
            vec!["-s", "s1", "pull", "/sdcard/screen.png", "/tmp/shot.png"],
            vec!["-s", "s1", "shell", "rm", "/sdcard/screen.png"],
        ]
    );
    assert_eq!(a.logcat("s1", None), vec!["-s", "s1", "logcat"]);
    assert_eq!(a.logcat("s1", Some("77")), vec!["-s", "s1", "logcat", "--pid=77"]);
    assert_eq!(
        a.device_args("s1", &["shell", "getprop"]),
        vec!["-s", "s1", "shell", "getprop"]
    );
}

#[test]
fn enable_wifi_reads_wlan_address() {
    let a = adb();
    assert_eq!(
        a.wifi_ip_args("s1"),
        vec!["-s", "s1", "shell", "ip", "-4", "addr", "show", "wlan0"]
    );
    let shown = "3: wlan0: <BROADCAST,UP>\n    inet 192.168.0.7/24 brd 192.168.0.255 scope global wlan0\n";
    let addr = a.enable_wifi(&out(shown, "")).unwrap();
    assert_eq!(addr, "192.168.0.7:5555");
    assert_eq!(
        a.wifi_commands("s1", &addr),
        vec![vec!["-s", "s1", "tcpip", "5555"], vec!["connect", "192.168.0.7:5555"]]
    );
    let e = a.enable_wifi(&out("3: wlan0: <DOWN>\n", "")).unwrap_err();
    assert_eq!(e.message(), "Could not determine device Wi-Fi IP. Is Wi-Fi enabled?");
}

#[test]
fn resolve_output_joins_directories() {
    assert_eq!(resolve_output(Some("/tmp/out".to_string()), true, "/cwd", "screen.png"), "/tmp/out/screen.png");
    assert_eq!(resolve_output(Some("/tmp/x.png".to_string()), false, "/cwd", "screen.png"), "/tmp/x.png");
    assert_eq!(resolve_output(None, false, "/cwd", "demo.mp4"), "/cwd/demo.mp4");
}

#[test]
fn recording_invocations() {
    let a = adb();
    assert_eq!(
        a.record_start_args("s1"),
        vec![
            "-s",
            "s1",
            "shell",
            "screenrecord /sdcard/demo.mp4 & echo $! > /sdcard/screenrecord.pid && wait $(cat /sdcard/screenrecord.pid)"
        ]
    );
    assert_eq!(a.record_pid_args("s1"), vec!["-s", "s1", "shell", "cat", "/sdcard/screenrecord.pid"]);
    assert_eq!(
        a.record_stop_args("s1", " 1234\n"),
        Some(vec!["-s".to_string(), "s1".into(), "shell".into(), "kill".into(), "-2".into(), "1234".into()])
    );
    assert_eq!(a.record_stop_args("s1", " \n"), None);
    assert_eq!(
        a.record_finish("s1", "/tmp/demo.mp4"),
        vec![
            vec!["-s", "s1", "pull", "/sdcard/demo.mp4", "/tmp/demo.mp4"],
            vec!["-s", "s1", "shell", "rm", "/sdcard/demo.mp4"],
            vec!["-s", "s1", "shell", "rm", "/sdcard/screenrecord.pid"],
        ]
    );
    assert!(a.record_outcome(true).is_ok());
    let e = a.record_outcome(false).unwrap_err();
    assert_eq!(e.message(), "Screen recording failed or was interrupted");
}

#[test]
fn health_readings_keep_what_each_command_gave() {
    let net = NetworkInfo {
        device: "s1".to_string(),
        ip_addresses: vec!["127.0.0.1".to_string(), "10.1.2.3".to_string()],
        ssid: Some("Lab".to_string()),
    };
    let battery = out("  level: 64\n  status: 5\n", "");
    let meminfo = out("MemTotal: 2048 kB\nMemAvailable: 1024 kB\n", "");
    let r = health_readings("s1", Some(&battery), None, Some(&meminfo), net);
    assert_eq!(r.device, "s1");
    assert_eq!(r.battery.level.as_deref(), Some("64"));
    assert_eq!(r.battery.status.as_deref(), Some("5"));
    assert_eq!(r.storage_kb, None);
    assert_eq!(r.memory_kb, (Some("2048".to_string()), Some("1024".to_string())));
    assert_eq!(r.network.ip.as_deref(), Some("10.1.2.3"));
    assert_eq!(r.network.ssid.as_deref(), Some("Lab"));
    let empty = NetworkInfo { device: "s1".to_string(), ip_addresses: vec![], ssid: None };
    let none = health_readings("s1", None, None, None, empty);
    assert_eq!(none.battery.level, None);
    assert_eq!(none.memory_kb, (None, None));
    assert_eq!(none.network.ip, None);
}
