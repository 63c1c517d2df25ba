//! The library's errors. Each variant carries the values its message needs;
//! `message` renders the text a user sees.
use vstd::prelude::*;

verus! {

/// Why an operation failed.
#[derive(Debug)]
pub enum Error {
    /// A program was not found on `PATH`.
    ProgramNotFound { name: String },
    /// `adb devices` listed no device.
    NoDevices,
    /// No installed package path ends with the package name.
    ApkPathNotFound { package: String },
    /// `am start -n` reported an error (its trimmed stderr).
    StartFailed { component: String, detail: String },
    /// `am start -a VIEW` reported an error (its trimmed stderr).
    LaunchUrlFailed { url: String, detail: String },
    /// `pm clear` did not report success.
    ClearDataFailed { package: String },
    /// `adb uninstall` did not report success (its trimmed stdout).
    UninstallFailed { package: String, detail: String },
    /// The file to install does not exist.
    FileMissing { path: String },
    /// `adb install` did not report success (its trimmed stderr).
    InstallFailed { detail: String },
    /// `install-multiple` was given no APK.
    NoApks,
    /// `adb install-multiple` did not report success (its trimmed stderr).
    InstallMultipleFailed { detail: String },
    /// No `inet` address was found for `wlan0`.
    NoWifiIp,
    /// Screen recording ended with a failure status.
    RecordingFailed,
    /// The file is not an `.apk`, `.xapk` or `.apkm`.
    UnsupportedFileType,
    /// The archive has no `AndroidManifest.xml` entry.
    NotAnApk { path: String },
    /// The bundle holds no `.apk` file.
    NoApkInBundle,
    /// There is no Gradle wrapper at the root.
    NoGradleWrapper { root: String },
    /// No directory at or above the start holds a Gradle project.
    NoProjectRoot { start: String },
}

/// The text of an error.
pub open spec fn message_of(e: Error) -> Seq<char> {
    match e {
        Error::ProgramNotFound { name } => "`"@ + name@
            + "` not found in PATH. Please install the Android SDK and ensure `"@ + name@
            + "` is available."@,
        Error::NoDevices =>
            "No connected devices found. Connect an Android device via USB (with USB debugging) or start an emulator."@,
        Error::ApkPathNotFound { package } => "Could not find APK path for "@ + package@,
        Error::StartFailed { component, detail } => "Failed to start "@ + component@ + ": "@
            + detail@,
        Error::LaunchUrlFailed { url, detail } => "Failed to launch "@ + url@ + ": "@ + detail@,
        Error::ClearDataFailed { package } => "Failed to clear data for "@ + package@,
        Error::UninstallFailed { package, detail } => "Failed to uninstall "@ + package@ + ": "@
            + detail@,
        Error::FileMissing { path } => "File does not exist: "@ + path@,
        Error::InstallFailed { detail } => "Failed to install APK: "@ + detail@,
        Error::NoApks => "No APKs to install"@,
        Error::InstallMultipleFailed { detail } => "Failed to install APKs: "@ + detail@,
        Error::NoWifiIp => "Could not determine device Wi-Fi IP. Is Wi-Fi enabled?"@,
        Error::RecordingFailed => "Screen recording failed or was interrupted"@,
        Error::UnsupportedFileType =>
            "Unsupported file type. Only APK, XAPK, and APKM files are supported."@,
        Error::NotAnApk { path } => path@ + " does not look like an APK (no AndroidManifest.xml)"@,
        Error::NoApkInBundle => "No APK files found in bundle"@,
        Error::NoGradleWrapper { root } => "No Gradle wrapper (gradlew) found at "@ + root@
            + ". Is this an Android/Gradle project?"@,
        Error::NoProjectRoot { start } => "No Android/Gradle project found at or above "@
            + start@ + " (no settings.gradle)."@,
    }
}

fn cat2(a: &str, b: &str) -> (r: String)
    ensures
        r@ == a@ + b@,
{
    let mut r = String::from_str(a);
    r.append(b);
    r
}

fn cat3(a: &str, b: &str, c: &str) -> (r: String)
    ensures
        r@ == a@ + b@ + c@,
{
    let mut r = cat2(a, b);
    r.append(c);
    r
}

fn cat4(a: &str, b: &str, c: &str, d: &str) -> (r: String)
    ensures
        r@ == a@ + b@ + c@ + d@,
{
    let mut r = cat3(a, b, c);
    r.append(d);
    r
}

impl Error {
    /// The message shown for this error.
    pub fn message(&self) -> (r: String)
        ensures
            r@ == message_of(*self),
    {
        match self {
            Error::ProgramNotFound { name } => {
                let mut r = cat4(
                    "`",
                    name.as_str(),
                    "` not found in PATH. Please install the Android SDK and ensure `",
                    name.as_str(),
                );
                r.append("` is available.");
                r
            },
            Error::NoDevices => String::from_str(
                "No connected devices found. Connect an Android device via USB (with USB debugging) or start an emulator.",
            ),
            Error::ApkPathNotFound { package } => cat2(
                "Could not find APK path for ",
                package.as_str(),
            ),
            Error::StartFailed { component, detail } => cat4(
                "Failed to start ",
                component.as_str(),
                ": ",
                detail.as_str(),
            ),
            Error::LaunchUrlFailed { url, detail } => cat4(
                "Failed to launch ",
                url.as_str(),
                ": ",
                detail.as_str(),
            ),
            Error::ClearDataFailed { package } => cat2(
                "Failed to clear data for ",
                package.as_str(),
            ),
            Error::UninstallFailed { package, detail } => cat4(
                "Failed to uninstall ",
                package.as_str(),
                ": ",
                detail.as_str(),
            ),
            Error::FileMissing { path } => cat2("File does not exist: ", path.as_str()),
            Error::InstallFailed { detail } => cat2("Failed to install APK: ", detail.as_str()),
            Error::NoApks => String::from_str("No APKs to install"),
            Error::InstallMultipleFailed { detail } => cat2(
                "Failed to install APKs: ",
                detail.as_str(),
            ),
            Error::NoWifiIp => String::from_str(
                "Could not determine device Wi-Fi IP. Is Wi-Fi enabled?",
            ),
            Error::RecordingFailed => String::from_str(
                "Screen recording failed or was interrupted",
            ),
            Error::UnsupportedFileType => String::from_str(
                "Unsupported file type. Only APK, XAPK, and APKM files are supported.",
            ),
            Error::NotAnApk { path } => cat2(
                path.as_str(),
                " does not look like an APK (no AndroidManifest.xml)",
            ),
            Error::NoApkInBundle => String::from_str("No APK files found in bundle"),
            Error::NoGradleWrapper { root } => cat3(
                "No Gradle wrapper (gradlew) found at ",
                root.as_str(),
                ". Is this an Android/Gradle project?",
            ),
            Error::NoProjectRoot { start } => cat3(
                "No Android/Gradle project found at or above ",
                start.as_str(),
                " (no settings.gradle).",
            ),
        }
    }
}

} // verus!
