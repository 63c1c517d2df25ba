//! Data types shared across the library. None of them carries presentation
//! concerns; callers decide how they are rendered.
use vstd::prelude::*;
use crate::text::{
    ascii_capitalized, capitalize as cap_spec, char_to_uppercase, chars_of, is_ascii_char, string_of,
};

verus! {

/// Properties of a connected device, read from `adb shell getprop`.
#[derive(Debug, Clone)]
pub struct DeviceInfo {
    pub serial: String,
    pub model: Option<String>,
    pub manufacturer: Option<String>,
    pub brand: Option<String>,
    pub device: Option<String>,
    pub name: Option<String>,
    pub android_version: Option<String>,
    pub sdk: Option<String>,
    pub codename: Option<String>,
    pub board: Option<String>,
    pub cpu_abi: Option<String>,
    pub locale: Option<String>,
    pub build_id: Option<String>,
    pub security_patch: Option<String>,
}

/// Battery state.
#[derive(Debug, Clone)]
pub struct Battery {
    pub level: Option<String>,
    pub status: Option<String>,
}

/// Network reachability for a device.
#[derive(Debug, Clone)]
pub struct Network {
    pub ip: Option<String>,
    pub ssid: Option<String>,
}

/// IP addresses and Wi-Fi SSID of a device.
#[derive(Debug, Clone)]
pub struct NetworkInfo {
    pub device: String,
    pub ip_addresses: Vec<String>,
    pub ssid: Option<String>,
}

/// Metadata extracted from an APK / XAPK / APKM file.
#[derive(Debug, Clone)]
pub struct ApkInfo {
    pub file: String,
    pub package_name: String,
    pub app_name: String,
    pub version_code: String,
    pub version_name: String,
    pub permissions: Vec<String>,
    /// Present only for XAPK/APKM bundles: the path of the bundle archive.
    pub source_file: Option<String>,
    /// Present only for XAPK/APKM bundles: number of APKs in the bundle.
    pub apk_count: Option<usize>,
}

/// A Gradle module within an Android project.
#[derive(Debug, Clone)]
pub struct Module {
    /// Gradle path, e.g. `:app` or `:feature:home`.
    pub path: String,
    /// Filesystem directory of the module, relative to the project root.
    pub dir: String,
    /// True when this module applies the Android application plugin.
    pub is_application: bool,
}

/// A build variant (build type optionally combined with product flavors).
#[derive(Debug, Clone)]
pub struct Variant {
    /// camelCase variant name as Gradle generates it, e.g. `devDebug`.
    pub name: String,
    pub build_type: String,
    pub flavors: Vec<String>,
}

/// Everything that can be discovered about an Android project without
/// running Gradle.
#[derive(Debug, Clone)]
pub struct AndroidProject {
    /// Project root (directory containing `settings.gradle[.kts]`).
    pub root: String,
    pub modules: Vec<Module>,
    /// Gradle path of the primary application module, e.g. `:app`.
    pub app_module: Option<String>,
    pub variants: Vec<Variant>,
    pub default_variant: Option<String>,
    pub application_id: Option<String>,
    /// Fully-qualified launcher activity component (`applicationId/Activity`),
    /// suitable for `adb shell am start -n`.
    pub launch_activity: Option<String>,
}

/// `prefix` followed by `s` with its first character upper-cased.
fn prefixed_capitalized(prefix: &str, s: &str, suffix: &str) -> (r: String)
    ensures
        r@ == prefix@ + cap_spec(s@) + suffix@,
        s@.len() == 0 || is_ascii_char(s@[0]) ==> r@ == prefix@ + ascii_capitalized(s@) + suffix@,
{
    let mut r = String::from_str(prefix);
    let c = capitalize(s);
    r.append(c.as_str());
    r.append(suffix);
    r
}

impl AndroidProject {
    /// The Gradle task that installs the given variant onto a device.
    pub fn install_task(&self, variant: &str) -> (r: String)
        ensures
            r@ == "install"@ + cap_spec(variant@),
            variant@.len() == 0 || is_ascii_char(variant@[0]) ==> r@ == "install"@
                + ascii_capitalized(variant@),
    {
        let r = prefixed_capitalized("install", variant, "");
        proof {
            reveal_strlit("");
        }
        assert(r@ =~= "install"@ + cap_spec(variant@));
        r
    }

    /// The Gradle task that runs unit tests for the given variant.
    pub fn unit_test_task(&self, variant: &str) -> (r: String)
        ensures
            r@ == "test"@ + cap_spec(variant@) + "UnitTest"@,
            variant@.len() == 0 || is_ascii_char(variant@[0]) ==> r@ == "test"@
                + ascii_capitalized(variant@) + "UnitTest"@,
    {
        prefixed_capitalized("test", variant, "UnitTest")
    }

    /// The Gradle task that assembles the APK for the given variant.
    pub fn assemble_task(&self, variant: &str) -> (r: String)
        ensures
            r@ == "assemble"@ + cap_spec(variant@),
            variant@.len() == 0 || is_ascii_char(variant@[0]) ==> r@ == "assemble"@
                + ascii_capitalized(variant@),
    {
        let r = prefixed_capitalized("assemble", variant, "");
        proof {
            reveal_strlit("");
        }
        assert(r@ =~= "assemble"@ + cap_spec(variant@));
        r
    }
}

/// Upper-case the first character of `s`, leaving the rest untouched.
/// `"devDebug"` gives `"DevDebug"`, `"debug"` gives `"Debug"`.
pub fn capitalize(s: &str) -> (r: String)
    ensures
        r@ == cap_spec(s@),
        s@.len() == 0 || is_ascii_char(s@[0]) ==> r@ == ascii_capitalized(s@),
{
    let v = chars_of(s);
    if v.len() == 0 {
        return String::new();
    }
    let mut out = char_to_uppercase(v[0]);
    let ghost head = out@;
    let mut i: usize = 1;
    while i < v.len()
        invariant
            1 <= i <= v@.len(),
            out@ == head + v@.subrange(1, i as int),
        decreases v@.len() - i,
    {
        out.push(v[i]);
        i += 1;
        assert(out@ =~= head + v@.subrange(1, i as int));
    }
    assert(v@.subrange(1, v@.len() as int) =~= v@.drop_first());
    string_of(&out)
}

} // verus!
