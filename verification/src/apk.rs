//! APK / XAPK / APKM metadata: reading `aapt dump badging` output, telling
//! package kinds apart by extension, and picking the base APK of a split set.
use vstd::prelude::*;
use crate::error::Error;
use crate::manifest::{attr_with, attr_with_exec, opt_view};
use crate::model::ApkInfo;
use crate::project::dsl::string_views;
use crate::text::{
    chars_of, contains, contains_exec, eq, lines, lines_of, slice_copy,
    split_once, split_once_exec, starts_with, starts_with_exec, str_to_lowercase,
    string_of, trim, trim_char, trim_char_exec, trim_chars, trim_start_matches,
    trim_start_matches_exec, unicode_lowercase, is_ascii_text, ascii_lowercase,
};

verus! {

// ---------------------------------------------------------------------------
// Paths
// ---------------------------------------------------------------------------

/// What `Path::file_name` gives for a path (its final component, if any).
pub uninterp spec fn path_file_name_of(p: Seq<char>) -> Option<Seq<char>>;

/// The extension of a file name: the part after its last `.`, none when it
/// has no `.` or its only `.` is the first character.
pub open spec fn extension_in(file_name: Option<Seq<char>>) -> Option<Seq<char>> {
    match file_name {
        None => None,
        Some(f) => match last_dot(f, f.len() as int) {
            None => None,
            Some(k) => if k == 0 {
                None
            } else {
                Some(f.subrange(k + 1, f.len() as int))
            },
        },
    }
}

/// The last `.` before position `end`.
pub open spec fn last_dot(f: Seq<char>, end: int) -> Option<int>
    decreases end,
{
    if end <= 0 || end > f.len() {
        None
    } else if f[end - 1] == '.' {
        Some(end - 1)
    } else {
        last_dot(f, end - 1)
    }
}

/// A plain file name: non-empty, without a separator (`/` or a backslash) or drive
/// colon, and neither `.` nor `..`. Such a path is one normal component.
pub open spec fn plain_name(p: Seq<char>) -> bool {
    &&& p.len() > 0
    &&& !p.contains('/')
    &&& !p.contains('\\')
    &&& !p.contains(':')
    &&& p != "."@
    &&& p != ".."@
}

/// `std::path::Path::file_name`, as a string. Claimed: its result is the
/// final component `path_file_name_of` names for the path, and a plain file
/// name is its own final component (the documentation: "If the path is a
/// normal file, this is the file name").
#[verifier::external_body]
pub(crate) fn path_file_name(p: &str) -> (r: Option<String>)
    ensures
        opt_view(r) == path_file_name_of(p@),
        plain_name(p@) ==> opt_view(r) == Some(p@),
{
    std::path::Path::new(p).file_name().map(|n| n.to_string_lossy().to_string())
}

/// The extension of a file name, as `extension_in` gives it.
fn extension_of_name(name: Option<String>) -> (r: Option<String>)
    ensures
        opt_view(r) == extension_in(opt_view(name)),
{
    match name {
        None => None,
        Some(f) => {
            let c = chars_of(f.as_str());
            let mut end = c.len();
            while end > 0 && c[end - 1] != '.'
                invariant
                    end <= c@.len(),
                    c@ == f@,
                    last_dot(c@, c@.len() as int) == last_dot(c@, end as int),
                decreases end,
            {
                end -= 1;
            }
            if end == 0 {
                None
            } else if end - 1 == 0 {
                None
            } else {
                Some(string_of(&slice_copy(&c, end, c.len())))
            }
        },
    }
}

/// What `Path::join` gives for `base` and `name`, as a string.
pub uninterp spec fn path_joined(base: Seq<char>, name: Seq<char>) -> Seq<char>;

/// `std::path::Path::join`, as a string. Claimed: its result is the joined
/// path `path_joined` names for the two arguments; nothing more is assumed.
#[verifier::external_body]
pub(crate) fn path_join(base: &str, name: &str) -> (r: String)
    ensures
        r@ == path_joined(base@, name@),
{
    std::path::Path::new(base).join(name).to_string_lossy().to_string()
}

/// The lower-cased extension of a path.
pub open spec fn extension_of(p: Seq<char>) -> Option<Seq<char>> {
    match extension_in(path_file_name_of(p)) {
        Some(e) => Some(unicode_lowercase(e)),
        None => None,
    }
}

/// The lower-cased extension of a path, if it has one.
pub fn extension(path: &str) -> (r: Option<String>)
    ensures
        opt_view(r) == extension_of(path@),
        plain_name(path@) ==> path_file_name_of(path@) == Some(path@),
        match extension_in(path_file_name_of(path@)) {
            Some(e) => is_ascii_text(e) ==> opt_view(r) == Some(ascii_lowercase(e)),
            None => true,
        },
{
    match extension_of_name(path_file_name(path)) {
        Some(e) => Some(str_to_lowercase(e.as_str())),
        None => None,
    }
}

/// The kinds of package file that can be analyzed.
#[derive(Debug, PartialEq, Eq, Structural)]
pub enum PackageKind {
    /// A single `.apk`.
    Apk,
    /// An `.xapk` or `.apkm` bundle of APKs.
    Bundle,
}

/// The kind of a package file, by its (case-insensitive) extension.
pub open spec fn package_kind_of(p: Seq<char>) -> Result<PackageKind, ()> {
    match extension_of(p) {
        Some(e) => kind_of_extension(e),
        None => Err(()),
    }
}

/// The package kind a lower-cased extension names.
pub open spec fn kind_of_extension(e: Seq<char>) -> Result<PackageKind, ()> {
    if e == "apk"@ {
        Ok(PackageKind::Apk)
    } else if e == "xapk"@ || e == "apkm"@ {
        Ok(PackageKind::Bundle)
    } else {
        Err(())
    }
}

/// Decide how to analyze a package file: `.apk` files directly, `.xapk` and
/// `.apkm` bundles by their base APK; anything else is unsupported.
pub fn package_kind(path: &str) -> (r: Result<PackageKind, Error>)
    ensures
        match r {
            Ok(k) => package_kind_of(path@) == Ok::<PackageKind, ()>(k),
            Err(e) => package_kind_of(path@) is Err && e is UnsupportedFileType,
        },
        plain_name(path@) ==> path_file_name_of(path@) == Some(path@),
        match extension_in(path_file_name_of(path@)) {
            Some(e) => is_ascii_text(e) ==> match kind_of_extension(ascii_lowercase(e)) {
                Ok(k) => r matches Ok(j) && j == k,
                Err(_) => r is Err,
            },
            None => true,
        },
{
    match extension(path) {
        Some(e) => {
            let ec = chars_of(e.as_str());
            let apk = chars_of("apk");
            let xapk = chars_of("xapk");
            let apkm = chars_of("apkm");
            if eq(&ec, &apk) {
                Ok(PackageKind::Apk)
            } else if eq(&ec, &xapk) || eq(&ec, &apkm) {
                Ok(PackageKind::Bundle)
            } else {
                Err(Error::UnsupportedFileType)
            }
        },
        None => Err(Error::UnsupportedFileType),
    }
}

// ---------------------------------------------------------------------------
// Base APK of a split set
// ---------------------------------------------------------------------------

/// The lower-cased file name of a path.
pub open spec fn lower_file_name(p: Seq<char>) -> Option<Seq<char>> {
    match path_file_name_of(p) {
        Some(n) => Some(unicode_lowercase(n)),
        None => None,
    }
}

/// The first path whose file name satisfies `pred` (lower-cased).
pub open spec fn first_named_where(ps: Seq<Seq<char>>, want_exact: bool) -> Option<int>
    decreases ps.len(),
{
    if ps.len() == 0 {
        None
    } else {
        match first_named_where(ps.drop_last(), want_exact) {
            Some(i) => Some(i),
            None => match lower_file_name(ps.last()) {
                Some(n) => if (want_exact && n == "base.apk"@) || (!want_exact && contains(
                    n,
                    "base"@,
                )) {
                    Some(ps.len() - 1)
                } else {
                    None
                },
                None => None,
            },
        }
    }
}

/// The position of the last largest size.
pub open spec fn last_max(sizes: Seq<u64>) -> int
    decreases sizes.len(),
{
    if sizes.len() <= 1 {
        0
    } else {
        let m = last_max(sizes.drop_last());
        if sizes.last() >= sizes[m] {
            sizes.len() - 1
        } else {
            m
        }
    }
}

/// The base APK of a split set: the one named `base.apk`, else the first
/// whose name contains `base` (case-insensitively), else the last of the
/// largest ones.
pub open spec fn base_apk_index(ps: Seq<Seq<char>>, sizes: Seq<u64>) -> int {
    match first_named_where(ps, true) {
        Some(i) => i,
        None => match first_named_where(ps, false) {
            Some(i) => i,
            None => last_max(sizes),
        },
    }
}

proof fn lemma_last_max_bounds(sizes: Seq<u64>)
    requires
        sizes.len() > 0,
    ensures
        0 <= last_max(sizes) < sizes.len(),
    decreases sizes.len(),
{
    if sizes.len() > 1 {
        lemma_last_max_bounds(sizes.drop_last());
    }
}

proof fn lemma_first_named_bounds(ps: Seq<Seq<char>>, want_exact: bool)
    ensures
        first_named_where(ps, want_exact) matches Some(i) ==> 0 <= i < ps.len(),
    decreases ps.len(),
{
    if ps.len() > 0 {
        lemma_first_named_bounds(ps.drop_last(), want_exact);
    }
}

fn first_named_exec(apks: &[String], want_exact: bool) -> (r: Option<usize>)
    ensures
        match r {
            Some(i) => first_named_where(string_views(apks@), want_exact) == Some(i as int),
            None => first_named_where(string_views(apks@), want_exact) is None,
        },
{
    let ghost ps = string_views(apks@);
    let want = chars_of("base.apk");
    let part = chars_of("base");
    let mut i: usize = 0;
    while i < apks.len()
        invariant
            i <= apks@.len(),
            ps == string_views(apks@),
            want@ == "base.apk"@,
            part@ == "base"@,
            first_named_where(ps.subrange(0, i as int), want_exact) is None,
        decreases apks@.len() - i,
    {
        proof {
            assert(ps.subrange(0, i + 1).drop_last() =~= ps.subrange(0, i as int));
            assert(ps.subrange(0, i + 1).last() == apks@[i as int]@);
        }
        let hit = match path_file_name(apks[i].as_str()) {
            Some(n) => {
                let low = str_to_lowercase(n.as_str());
                let lc = chars_of(low.as_str());
                if want_exact {
                    eq(&lc, &want)
                } else {
                    contains_exec(&lc, &part)
                }
            },
            None => false,
        };
        if hit {
            proof {
                lemma_first_named_prefix(ps, i as int + 1, want_exact);
            }
            return Some(i);
        }
        i += 1;
    }
    assert(ps.subrange(0, ps.len() as int) =~= ps);
    None
}

/// The first matching name in a prefix is the first in the whole.
proof fn lemma_first_named_prefix(ps: Seq<Seq<char>>, k: int, want_exact: bool)
    requires
        0 <= k <= ps.len(),
        first_named_where(ps.subrange(0, k), want_exact) is Some,
    ensures
        first_named_where(ps, want_exact) == first_named_where(ps.subrange(0, k), want_exact),
    decreases ps.len() - k,
{
    if k < ps.len() {
        assert(ps.subrange(0, k + 1).drop_last() =~= ps.subrange(0, k));
        lemma_first_named_prefix(ps, k + 1, want_exact);
    } else {
        assert(ps.subrange(0, k) =~= ps);
    }
}

/// Pick the base APK from a split set (`sizes[i]` is the size of `apks[i]`):
/// `base.apk`, then any name containing "base", then the largest file.
pub fn find_base_apk(apks: &[String], sizes: &[u64]) -> (r: String)
    requires
        apks@.len() > 0,
        sizes@.len() == apks@.len(),
    ensures
        r@ == apks@[base_apk_index(string_views(apks@), sizes@)]@,
{
    proof {
        lemma_last_max_bounds(sizes@);
        lemma_first_named_bounds(string_views(apks@), true);
        lemma_first_named_bounds(string_views(apks@), false);
    }
    match first_named_exec(apks, true) {
        Some(i) => {
            return apks[i].clone();
        },
        None => {},
    }
    match first_named_exec(apks, false) {
        Some(i) => {
            return apks[i].clone();
        },
        None => {},
    }
    let mut best: usize = 0;
    let mut i: usize = 1;
    while i < sizes.len()
        invariant
            1 <= i <= sizes@.len(),
            best < i,
            best as int == last_max(sizes@.subrange(0, i as int)),
        decreases sizes@.len() - i,
    {
        proof {
            assert(sizes@.subrange(0, i + 1).drop_last() =~= sizes@.subrange(0, i as int));
            assert(sizes@.subrange(0, i as int)[best as int] == sizes@[best as int]);
        }
        if sizes[i] >= sizes[best] {
            best = i;
        }
        i += 1;
    }
    assert(sizes@.subrange(0, sizes@.len() as int) =~= sizes@);
    apks[best].clone()
}

// ---------------------------------------------------------------------------
// aapt badging
// ---------------------------------------------------------------------------

/// `key='value'` or `key="value"` in a badging line, single quotes first.
pub open spec fn badging_attr(line: Seq<char>, key: Seq<char>) -> Option<Seq<char>> {
    if attr_with(line, key, '\'') is Some {
        attr_with(line, key, '\'')
    } else {
        attr_with(line, key, '"')
    }
}

/// Surrounding quotes removed: single quotes, then double quotes.
pub open spec fn unquote_of(s: Seq<char>) -> Seq<char> {
    trim_char(trim_char(s, '\''), '"')
}

/// What badging has read so far: package name, app name, version code,
/// version name, permissions.
pub type BadgingState = (Seq<char>, Seq<char>, Seq<char>, Seq<char>, Seq<Seq<char>>);

/// The state before any line: every field `N/A`, no permissions.
pub open spec fn badging_start() -> BadgingState {
    ("N/A"@, "N/A"@, "N/A"@, "N/A"@, seq![])
}

/// One line of `aapt dump badging`, read after trimming.
pub open spec fn badging_step(st: BadgingState, raw: Seq<char>) -> BadgingState {
    let line = trim(raw);
    if starts_with(line, "package:"@) {
        let p = match badging_attr(line, "name"@) {
            Some(v) => v,
            None => st.0,
        };
        let vc = match badging_attr(line, "versionCode"@) {
            Some(v) => v,
            None => st.2,
        };
        let vn = match badging_attr(line, "versionName"@) {
            Some(v) => if v.len() == 0 {
                "Not set"@
            } else {
                v
            },
            None => st.3,
        };
        (p, st.1, vc, vn, st.4)
    } else if starts_with(line, "application-label:"@) {
        let label = unquote_of(trim(trim_start_matches(line, "application-label:"@)));
        (st.0, if label.len() > 0 { label } else { st.1 }, st.2, st.3, st.4)
    } else if starts_with(line, "application-label-"@) && st.1 == "N/A"@ {
        match split_once(line, seq![':']) {
            Some((_, rest)) => {
                let label = unquote_of(trim(rest));
                (st.0, if label.len() > 0 { label } else { st.1 }, st.2, st.3, st.4)
            },
            None => st,
        }
    } else if starts_with(line, "uses-permission:"@) {
        match badging_attr(line, "name"@) {
            Some(p) => if st.4.contains(p) {
                st
            } else {
                (st.0, st.1, st.2, st.3, st.4.push(p))
            },
            None => st,
        }
    } else {
        st
    }
}

/// The state after the lines `ls`.
pub open spec fn badging_of(ls: Seq<Seq<char>>) -> BadgingState
    decreases ls.len(),
{
    if ls.len() == 0 {
        badging_start()
    } else {
        badging_step(badging_of(ls.drop_last()), ls.last())
    }
}

fn badging_attr_exec(line: &[char], key: &str) -> (r: Option<Vec<char>>)
    ensures
        match r {
            Some(v) => badging_attr(line@, key@) == Some(v@),
            None => badging_attr(line@, key@) is None,
        },
{
    let k = chars_of(key);
    match attr_with_exec(line, &k, '\'') {
        Some(v) => Some(v),
        None => attr_with_exec(line, &k, '"'),
    }
}

fn unquote(s: &[char]) -> (r: Vec<char>)
    ensures
        r@ == unquote_of(s@),
{
    let a = trim_char_exec(s, '\'');
    trim_char_exec(&a, '"')
}

fn contains_chars_vec(v: &Vec<Vec<char>>, x: &[char]) -> (r: bool)
    ensures
        r == v@.map_values(|e: Vec<char>| e@).contains(x@),
{
    let ghost vv = v@.map_values(|e: Vec<char>| e@);
    let mut i: usize = 0;
    while i < v.len()
        invariant
            i <= v@.len(),
            vv == v@.map_values(|e: Vec<char>| e@),
            forall|k: int| 0 <= k < i ==> v@[k]@ != x@,
        decreases v@.len() - i,
    {
        if eq(&v[i], x) {
            assert(vv[i as int] == x@);
            return true;
        }
        i += 1;
    }
    assert forall|k: int| 0 <= k < vv.len() implies vv[k] != x@ by {
        assert(vv[k] == v@[k]@);
    }
    false
}

/// Read `aapt dump badging` output into [`ApkInfo`] for the file `apk`.
pub fn parse_aapt_badging(aapt_output: &str, apk: &str) -> (r: ApkInfo)
    ensures
        r.file@ == apk@,
        (r.package_name@, r.app_name@, r.version_code@, r.version_name@, string_views(
            r.permissions@,
        )) == badging_of(lines(aapt_output@)),
        r.source_file is None,
        r.apk_count is None,
{
    let text = chars_of(aapt_output);
    let ls = lines_of(&text);
    let ghost all = ls@.map_values(|l: Vec<char>| l@);
    let mut package = chars_of("N/A");
    let mut app = chars_of("N/A");
    let mut vcode = chars_of("N/A");
    let mut vname = chars_of("N/A");
    let mut perms: Vec<Vec<char>> = Vec::new();
    let na = chars_of("N/A");
    let p_pkg = chars_of("package:");
    let p_label = chars_of("application-label:");
    let p_label_x = chars_of("application-label-");
    let p_perm = chars_of("uses-permission:");
    let colon = [':'];
    assert(colon@ == seq![':']);
    let mut i: usize = 0;
    assert(perms@.map_values(|e: Vec<char>| e@) =~= Seq::<Seq<char>>::empty());
    while i < ls.len()
        invariant
            i <= ls@.len(),
            all == ls@.map_values(|l: Vec<char>| l@),
            na@ == "N/A"@,
            p_pkg@ == "package:"@,
            p_label@ == "application-label:"@,
            p_label_x@ == "application-label-"@,
            p_perm@ == "uses-permission:"@,
            colon@ == seq![':'],
            (package@, app@, vcode@, vname@, perms@.map_values(|e: Vec<char>| e@)) == badging_of(
                all.subrange(0, i as int),
            ),
        decreases ls@.len() - i,
    {
        proof {
            assert(all.subrange(0, i + 1).drop_last() =~= all.subrange(0, i as int));
            assert(all.subrange(0, i + 1).last() == ls@[i as int]@);
        }
        let line = trim_chars(&ls[i]);
        let ghost pv = perms@.map_values(|e: Vec<char>| e@);
        if starts_with_exec(&line, &p_pkg) {
            match badging_attr_exec(&line, "name") {
                Some(v) => {
                    package = v;
                },
                None => {},
            }
            match badging_attr_exec(&line, "versionCode") {
                Some(v) => {
                    vcode = v;
                },
                None => {},
            }
            match badging_attr_exec(&line, "versionName") {
                Some(v) => {
                    if v.len() == 0 {
                        vname = chars_of("Not set");
                    } else {
                        vname = v;
                    }
                },
                None => {},
            }
        } else if starts_with_exec(&line, &p_label) {
            let rest = trim_start_matches_exec(&line, &p_label);
            let tr = trim_chars(&rest);
            let label = unquote(&tr);
            if label.len() > 0 {
                app = label;
            }
        } else if starts_with_exec(&line, &p_label_x) && eq(&app, &na) {
            match split_once_exec(&line, &colon) {
                Some((_, rest)) => {
                    let tr = trim_chars(&rest);
                    let label = unquote(&tr);
                    if label.len() > 0 {
                        app = label;
                    }
                },
                None => {},
            }
        } else if starts_with_exec(&line, &p_perm) {
            match badging_attr_exec(&line, "name") {
                Some(p) => {
                    if !contains_chars_vec(&perms, &p) {
                        perms.push(p);
                        assert(perms@.map_values(|e: Vec<char>| e@) =~= pv.push(p@));
                    }
                },
                None => {},
            }
        }
        i += 1;
    }
    assert(all.subrange(0, all.len() as int) =~= all);
    let mut permissions: Vec<String> = Vec::new();
    let mut k: usize = 0;
    while k < perms.len()
        invariant
            k <= perms@.len(),
            permissions@.len() == k,
            forall|m: int| 0 <= m < k ==> (#[trigger] permissions@[m])@ == perms@[m]@,
        decreases perms@.len() - k,
    {
        permissions.push(string_of(&perms[k]));
        k += 1;
    }
    assert(string_views(permissions@) =~= perms@.map_values(|e: Vec<char>| e@));
    ApkInfo {
        file: String::from_str(apk),
        package_name: string_of(&package),
        app_name: string_of(&app),
        version_code: string_of(&vcode),
        version_name: string_of(&vname),
        permissions,
        source_file: None,
        apk_count: None,
    }
}

/// Whether an archive with the entries `names` holds an
/// `AndroidManifest.xml` entry.
pub fn has_manifest_entry(names: &[String]) -> (r: bool)
    ensures
        r == exists|i: int| 0 <= i < names@.len() && (#[trigger] names@[i])@ == "AndroidManifest.xml"@,
{
    let m = chars_of("AndroidManifest.xml");
    let mut i: usize = 0;
    while i < names.len()
        invariant
            i <= names@.len(),
            m@ == "AndroidManifest.xml"@,
            forall|j: int| 0 <= j < i ==> (#[trigger] names@[j])@ != "AndroidManifest.xml"@,
        decreases names@.len() - i,
    {
        if eq(&chars_of(names[i].as_str()), &m) {
            return true;
        }
        i += 1;
    }
    false
}

/// The summary of an APK when `aapt` is unavailable: only whether the archive
/// holds an `AndroidManifest.xml` entry is known.
pub fn basic_apk_info(apk: &str, has_manifest: bool) -> (r: Result<ApkInfo, Error>)
    ensures
        match r {
            Ok(info) => {
                &&& has_manifest
                &&& info.file@ == apk@
                &&& info.package_name@ == "N/A (install aapt/aapt2 for full info)"@
                &&& info.app_name@ == "N/A"@
                &&& info.version_code@ == "N/A"@
                &&& info.version_name@ == "N/A"@
                &&& info.permissions@.len() == 0
                &&& info.source_file is None
                &&& info.apk_count is None
            },
            Err(e) => !has_manifest && (e matches Error::NotAnApk { path } && path@ == apk@),
        },
{
    if !has_manifest {
        return Err(Error::NotAnApk { path: String::from_str(apk) });
    }
    Ok(
        ApkInfo {
            file: String::from_str(apk),
            package_name: String::from_str("N/A (install aapt/aapt2 for full info)"),
            app_name: String::from_str("N/A"),
            version_code: String::from_str("N/A"),
            version_name: String::from_str("N/A"),
            permissions: Vec::new(),
            source_file: None,
            apk_count: None,
        },
    )
}

/// Analyze one APK: the `aapt dump badging` output when `aapt` ran
/// (`aapt_output`), the archive summary otherwise (`has_manifest` says
/// whether the archive holds an `AndroidManifest.xml`; it is not consulted
/// when `aapt` ran).
pub fn analyze_apk(apk: &str, aapt_output: Option<&str>, has_manifest: bool) -> (r: Result<
    ApkInfo,
    Error,
>)
    ensures
        match aapt_output {
            Some(out) => r matches Ok(info) && info.file@ == apk@ && (
            info.package_name@,
            info.app_name@,
            info.version_code@,
            info.version_name@,
            string_views(info.permissions@),
            ) == badging_of(lines(out@)) && info.source_file is None && info.apk_count is None,
            None => match r {
                Ok(info) => has_manifest && info.file@ == apk@ && info.package_name@
                    == "N/A (install aapt/aapt2 for full info)"@ && info.app_name@ == "N/A"@
                    && info.version_code@ == "N/A"@ && info.version_name@ == "N/A"@
                    && info.permissions@.len() == 0 && info.source_file is None
                    && info.apk_count is None,
                Err(e) => !has_manifest && (e matches Error::NotAnApk { path } && path@ == apk@),
            },
        },
{
    match aapt_output {
        Some(out) => Ok(parse_aapt_badging(out, apk)),
        None => basic_apk_info(apk, has_manifest),
    }
}

/// The paths among `paths` whose (case-insensitive) extension is `apk`, in
/// order.
pub open spec fn apk_paths_of(paths: Seq<Seq<char>>) -> Seq<Seq<char>>
    decreases paths.len(),
{
    if paths.len() == 0 {
        seq![]
    } else {
        apk_paths_of(paths.drop_last()) + if extension_of(paths.last()) == Some("apk"@) {
            seq![paths.last()]
        } else {
            seq![]
        }
    }
}

/// The APK files among the extracted files of a bundle, in order.
pub fn apk_paths(paths: &[String]) -> (r: Vec<String>)
    ensures
        string_views(r@) == apk_paths_of(string_views(paths@)),
{
    let ghost all = string_views(paths@);
    let apk = chars_of("apk");
    let mut r: Vec<String> = Vec::new();
    let mut i: usize = 0;
    while i < paths.len()
        invariant
            i <= paths@.len(),
            all == string_views(paths@),
            apk@ == "apk"@,
            string_views(r@) == apk_paths_of(all.subrange(0, i as int)),
        decreases paths@.len() - i,
    {
        proof {
            assert(all.subrange(0, i + 1).drop_last() =~= all.subrange(0, i as int));
            assert(all.subrange(0, i + 1).last() == paths@[i as int]@);
        }
        let ghost before = string_views(r@);
        let is_apk = match extension(paths[i].as_str()) {
            Some(e) => eq(&chars_of(e.as_str()), &apk),
            None => false,
        };
        if is_apk {
            r.push(paths[i].clone());
            assert(string_views(r@) =~= before + seq![paths@[i as int]@]);
        } else {
            assert(string_views(r@) =~= before + seq![]);
        }
        i += 1;
    }
    assert(all.subrange(0, all.len() as int) =~= all);
    r
}

/// The base APK of an extracted bundle (see [`find_base_apk`]); an error when
/// the bundle holds no APK. `sizes[i]` is the size of `apks[i]`.
pub fn bundle_base(apks: &[String], sizes: &[u64]) -> (r: Result<String, Error>)
    requires
        sizes@.len() == apks@.len(),
    ensures
        match r {
            Ok(b) => apks@.len() > 0 && b@ == apks@[base_apk_index(string_views(apks@), sizes@)]@,
            Err(e) => apks@.len() == 0 && e is NoApkInBundle,
        },
{
    if apks.len() == 0 {
        return Err(Error::NoApkInBundle);
    }
    Ok(find_base_apk(apks, sizes))
}

/// The analysis of a bundle's base APK, tagged with the bundle it came from
/// and the number of APKs the bundle holds.
pub fn tag_bundle(info: ApkInfo, bundle: &str, apk_count: usize) -> (r: ApkInfo)
    ensures
        r.file == info.file,
        r.package_name == info.package_name,
        r.app_name == info.app_name,
        r.version_code == info.version_code,
        r.version_name == info.version_name,
        r.permissions == info.permissions,
        r.source_file matches Some(s) && s@ == bundle@,
        r.apk_count == Some(apk_count),
{
    ApkInfo { source_file: Some(String::from_str(bundle)), apk_count: Some(apk_count), ..info }
}

/// The permissions read from badging output are listed once each, in the
/// order they first appear.
pub proof fn badging_permissions_are_distinct(ls: Seq<Seq<char>>)
    ensures
        badging_of(ls).4.no_duplicates(),
    decreases ls.len(),
{
    if ls.len() > 0 {
        badging_permissions_are_distinct(ls.drop_last());
    }
}

} // verus!
