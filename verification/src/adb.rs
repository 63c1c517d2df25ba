//! ADB client logic: the arguments of `adb` invocations and the reading of
//! what `adb` prints. Running the commands is left to the caller, which hands
//! the captured output to these functions.
use vstd::prelude::*;
use crate::error::Error;
use crate::exec::find_program;
use crate::manifest::opt_view;
use crate::model::{Battery, DeviceInfo, Network, NetworkInfo};
use crate::apk::{path_join, path_joined};
use crate::project::dsl::{group_views, string_views};
use crate::text::{
    before_char, before_char_exec, chars_of, contains, contains_exec, ends_with, ends_with_exec,
    eq, find, find_from_exec, first_word, first_word_exec, lemma_find_from, lines, lines_of,
    replace_all, replace_all_exec, slice_copy, split_once, split_once_exec, starts_with,
    starts_with_exec, str_to_lowercase, string_of, trim, trim_char, trim_char_exec, trim_chars,
    trim_end_char, trim_end_char_exec, trim_start_char, trim_start_char_exec, unicode_lowercase,
    words, words_exec, seq_lt, seq_lt_exec, lemma_seq_lt_irreflexive, lemma_seq_lt_total,
    lemma_seq_lt_transitive,
};

verus! {

/// What a command printed.
#[derive(Debug)]
pub struct CommandOutput {
    pub stdout: String,
    pub stderr: String,
}

/// A thin, structured wrapper around the `adb` executable.
#[derive(Debug)]
pub struct Adb {
    adb_path: String,
}

/// The lines of some text, as sequences.
pub open spec fn line_views(v: Seq<Vec<char>>) -> Seq<Seq<char>> {
    v.map_values(|l: Vec<char>| l@)
}

// ---------------------------------------------------------------------------
// Devices
// ---------------------------------------------------------------------------

/// The serial a line of `adb devices -l` names: its first word, for lines that
/// are not empty and not daemon or header chatter.
pub open spec fn device_line(l: Seq<char>) -> Option<Seq<char>> {
    if l.len() == 0 || contains(l, "daemon not running"@) || contains(l, "daemon started"@)
        || contains(l, "List of devices attached"@) {
        None
    } else {
        first_word(l)
    }
}

/// The serials named by the lines `ls`.
pub open spec fn devices_in(ls: Seq<Seq<char>>) -> Seq<Seq<char>>
    decreases ls.len(),
{
    if ls.len() == 0 {
        seq![]
    } else {
        devices_in(ls.drop_last()) + match device_line(ls.last()) {
            Some(d) => seq![d],
            None => seq![],
        }
    }
}

// ---------------------------------------------------------------------------
// getprop
// ---------------------------------------------------------------------------

/// A `[key]: [value]` line of `getprop`.
pub open spec fn getprop_pair(l: Seq<char>) -> Option<(Seq<char>, Seq<char>)> {
    match split_once(l, "]: ["@) {
        Some((k, v)) => Some((trim_start_char(k, '['), trim_end_char(v, ']'))),
        None => None,
    }
}

/// The value of the last line of `ls` setting `key`.
pub open spec fn last_prop(ls: Seq<Seq<char>>, key: Seq<char>) -> Option<Seq<char>>
    decreases ls.len(),
{
    if ls.len() == 0 {
        None
    } else {
        match getprop_pair(ls.last()) {
            Some((k, v)) => if k == key {
                Some(v)
            } else {
                last_prop(ls.drop_last(), key)
            },
            None => last_prop(ls.drop_last(), key),
        }
    }
}

/// The properties that [`DeviceInfo`] records, in field order.
pub open spec fn info_keys() -> Seq<Seq<char>> {
    seq![
        "ro.product.model"@,
        "ro.product.manufacturer"@,
        "ro.product.brand"@,
        "ro.product.device"@,
        "ro.product.name"@,
        "ro.build.version.release"@,
        "ro.build.version.sdk"@,
        "ro.build.version.codename"@,
        "ro.product.board"@,
        "ro.product.cpu.abi"@,
        "ro.product.locale"@,
        "ro.build.id"@,
        "ro.build.version.security_patch"@,
    ]
}

/// The recorded properties of a [`DeviceInfo`], in field order.
pub open spec fn info_fields(d: DeviceInfo) -> Seq<Option<Seq<char>>> {
    seq![
        opt_view(d.model),
        opt_view(d.manufacturer),
        opt_view(d.brand),
        opt_view(d.device),
        opt_view(d.name),
        opt_view(d.android_version),
        opt_view(d.sdk),
        opt_view(d.codename),
        opt_view(d.board),
        opt_view(d.cpu_abi),
        opt_view(d.locale),
        opt_view(d.build_id),
        opt_view(d.security_patch),
    ]
}

// ---------------------------------------------------------------------------
// Network
// ---------------------------------------------------------------------------

/// The address an `ip -4 addr show` line gives: after `inet ` (on the
/// trimmed line), the first word before any `/`.
pub open spec fn inet_address(l: Seq<char>) -> Option<Seq<char>> {
    let t = trim(l);
    if starts_with(t, "inet "@) {
        first_word(before_char(t.subrange(5, t.len() as int), '/'))
    } else {
        None
    }
}

/// The addresses given by the lines `ls`.
pub open spec fn addresses_in(ls: Seq<Seq<char>>) -> Seq<Seq<char>>
    decreases ls.len(),
{
    if ls.len() == 0 {
        seq![]
    } else {
        addresses_in(ls.drop_last()) + match inet_address(ls.last()) {
            Some(a) => seq![a],
            None => seq![],
        }
    }
}

/// The SSID a `dumpsys wifi` line shows: the text after `SSID:` up to a
/// comma, trimmed and unquoted; placeholders do not count.
pub open spec fn ssid_in_line(l: Seq<char>) -> Option<Seq<char>> {
    match find(l, "SSID:"@) {
        Some(i) => {
            let s = trim(
                trim_char(trim(before_char(trim(l.subrange(i + 5, l.len() as int)), ',')), '"'),
            );
            if s.len() > 0 && s != "<unknown ssid>"@ && s != "0x0"@ {
                Some(s)
            } else {
                None
            }
        },
        None => None,
    }
}

/// The first SSID shown among the lines `ls`.
pub open spec fn first_ssid(ls: Seq<Seq<char>>) -> Option<Seq<char>>
    decreases ls.len(),
{
    if ls.len() == 0 {
        None
    } else {
        match ssid_in_line(ls[0]) {
            Some(s) => Some(s),
            None => first_ssid(ls.drop_first()),
        }
    }
}

fn device_line_exec(l: &[char]) -> (r: Option<Vec<char>>)
    ensures
        match r {
            Some(d) => device_line(l@) == Some(d@),
            None => device_line(l@) is None,
        },
{
    if l.len() == 0 {
        return None;
    }
    let a = chars_of("daemon not running");
    let b = chars_of("daemon started");
    let c = chars_of("List of devices attached");
    if contains_exec(l, &a) || contains_exec(l, &b) || contains_exec(l, &c) {
        return None;
    }
    first_word_exec(l)
}

fn getprop_pair_exec(l: &[char]) -> (r: Option<(Vec<char>, Vec<char>)>)
    ensures
        match r {
            Some((k, v)) => getprop_pair(l@) == Some((k@, v@)),
            None => getprop_pair(l@) is None,
        },
{
    let sep = chars_of("]: [");
    match split_once_exec(l, &sep) {
        Some((k, v)) => {
            let k2 = trim_start_char_exec(&k, '[');
            let v2 = trim_end_char_exec(&v, ']');
            Some((k2, v2))
        },
        None => None,
    }
}

fn inet_address_exec(l: &[char]) -> (r: Option<Vec<char>>)
    ensures
        match r {
            Some(a) => inet_address(l@) == Some(a@),
            None => inet_address(l@) is None,
        },
{
    let t = trim_chars(l);
    let p = chars_of("inet ");
    proof {
        reveal_strlit("inet ");
    }
    if !starts_with_exec(&t, &p) {
        return None;
    }
    let rest = slice_copy(&t, 5, t.len());
    let before = before_char_exec(&rest, '/');
    first_word_exec(&before)
}

/// Extract the active Wi-Fi SSID from `dumpsys wifi` output, ignoring
/// placeholders.
pub fn parse_ssid(dumpsys: &str) -> (r: Option<String>)
    ensures
        opt_view(r) == first_ssid(lines(dumpsys@)),
{
    let text = chars_of(dumpsys);
    let ls = lines_of(&text);
    let ghost all = line_views(ls@);
    let key = chars_of("SSID:");
    proof {
        reveal_strlit("SSID:");
    }
    let unknown = chars_of("<unknown ssid>");
    let zero = chars_of("0x0");
    let mut i: usize = 0;
    assert(all.subrange(0, all.len() as int) =~= all);
    while i < ls.len()
        invariant
            i <= ls@.len(),
            all == line_views(ls@),
            all == lines(dumpsys@),
            key@ == "SSID:"@,
            key@.len() == 5,
            unknown@ == "<unknown ssid>"@,
            zero@ == "0x0"@,
            first_ssid(all) == first_ssid(all.subrange(i as int, all.len() as int)),
        decreases ls@.len() - i,
    {
        let line = &ls[i];
        assert(all.subrange(i as int, all.len() as int)[0] == line@);
        let found = match find_from_exec(line, &key, 0) {
            Some(idx) => {
                proof {
                    lemma_find_from(line@, key@, 0);
                }
                assert(idx + 5 <= line@.len());
                assert(idx + 5 <= line.len());
                let after = slice_copy(line, idx + 5, line.len());
                let a1 = trim_chars(&after);
                let a2 = before_char_exec(&a1, ',');
                let a3 = trim_chars(&a2);
                let a4 = trim_char_exec(&a3, '"');
                let s = trim_chars(&a4);
                if s.len() > 0 && !eq(&s, &unknown) && !eq(&s, &zero) {
                    Some(s)
                } else {
                    None
                }
            },
            None => None,
        };
        match found {
            Some(s) => {
                return Some(string_of(&s));
            },
            None => {},
        }
        assert(all.subrange(i as int, all.len() as int).drop_first() =~= all.subrange(
            i + 1,
            all.len() as int,
        ));
        i += 1;
    }
    None
}

// ---------------------------------------------------------------------------
// Battery and network summary
// ---------------------------------------------------------------------------

/// The value after `prefix` on the last trimmed line of `ls` starting with it,
/// trimmed.
pub open spec fn last_field(ls: Seq<Seq<char>>, prefix: Seq<char>) -> Option<Seq<char>>
    decreases ls.len(),
{
    if ls.len() == 0 {
        None
    } else {
        let t = trim(ls.last());
        if starts_with(t, prefix) {
            Some(trim(t.subrange(prefix.len() as int, t.len() as int)))
        } else {
            last_field(ls.drop_last(), prefix)
        }
    }
}

fn last_field_exec(ls: &Vec<Vec<char>>, prefix: &[char]) -> (r: Option<Vec<char>>)
    ensures
        match r {
            Some(v) => last_field(line_views(ls@), prefix@) == Some(v@),
            None => last_field(line_views(ls@), prefix@) is None,
        },
{
    let ghost all = line_views(ls@);
    let mut found: Option<Vec<char>> = None;
    let mut i: usize = 0;
    while i < ls.len()
        invariant
            i <= ls@.len(),
            all == line_views(ls@),
            match found {
                Some(v) => last_field(all.subrange(0, i as int), prefix@) == Some(v@),
                None => last_field(all.subrange(0, i as int), prefix@) is None,
            },
        decreases ls@.len() - i,
    {
        proof {
            assert(all.subrange(0, i + 1).drop_last() =~= all.subrange(0, i as int));
            assert(all.subrange(0, i + 1).last() == ls@[i as int]@);
        }
        let t = trim_chars(&ls[i]);
        if starts_with_exec(&t, prefix) {
            let rest = slice_copy(&t, prefix.len(), t.len());
            found = Some(trim_chars(&rest));
        }
        i += 1;
    }
    assert(all.subrange(0, all.len() as int) =~= all);
    found
}

fn opt_string(v: Option<Vec<char>>) -> (r: Option<String>)
    ensures
        match v {
            Some(x) => r matches Some(s) && s@ == x@,
            None => r is None,
        },
{
    match v {
        Some(x) => Some(string_of(&x)),
        None => None,
    }
}

/// Battery level and status from `dumpsys battery` (the last `level:` and
/// `status:` lines).
pub fn parse_battery(dumpsys: &str) -> (r: Battery)
    ensures
        opt_view(r.level) == last_field(lines(dumpsys@), "level:"@),
        opt_view(r.status) == last_field(lines(dumpsys@), "status:"@),
{
    let text = chars_of(dumpsys);
    let ls = lines_of(&text);
    let level = last_field_exec(&ls, &chars_of("level:"));
    let status = last_field_exec(&ls, &chars_of("status:"));
    Battery { level: opt_string(level), status: opt_string(status) }
}

/// A number column of `df` with its thousands separators removed.
pub open spec fn no_commas(s: Seq<char>) -> Seq<char> {
    replace_all(s, seq![','], seq![])
}

/// The total, used and free columns of the first row of `df` output (after
/// its header) that has at least five columns, separators removed.
pub open spec fn df_row(ls: Seq<Seq<char>>, i: int) -> Option<(Seq<char>, Seq<char>, Seq<char>)>
    decreases ls.len() - i,
{
    if i < 1 || i >= ls.len() {
        None
    } else if words(ls[i]).len() >= 5 {
        let w = words(ls[i]);
        Some((no_commas(w[1]), no_commas(w[2]), no_commas(w[3])))
    } else {
        df_row(ls, i + 1)
    }
}

/// The size columns (in KiB, as text) of the `/data` row of `df /data`:
/// total, used, free.
pub fn storage_kb(df_output: &str) -> (r: Option<(String, String, String)>)
    ensures
        match r {
            Some((t, u, f)) => df_row(lines(df_output@), 1) == Some((t@, u@, f@)),
            None => df_row(lines(df_output@), 1) is None,
        },
{
    let text = chars_of(df_output);
    let ls = lines_of(&text);
    let ghost all = line_views(ls@);
    let comma = chars_of(",");
    proof {
        reveal_strlit(",");
    }
    let empty: Vec<char> = Vec::new();
    let mut i: usize = 1;
    while i < ls.len()
        invariant
            1 <= i,
            i <= ls@.len() || ls@.len() == 0,
            all == line_views(ls@),
            all == lines(df_output@),
            comma@ == seq![','],
            empty@ == Seq::<char>::empty(),
            df_row(all, 1) == df_row(all, i as int),
        decreases ls@.len() - i,
    {
        assert(all[i as int] == ls@[i as int]@);
        let w = words_exec(&ls[i]);
        assert(w@.len() == words(all[i as int]).len());
        if w.len() >= 5 {
            assert(w@[1]@ == words(all[i as int])[1]);
            assert(w@[2]@ == words(all[i as int])[2]);
            assert(w@[3]@ == words(all[i as int])[3]);
            let t = replace_all_exec(&w[1], &comma, &empty);
            let u = replace_all_exec(&w[2], &comma, &empty);
            let f = replace_all_exec(&w[3], &comma, &empty);
            return Some((string_of(&t), string_of(&u), string_of(&f)));
        }
        i += 1;
    }
    None
}

/// The rest of the last line of `ls` that begins with `prefix`.
pub open spec fn last_prefixed(ls: Seq<Seq<char>>, prefix: Seq<char>) -> Option<Seq<char>>
    decreases ls.len(),
{
    if ls.len() == 0 {
        None
    } else if starts_with(ls.last(), prefix) {
        Some(ls.last().subrange(prefix.len() as int, ls.last().len() as int))
    } else {
        last_prefixed(ls.drop_last(), prefix)
    }
}

/// The first word after `key` on the last line of `/proc/meminfo` that
/// begins with it.
pub open spec fn meminfo_field(ls: Seq<Seq<char>>, key: Seq<char>) -> Option<Seq<char>> {
    match last_prefixed(ls, key) {
        Some(v) => first_word(v),
        None => None,
    }
}

fn meminfo_field_exec(ls: &Vec<Vec<char>>, key: &[char]) -> (r: Option<Vec<char>>)
    ensures
        match r {
            Some(v) => meminfo_field(line_views(ls@), key@) == Some(v@),
            None => meminfo_field(line_views(ls@), key@) is None,
        },
{
    let ghost all = line_views(ls@);
    let mut found: Option<Vec<char>> = None;
    let mut i: usize = 0;
    while i < ls.len()
        invariant
            i <= ls@.len(),
            all == line_views(ls@),
            match found {
                Some(v) => last_prefixed(all.subrange(0, i as int), key@) == Some(v@),
                None => last_prefixed(all.subrange(0, i as int), key@) is None,
            },
        decreases ls@.len() - i,
    {
        proof {
            assert(all.subrange(0, i + 1).drop_last() =~= all.subrange(0, i as int));
            assert(all.subrange(0, i + 1).last() == ls@[i as int]@);
        }
        if starts_with_exec(&ls[i], key) {
            found = Some(slice_copy(&ls[i], key.len(), ls[i].len()));
        }
        i += 1;
    }
    assert(all.subrange(0, all.len() as int) =~= all);
    match found {
        Some(v) => first_word_exec(&v),
        None => None,
    }
}

/// Total and available memory (in KiB, as text) from `/proc/meminfo`: the
/// first word after the last `MemTotal:` and `MemAvailable:` lines.
pub fn meminfo_kb(meminfo: &str) -> (r: (Option<String>, Option<String>))
    ensures
        opt_view(r.0) == meminfo_field(lines(meminfo@), "MemTotal:"@),
        opt_view(r.1) == meminfo_field(lines(meminfo@), "MemAvailable:"@),
{
    let text = chars_of(meminfo);
    let ls = lines_of(&text);
    let total = meminfo_field_exec(&ls, &chars_of("MemTotal:"));
    let avail = meminfo_field_exec(&ls, &chars_of("MemAvailable:"));
    (opt_string(total), opt_string(avail))
}

/// The first address that is not the loopback `127.0.0.1`.
pub open spec fn first_non_loopback(ips: Seq<Seq<char>>) -> Option<Seq<char>>
    decreases ips.len(),
{
    if ips.len() == 0 {
        None
    } else if ips[0] != "127.0.0.1"@ {
        Some(ips[0])
    } else {
        first_non_loopback(ips.drop_first())
    }
}

/// The reachability summary of a device: its first non-loopback address and
/// its SSID.
pub fn network_summary(info: NetworkInfo) -> (r: Network)
    ensures
        opt_view(r.ip) == first_non_loopback(string_views(info.ip_addresses@)),
        r.ssid == info.ssid,
{
    let ghost ips = string_views(info.ip_addresses@);
    let lo = chars_of("127.0.0.1");
    let mut i: usize = 0;
    assert(ips.subrange(0, ips.len() as int) =~= ips);
    while i < info.ip_addresses.len()
        invariant
            i <= info.ip_addresses@.len(),
            ips == string_views(info.ip_addresses@),
            lo@ == "127.0.0.1"@,
            first_non_loopback(ips) == first_non_loopback(ips.subrange(i as int, ips.len() as int)),
        decreases info.ip_addresses@.len() - i,
    {
        assert(ips.subrange(i as int, ips.len() as int)[0] == info.ip_addresses@[i as int]@);
        let c = chars_of(info.ip_addresses[i].as_str());
        if !eq(&c, &lo) {
            return Network { ip: Some(info.ip_addresses[i].clone()), ssid: info.ssid };
        }
        assert(ips.subrange(i as int, ips.len() as int).drop_first() =~= ips.subrange(
            i + 1,
            ips.len() as int,
        ));
        i += 1;
    }
    Network { ip: None, ssid: info.ssid }
}

/// What a device-health snapshot reads from the device, as text: battery
/// fields, the `/data` size columns and the memory fields in KiB, and the
/// network summary.
#[derive(Debug)]
pub struct HealthReadings {
    pub device: String,
    pub battery: Battery,
    pub storage_kb: Option<(String, String, String)>,
    pub memory_kb: (Option<String>, Option<String>),
    pub network: Network,
}

/// The readings of a device-health snapshot of `serial`, from what each
/// command printed (`None` for a command that could not be run) and the
/// device's network information. A command that failed leaves only its own
/// reading empty.
pub fn health_readings(
    serial: &str,
    battery: Option<&CommandOutput>,
    df: Option<&CommandOutput>,
    meminfo: Option<&CommandOutput>,
    net: NetworkInfo,
) -> (r: HealthReadings)
    ensures
        r.device@ == serial@,
        opt_view(r.battery.level) == match battery {
            Some(o) => last_field(lines(o.stdout@), "level:"@),
            None => None,
        },
        opt_view(r.battery.status) == match battery {
            Some(o) => last_field(lines(o.stdout@), "status:"@),
            None => None,
        },
        match r.storage_kb {
            Some((t, u, f)) => df matches Some(o) && df_row(lines(o.stdout@), 1) == Some(
                (t@, u@, f@),
            ),
            None => match df {
                Some(o) => df_row(lines(o.stdout@), 1) is None,
                None => true,
            },
        },
        opt_view(r.memory_kb.0) == match meminfo {
            Some(o) => meminfo_field(lines(o.stdout@), "MemTotal:"@),
            None => None,
        },
        opt_view(r.memory_kb.1) == match meminfo {
            Some(o) => meminfo_field(lines(o.stdout@), "MemAvailable:"@),
            None => None,
        },
        opt_view(r.network.ip) == first_non_loopback(string_views(net.ip_addresses@)),
        r.network.ssid == net.ssid,
{
    let battery = match battery {
        Some(o) => parse_battery(o.stdout.as_str()),
        None => Battery { level: None, status: None },
    };
    let storage_kb = match df {
        Some(o) => storage_kb(o.stdout.as_str()),
        None => None,
    };
    let memory_kb = match meminfo {
        Some(o) => meminfo_kb(o.stdout.as_str()),
        None => (None, None),
    };
    HealthReadings {
        device: copy_string(serial),
        battery,
        storage_kb,
        memory_kb,
        network: network_summary(net),
    }
}

// ---------------------------------------------------------------------------
// Packages
// ---------------------------------------------------------------------------

/// Where `x` goes in `sorted` from `j` on: before the first element whose
/// lower-cased form sorts after that of `x`.
pub open spec fn insert_pos(sorted: Seq<Seq<char>>, x: Seq<char>, j: int) -> int
    decreases sorted.len() - j,
{
    if j < 0 || j >= sorted.len() {
        sorted.len() as int
    } else if seq_lt(unicode_lowercase(x), unicode_lowercase(sorted[j])) {
        j
    } else {
        insert_pos(sorted, x, j + 1)
    }
}

/// `s` sorted by lower-cased form, equal forms kept in their order (a stable
/// sort, by insertion).
pub open spec fn sort_by_lowercase(s: Seq<Seq<char>>) -> Seq<Seq<char>>
    decreases s.len(),
{
    if s.len() == 0 {
        seq![]
    } else {
        let p = sort_by_lowercase(s.drop_last());
        p.insert(insert_pos(p, s.last(), 0), s.last())
    }
}

/// The package names of `pm list packages` lines: non-empty lines without
/// `package:`, trimmed.
pub open spec fn package_names_in(ls: Seq<Seq<char>>) -> Seq<Seq<char>>
    decreases ls.len(),
{
    if ls.len() == 0 {
        seq![]
    } else {
        package_names_in(ls.drop_last()) + if ls.last().len() > 0 {
            seq![trim(replace_all(ls.last(), "package:"@, seq![]))]
        } else {
            seq![]
        }
    }
}

/// The on-device path `pm list packages -f` gives for `package`: the first
/// non-empty line that, without `package:` and trimmed, ends with the
/// trimmed package name; the path is that line without `=package`.
pub open spec fn apk_path_in(ls: Seq<Seq<char>>, package: Seq<char>) -> Option<Seq<char>>
    decreases ls.len(),
{
    if ls.len() == 0 {
        None
    } else {
        let l = ls[0];
        let c = replace_all(l, "package:"@, seq![]);
        if l.len() > 0 && ends_with(trim(c), trim(package)) {
            Some(replace_all(c, seq!['='] + package, seq![]))
        } else {
            apk_path_in(ls.drop_first(), package)
        }
    }
}

/// The word after `inet ` on the first trimmed line starting with it (empty
/// when nothing follows).
pub open spec fn first_inet(ls: Seq<Seq<char>>) -> Option<Seq<char>>
    decreases ls.len(),
{
    if ls.len() == 0 {
        None
    } else {
        let t = trim(ls[0]);
        if starts_with(t, "inet "@) {
            Some(
                match first_word(before_char(t.subrange(5, t.len() as int), '/')) {
                    Some(w) => w,
                    None => seq![],
                },
            )
        } else {
            first_inet(ls.drop_first())
        }
    }
}

fn copy_string(s: &str) -> (r: String)
    ensures
        r@ == s@,
{
    String::from_str(s)
}

/// The last value of `vals`, taken off it.
fn take_last(vals: &mut Vec<Option<String>>) -> (r: Option<String>)
    requires
        old(vals)@.len() > 0,
    ensures
        r == old(vals)@.last(),
        final(vals)@ == old(vals)@.drop_last(),
{
    match vals.pop() {
        Some(x) => x,
        None => None,
    }
}

impl Adb {
    /// An `adb` found on `PATH` (`found` is what the lookup for `adb` gave).
    pub fn new(found: Option<String>) -> (r: Result<Adb, Error>)
        ensures
            match found {
                Some(p) => r matches Ok(a) && a.path_view() == p@,
                None => r matches Err(e) && (e matches Error::ProgramNotFound { name } && name@
                    == "adb"@),
            },
    {
        match find_program("adb", found) {
            Ok(p) => Ok(Adb { adb_path: p }),
            Err(e) => Err(e),
        }
    }

    /// Use an explicit `adb` path (e.g. from `$ANDROID_HOME/platform-tools`).
    pub fn with_path(adb_path: String) -> (r: Adb)
        ensures
            r.path_view() == adb_path@,
    {
        Adb { adb_path }
    }

    /// The `adb` executable.
    pub closed spec fn path_view(&self) -> Seq<char> {
        self.adb_path@
    }

    /// The `adb` executable.
    pub fn path(&self) -> (r: &str)
        ensures
            r@ == self.path_view(),
    {
        self.adb_path.as_str()
    }

    /// The arguments of `adb -s <serial> <args>`.
    pub fn device_args(&self, serial: &str, args: &[&str]) -> (r: Vec<String>)
        ensures
            string_views(r@) == seq!["-s"@, serial@] + args@.map_values(|a: &str| a@),
    {
        let mut r: Vec<String> = Vec::new();
        r.push(String::from_str("-s"));
        r.push(copy_string(serial));
        let ghost head = seq!["-s"@, serial@];
        assert(string_views(r@) =~= head);
        let mut i: usize = 0;
        while i < args.len()
            invariant
                i <= args@.len(),
                string_views(r@) == head + args@.map_values(|a: &str| a@).subrange(0, i as int),
            decreases args@.len() - i,
        {
            let ghost before = string_views(r@);
            r.push(copy_string(args[i]));
            assert(string_views(r@) =~= before.push(args@[i as int]@));
            assert(args@.map_values(|a: &str| a@).subrange(0, i + 1) =~= args@.map_values(
                |a: &str| a@,
            ).subrange(0, i as int).push(args@[i as int]@));
            i += 1;
        }
        assert(args@.map_values(|a: &str| a@).subrange(0, args@.len() as int) =~= args@.map_values(
            |a: &str| a@,
        ));
        r
    }

    /// Serial numbers of connected devices, from `adb devices -l`. Errors when
    /// none are attached.
    pub fn devices(&self, output: &CommandOutput) -> (r: Result<Vec<String>, Error>)
        ensures
            match r {
                Ok(v) => devices_in(lines(output.stdout@)).len() > 0 && string_views(v@)
                    == devices_in(lines(output.stdout@)),
                Err(e) => devices_in(lines(output.stdout@)).len() == 0 && e is NoDevices,
            },
    {
        let text = chars_of(output.stdout.as_str());
        let ls = lines_of(&text);
        let ghost all = line_views(ls@);
        let mut out: Vec<String> = Vec::new();
        let mut i: usize = 0;
        while i < ls.len()
            invariant
                i <= ls@.len(),
                all == line_views(ls@),
                string_views(out@) == devices_in(all.subrange(0, i as int)),
            decreases ls@.len() - i,
        {
            proof {
                assert(all.subrange(0, i + 1).drop_last() =~= all.subrange(0, i as int));
                assert(all.subrange(0, i + 1).last() == ls@[i as int]@);
            }
            let ghost before = string_views(out@);
            match device_line_exec(&ls[i]) {
                Some(d) => {
                    out.push(string_of(&d));
                    assert(string_views(out@) =~= before + seq![d@]);
                },
                None => {
                    assert(string_views(out@) =~= before + seq![]);
                },
            }
            i += 1;
        }
        assert(all.subrange(0, all.len() as int) =~= all);
        if out.len() == 0 {
            return Err(Error::NoDevices);
        }
        Ok(out)
    }

    /// A [`DeviceInfo`] for `serial` from `adb shell getprop`: each recorded
    /// property takes the value of the last line setting it.
    pub fn device_info(&self, serial: &str, output: &CommandOutput) -> (r: DeviceInfo)
        ensures
            r.serial@ == serial@,
            opt_view(r.model) == last_prop(lines(output.stdout@), "ro.product.model"@),
            opt_view(r.manufacturer) == last_prop(lines(output.stdout@), "ro.product.manufacturer"@),
            opt_view(r.brand) == last_prop(lines(output.stdout@), "ro.product.brand"@),
            opt_view(r.device) == last_prop(lines(output.stdout@), "ro.product.device"@),
            opt_view(r.name) == last_prop(lines(output.stdout@), "ro.product.name"@),
            opt_view(r.android_version) == last_prop(lines(output.stdout@), "ro.build.version.release"@),
            opt_view(r.sdk) == last_prop(lines(output.stdout@), "ro.build.version.sdk"@),
            opt_view(r.codename) == last_prop(lines(output.stdout@), "ro.build.version.codename"@),
            opt_view(r.board) == last_prop(lines(output.stdout@), "ro.product.board"@),
            opt_view(r.cpu_abi) == last_prop(lines(output.stdout@), "ro.product.cpu.abi"@),
            opt_view(r.locale) == last_prop(lines(output.stdout@), "ro.product.locale"@),
            opt_view(r.build_id) == last_prop(lines(output.stdout@), "ro.build.id"@),
            opt_view(r.security_patch) == last_prop(lines(output.stdout@), "ro.build.version.security_patch"@),
            forall|j: int|
                0 <= j < 13 ==> #[trigger] info_fields(r)[j] == last_prop(
                    lines(output.stdout@),
                    info_keys()[j],
                ),
    {
        let text = chars_of(output.stdout.as_str());
        let ls = lines_of(&text);
        let ghost all = line_views(ls@);
        let keys = [
            chars_of("ro.product.model"),
            chars_of("ro.product.manufacturer"),
            chars_of("ro.product.brand"),
            chars_of("ro.product.device"),
            chars_of("ro.product.name"),
            chars_of("ro.build.version.release"),
            chars_of("ro.build.version.sdk"),
            chars_of("ro.build.version.codename"),
            chars_of("ro.product.board"),
            chars_of("ro.product.cpu.abi"),
            chars_of("ro.product.locale"),
            chars_of("ro.build.id"),
            chars_of("ro.build.version.security_patch"),
        ];
        assert(forall|j: int| 0 <= j < 13 ==> #[trigger] keys@[j]@ == info_keys()[j]);
        let mut vals: Vec<Option<String>> = Vec::new();
        let mut n: usize = 0;
        while n < 13
            invariant
                n <= 13,
                vals@.len() == n,
                forall|j: int| 0 <= j < n ==> #[trigger] vals@[j] is None,
            decreases 13 - n,
        {
            vals.push(None);
            n += 1;
        }
        let mut i: usize = 0;
        while i < ls.len()
            invariant
                i <= ls@.len(),
                all == line_views(ls@),
                vals@.len() == 13,
                forall|j: int| 0 <= j < 13 ==> #[trigger] keys@[j]@ == info_keys()[j],
                forall|j: int|
                    0 <= j < 13 ==> #[trigger] opt_view(vals@[j]) == last_prop(
                        all.subrange(0, i as int),
                        info_keys()[j],
                    ),
            decreases ls@.len() - i,
        {
            proof {
                assert(all.subrange(0, i + 1).drop_last() =~= all.subrange(0, i as int));
                assert(all.subrange(0, i + 1).last() == ls@[i as int]@);
            }
            match getprop_pair_exec(&ls[i]) {
                Some((k, v)) => {
                    let mut j: usize = 0;
                    while j < 13
                        invariant
                            j <= 13,
                            i < all.len(),
                            vals@.len() == 13,
                            forall|m: int| 0 <= m < 13 ==> #[trigger] keys@[m]@ == info_keys()[m],
                            getprop_pair(all[i as int]) == Some((k@, v@)),
                            all.subrange(0, i + 1).last() == all[i as int],
                            all.subrange(0, i + 1).drop_last() == all.subrange(0, i as int),
                            forall|m: int|
                                0 <= m < j ==> #[trigger] opt_view(vals@[m]) == last_prop(
                                    all.subrange(0, i + 1),
                                    info_keys()[m],
                                ),
                            forall|m: int|
                                j <= m < 13 ==> #[trigger] opt_view(vals@[m]) == last_prop(
                                    all.subrange(0, i as int),
                                    info_keys()[m],
                                ),
                        decreases 13 - j,
                    {
                        proof {
                            let key = info_keys()[j as int];
                            assert(last_prop(all.subrange(0, i + 1), key) == if k@ == key {
                                Some(v@)
                            } else {
                                last_prop(all.subrange(0, i as int), key)
                            });
                        }
                        if eq(&k, &keys[j]) {
                            vals.set(j, Some(string_of(&v)));
                        }
                        j += 1;
                    }
                },
                None => {},
            }
            i += 1;
        }
        assert(all.subrange(0, all.len() as int) =~= all);
        let ghost fin = vals@;
        let security_patch = take_last(&mut vals);
        let build_id = take_last(&mut vals);
        let locale = take_last(&mut vals);
        let cpu_abi = take_last(&mut vals);
        let board = take_last(&mut vals);
        let codename = take_last(&mut vals);
        let sdk = take_last(&mut vals);
        let android_version = take_last(&mut vals);
        let name = take_last(&mut vals);
        let device = take_last(&mut vals);
        let brand = take_last(&mut vals);
        let manufacturer = take_last(&mut vals);
        let model = take_last(&mut vals);
        let info = DeviceInfo {
            serial: copy_string(serial),
            model,
            manufacturer,
            brand,
            device,
            name,
            android_version,
            sdk,
            codename,
            board,
            cpu_abi,
            locale,
            build_id,
            security_patch,
        };
        assert(forall|j: int| 0 <= j < 13 ==> #[trigger] info_fields(info)[j] == opt_view(fin[j]));
        proof {
            device_info_keys_name_their_fields(info);
            assert(info_fields(info)[0] == last_prop(lines(output.stdout@), info_keys()[0]));
            assert(info_fields(info)[1] == last_prop(lines(output.stdout@), info_keys()[1]));
            assert(info_fields(info)[2] == last_prop(lines(output.stdout@), info_keys()[2]));
            assert(info_fields(info)[3] == last_prop(lines(output.stdout@), info_keys()[3]));
            assert(info_fields(info)[4] == last_prop(lines(output.stdout@), info_keys()[4]));
            assert(info_fields(info)[5] == last_prop(lines(output.stdout@), info_keys()[5]));
            assert(info_fields(info)[6] == last_prop(lines(output.stdout@), info_keys()[6]));
            assert(info_fields(info)[7] == last_prop(lines(output.stdout@), info_keys()[7]));
            assert(info_fields(info)[8] == last_prop(lines(output.stdout@), info_keys()[8]));
            assert(info_fields(info)[9] == last_prop(lines(output.stdout@), info_keys()[9]));
            assert(info_fields(info)[10] == last_prop(lines(output.stdout@), info_keys()[10]));
            assert(info_fields(info)[11] == last_prop(lines(output.stdout@), info_keys()[11]));
            assert(info_fields(info)[12] == last_prop(lines(output.stdout@), info_keys()[12]));
        }
        info
    }

    /// IP addresses (from `ip -4 addr show`) and Wi-Fi SSID (from `dumpsys
    /// wifi`) of `serial`; a command that could not be run gives nothing.
    pub fn network_info(
        &self,
        serial: &str,
        ip_output: Option<&CommandOutput>,
        wifi_output: Option<&CommandOutput>,
    ) -> (r: NetworkInfo)
        ensures
            r.device@ == serial@,
            string_views(r.ip_addresses@) == match ip_output {
                Some(o) => addresses_in(lines(o.stdout@)),
                None => seq![],
            },
            opt_view(r.ssid) == match wifi_output {
                Some(o) => first_ssid(lines(o.stdout@)),
                None => None,
            },
    {
        let mut ips: Vec<String> = Vec::new();
        match ip_output {
            Some(o) => {
                let text = chars_of(o.stdout.as_str());
                let ls = lines_of(&text);
                let ghost all = line_views(ls@);
                let mut i: usize = 0;
                while i < ls.len()
                    invariant
                        i <= ls@.len(),
                        all == line_views(ls@),
                        string_views(ips@) == addresses_in(all.subrange(0, i as int)),
                    decreases ls@.len() - i,
                {
                    proof {
                        assert(all.subrange(0, i + 1).drop_last() =~= all.subrange(0, i as int));
                        assert(all.subrange(0, i + 1).last() == ls@[i as int]@);
                    }
                    let ghost before = string_views(ips@);
                    match inet_address_exec(&ls[i]) {
                        Some(a) => {
                            ips.push(string_of(&a));
                            assert(string_views(ips@) =~= before + seq![a@]);
                        },
                        None => {
                            assert(string_views(ips@) =~= before + seq![]);
                        },
                    }
                    i += 1;
                }
                assert(all.subrange(0, all.len() as int) =~= all);
            },
            None => {
                assert(string_views(ips@) =~= seq![]);
            },
        }
        let ssid = match wifi_output {
            Some(o) => parse_ssid(o.stdout.as_str()),
            None => None,
        };
        NetworkInfo { device: copy_string(serial), ip_addresses: ips, ssid }
    }

    /// Installed package names from `pm list packages`, sorted
    /// case-insensitively (a stable sort).
    pub fn list_packages(&self, output: &CommandOutput) -> (r: Vec<String>)
        ensures
            string_views(r@) == sort_by_lowercase(package_names_in(lines(output.stdout@))),
    {
        let text = chars_of(output.stdout.as_str());
        let ls = lines_of(&text);
        let ghost all = line_views(ls@);
        let prefix = chars_of("package:");
        let empty: Vec<char> = Vec::new();
        // Package names in line order.
        let mut names: Vec<Vec<char>> = Vec::new();
        let mut i: usize = 0;
        while i < ls.len()
            invariant
                i <= ls@.len(),
                all == line_views(ls@),
                prefix@ == "package:"@,
                empty@ == Seq::<char>::empty(),
                line_views(names@) == package_names_in(all.subrange(0, i as int)),
            decreases ls@.len() - i,
        {
            proof {
                assert(all.subrange(0, i + 1).drop_last() =~= all.subrange(0, i as int));
                assert(all.subrange(0, i + 1).last() == ls@[i as int]@);
            }
            let ghost before = line_views(names@);
            if ls[i].len() > 0 {
                let rep = replace_all_exec(&ls[i], &prefix, &empty);
                let t = trim_chars(&rep);
                names.push(t);
                assert(line_views(names@) =~= before + seq![t@]);
            } else {
                assert(line_views(names@) =~= before + seq![]);
            }
            i += 1;
        }
        assert(all.subrange(0, all.len() as int) =~= all);
        let ghost nv = line_views(names@);
        // Insertion sort by lower-cased name.
        let mut sorted: Vec<String> = Vec::new();
        let mut keys: Vec<Vec<char>> = Vec::new();
        let mut k: usize = 0;
        while k < names.len()
            invariant
                k <= names@.len(),
                nv == line_views(names@),
                keys@.len() == sorted@.len(),
                forall|j: int|
                    0 <= j < keys@.len() ==> (#[trigger] keys@[j])@ == unicode_lowercase(
                        sorted@[j]@,
                    ),
                string_views(sorted@) == sort_by_lowercase(nv.subrange(0, k as int)),
            decreases names@.len() - k,
        {
            proof {
                assert(nv.subrange(0, k + 1).drop_last() =~= nv.subrange(0, k as int));
                assert(nv.subrange(0, k + 1).last() == names@[k as int]@);
            }
            let name = string_of(&names[k]);
            let low = str_to_lowercase(name.as_str());
            let key = chars_of(low.as_str());
            let ghost sv = string_views(sorted@);
            let mut pos: usize = 0;
            while pos < keys.len() && !seq_lt_exec(&key, &keys[pos])
                invariant
                    pos <= keys@.len() == sorted@.len(),
                    sv == string_views(sorted@),
                    key@ == unicode_lowercase(name@),
                    forall|j: int|
                        0 <= j < keys@.len() ==> (#[trigger] keys@[j])@ == unicode_lowercase(
                            sorted@[j]@,
                        ),
                    insert_pos(sv, name@, 0) == insert_pos(sv, name@, pos as int),
                decreases keys@.len() - pos,
            {
                assert(sv[pos as int] == sorted@[pos as int]@);
                pos += 1;
            }
            proof {
                if pos < keys@.len() {
                    assert(sv[pos as int] == sorted@[pos as int]@);
                }
            }
            assert(insert_pos(sv, name@, 0) == pos as int);
            let ghost old_keys = keys@;
            let ghost old_sorted = sorted@;
            let ghost name_view = name@;
            let ghost key_view = key@;
            sorted.insert(pos, name);
            keys.insert(pos, key);
            assert(sorted@ == old_sorted.insert(pos as int, sorted@[pos as int]));
            assert(string_views(sorted@) =~= sv.insert(pos as int, names@[k as int]@));
            assert forall|j: int| 0 <= j < keys@.len() implies (#[trigger] keys@[j])@
                == unicode_lowercase(sorted@[j]@) by {
                if j < pos {
                    assert(keys@[j] == old_keys[j]);
                    assert(sorted@[j] == old_sorted[j]);
                } else if j == pos {
                    assert(keys@[j]@ == key_view);
                    assert(sorted@[j]@ == name_view);
                } else {
                    assert(keys@[j] == old_keys[j - 1]);
                    assert(sorted@[j] == old_sorted[j - 1]);
                }
            }
            k += 1;
        }
        assert(nv.subrange(0, nv.len() as int) =~= nv);
        sorted
    }

    /// The invocation `adb -s <serial> shell am force-stop <package>`.
    pub fn stop_app(&self, serial: &str, package: &str) -> (r: Vec<String>)
        ensures
            string_views(r@) == seq!["-s"@, serial@, "shell"@, "am"@, "force-stop"@, package@],
    {
        let args = ["shell", "am", "force-stop", package];
        self.device_args(serial, &args)
    }

    /// The invocation that launches `package` through its LAUNCHER intent
    /// (`monkey`), no activity name needed.
    pub fn launch_package(&self, serial: &str, package: &str) -> (r: Vec<String>)
        ensures
            string_views(r@) == seq![
                "-s"@,
                serial@,
                "shell"@,
                "monkey"@,
                "-p"@,
                package@,
                "-c"@,
                "android.intent.category.LAUNCHER"@,
                "1"@,
            ],
    {
        let args = ["shell", "monkey", "-p", package, "-c", "android.intent.category.LAUNCHER", "1"];
        self.device_args(serial, &args)
    }

    /// The invocation that starts an activity component
    /// (`applicationId/Activity`).
    pub fn start_activity_args(&self, serial: &str, component: &str) -> (r: Vec<String>)
        ensures
            string_views(r@) == seq!["-s"@, serial@, "shell"@, "am"@, "start"@, "-n"@, component@],
    {
        let args = ["shell", "am", "start", "-n", component];
        self.device_args(serial, &args)
    }

    /// Whether `am start -n <component>` succeeded: it prints its status to
    /// stderr, and an `Error:` there is a failure.
    pub fn start_activity(&self, component: &str, output: &CommandOutput) -> (r: Result<(), Error>)
        ensures
            match r {
                Ok(()) => !contains(output.stderr@, "Error:"@),
                Err(e) => contains(output.stderr@, "Error:"@) && (e matches Error::StartFailed {
                    component: c,
                    detail,
                } && c@ == component@ && detail@ == trim(output.stderr@)),
            },
    {
        let err = chars_of(output.stderr.as_str());
        if contains_exec(&err, &chars_of("Error:")) {
            Err(Error::StartFailed { component: copy_string(component), detail: string_of(&trim_chars(&err)) })
        } else {
            Ok(())
        }
    }

    /// The invocation that opens a URL or deep link (`am start -a VIEW`).
    pub fn launch_url_args(&self, serial: &str, url: &str) -> (r: Vec<String>)
        ensures
            string_views(r@) == seq![
                "-s"@,
                serial@,
                "shell"@,
                "am"@,
                "start"@,
                "-a"@,
                "android.intent.action.VIEW"@,
                "-d"@,
                url@,
            ],
    {
        let args = ["shell", "am", "start", "-a", "android.intent.action.VIEW", "-d", url];
        self.device_args(serial, &args)
    }

    /// Whether opening `url` succeeded: an `Error:` on stderr is a failure.
    pub fn launch_url(&self, url: &str, output: &CommandOutput) -> (r: Result<(), Error>)
        ensures
            match r {
                Ok(()) => !contains(output.stderr@, "Error:"@),
                Err(e) => contains(output.stderr@, "Error:"@) && (e matches Error::LaunchUrlFailed {
                    url: u,
                    detail,
                } && u@ == url@ && detail@ == trim(output.stderr@)),
            },
    {
        let err = chars_of(output.stderr.as_str());
        if contains_exec(&err, &chars_of("Error:")) {
            Err(Error::LaunchUrlFailed { url: copy_string(url), detail: string_of(&trim_chars(&err)) })
        } else {
            Ok(())
        }
    }

    /// The invocation `pm clear <package>`, which wipes app data and cache.
    pub fn clear_data_args(&self, serial: &str, package: &str) -> (r: Vec<String>)
        ensures
            string_views(r@) == seq!["-s"@, serial@, "shell"@, "pm"@, "clear"@, package@],
    {
        let args = ["shell", "pm", "clear", package];
        self.device_args(serial, &args)
    }

    /// Whether `pm clear` succeeded: it prints `Success`.
    pub fn clear_data(&self, package: &str, output: &CommandOutput) -> (r: Result<(), Error>)
        ensures
            match r {
                Ok(()) => contains(output.stdout@, "Success"@),
                Err(e) => !contains(output.stdout@, "Success"@) && (e matches Error::ClearDataFailed {
                    package: p,
                } && p@ == package@),
            },
    {
        let out = chars_of(output.stdout.as_str());
        if contains_exec(&out, &chars_of("Success")) {
            Ok(())
        } else {
            Err(Error::ClearDataFailed { package: copy_string(package) })
        }
    }

    /// The invocation `adb -s <serial> uninstall <package>`.
    pub fn uninstall_args(&self, serial: &str, package: &str) -> (r: Vec<String>)
        ensures
            string_views(r@) == seq!["-s"@, serial@, "uninstall"@, package@],
    {
        let args = ["uninstall", package];
        self.device_args(serial, &args)
    }

    /// Whether `adb uninstall` succeeded: it prints `Success`; otherwise the
    /// error carries its trimmed output.
    pub fn uninstall(&self, package: &str, output: &CommandOutput) -> (r: Result<(), Error>)
        ensures
            match r {
                Ok(()) => contains(output.stdout@, "Success"@),
                Err(e) => !contains(output.stdout@, "Success"@) && (e matches Error::UninstallFailed {
                    package: p,
                    detail,
                } && p@ == package@ && detail@ == trim(output.stdout@)),
            },
    {
        let out = chars_of(output.stdout.as_str());
        if contains_exec(&out, &chars_of("Success")) {
            Ok(())
        } else {
            Err(Error::UninstallFailed { package: copy_string(package), detail: string_of(&trim_chars(&out)) })
        }
    }

    /// The invocation `pidof <package>`.
    pub fn pid_of_args(&self, serial: &str, package: &str) -> (r: Vec<String>)
        ensures
            string_views(r@) == seq!["-s"@, serial@, "shell"@, "pidof"@, package@],
    {
        let args = ["shell", "pidof", package];
        self.device_args(serial, &args)
    }

    /// The PID `pidof` printed, if any: its trimmed output, none when empty.
    pub fn pid_of(&self, output: &CommandOutput) -> (r: Option<String>)
        ensures
            opt_view(r) == if trim(output.stdout@).len() == 0 {
                None
            } else {
                Some(trim(output.stdout@))
            },
    {
        let t = trim_chars(&chars_of(output.stdout.as_str()));
        if t.len() == 0 {
            None
        } else {
            Some(string_of(&t))
        }
    }

    /// The invocation that installs one APK (`install -d`), or the error when
    /// the file does not exist.
    pub fn install_apk_args(&self, serial: &str, apk: &str, apk_exists: bool) -> (r: Result<
        Vec<String>,
        Error,
    >)
        ensures
            match r {
                Ok(v) => apk_exists && string_views(v@) == seq![
                    "-s"@,
                    serial@,
                    "install"@,
                    "-d"@,
                    apk@,
                ],
                Err(e) => !apk_exists && (e matches Error::FileMissing { path } && path@ == apk@),
            },
    {
        if !apk_exists {
            return Err(Error::FileMissing { path: copy_string(apk) });
        }
        let args = ["install", "-d", apk];
        Ok(self.device_args(serial, &args))
    }

    /// Whether `adb install` succeeded: it prints `Success`; otherwise the
    /// error carries its trimmed stderr.
    pub fn install_apk(&self, output: &CommandOutput) -> (r: Result<(), Error>)
        ensures
            match r {
                Ok(()) => contains(output.stdout@, "Success"@),
                Err(e) => !contains(output.stdout@, "Success"@) && (e matches Error::InstallFailed {
                    detail,
                } && detail@ == trim(output.stderr@)),
            },
    {
        let out = chars_of(output.stdout.as_str());
        if contains_exec(&out, &chars_of("Success")) {
            Ok(())
        } else {
            let err = chars_of(output.stderr.as_str());
            Err(Error::InstallFailed { detail: string_of(&trim_chars(&err)) })
        }
    }

    /// The invocation that installs a split set (`install-multiple -d`), or
    /// the error when there is no APK to install.
    pub fn install_multiple_args(&self, serial: &str, apks: &[String]) -> (r: Result<
        Vec<String>,
        Error,
    >)
        ensures
            match r {
                Ok(v) => apks@.len() > 0 && string_views(v@) == seq![
                    "-s"@,
                    serial@,
                    "install-multiple"@,
                    "-d"@,
                ] + string_views(apks@),
                Err(e) => apks@.len() == 0 && e is NoApks,
            },
    {
        if apks.len() == 0 {
            return Err(Error::NoApks);
        }
        let head = ["install-multiple", "-d"];
        let mut r = self.device_args(serial, &head);
        let ghost start = string_views(r@);
        let mut i: usize = 0;
        while i < apks.len()
            invariant
                i <= apks@.len(),
                start == seq!["-s"@, serial@, "install-multiple"@, "-d"@],
                string_views(r@) == start + string_views(apks@).subrange(0, i as int),
            decreases apks@.len() - i,
        {
            let ghost before = string_views(r@);
            r.push(apks[i].clone());
            assert(string_views(r@) =~= before.push(apks@[i as int]@));
            assert(string_views(apks@).subrange(0, i + 1) =~= string_views(apks@).subrange(
                0,
                i as int,
            ).push(apks@[i as int]@));
            i += 1;
        }
        assert(string_views(apks@).subrange(0, apks@.len() as int) =~= string_views(apks@));
        Ok(r)
    }

    /// Whether `adb install-multiple` succeeded: it prints `Success`;
    /// otherwise the error carries its trimmed stderr.
    pub fn install_multiple(&self, output: &CommandOutput) -> (r: Result<(), Error>)
        ensures
            match r {
                Ok(()) => contains(output.stdout@, "Success"@),
                Err(e) => !contains(output.stdout@, "Success"@) && (e matches Error::InstallMultipleFailed {
                    detail,
                } && detail@ == trim(output.stderr@)),
            },
    {
        let out = chars_of(output.stdout.as_str());
        if contains_exec(&out, &chars_of("Success")) {
            Ok(())
        } else {
            let err = chars_of(output.stderr.as_str());
            Err(Error::InstallMultipleFailed { detail: string_of(&trim_chars(&err)) })
        }
    }

    /// The invocation `pm list packages -f`, which lists the on-device APK
    /// path of every package.
    pub fn apk_path_args(&self, serial: &str) -> (r: Vec<String>)
        ensures
            string_views(r@) == seq!["-s"@, serial@, "shell"@, "pm"@, "list"@, "packages"@, "-f"@],
    {
        let args = ["shell", "pm", "list", "packages", "-f"];
        self.device_args(serial, &args)
    }

    /// The on-device APK path of `package`, from `pm list packages -f`.
    pub fn apk_path_for(&self, package: &str, output: &CommandOutput) -> (r: Result<String, Error>)
        ensures
            match r {
                Ok(p) => apk_path_in(lines(output.stdout@), package@) == Some(p@),
                Err(e) => apk_path_in(lines(output.stdout@), package@) is None && (
                e matches Error::ApkPathNotFound { package: p } && p@ == package@),
            },
    {
        let text = chars_of(output.stdout.as_str());
        let ls = lines_of(&text);
        let ghost all = line_views(ls@);
        let pkg = chars_of(package);
        let tp = trim_chars(&pkg);
        let prefix = chars_of("package:");
        let empty: Vec<char> = Vec::new();
        let mut eqpkg: Vec<char> = Vec::new();
        eqpkg.push('=');
        let mut m: usize = 0;
        while m < pkg.len()
            invariant
                m <= pkg@.len(),
                eqpkg@ == seq!['='] + pkg@.subrange(0, m as int),
            decreases pkg@.len() - m,
        {
            eqpkg.push(pkg[m]);
            m += 1;
        }
        assert(pkg@.subrange(0, pkg@.len() as int) =~= pkg@);
        let mut i: usize = 0;
        assert(all.subrange(0, all.len() as int) =~= all);
        while i < ls.len()
            invariant
                i <= ls@.len(),
                all == line_views(ls@),
                all == lines(output.stdout@),
                pkg@ == package@,
                tp@ == trim(package@),
                prefix@ == "package:"@,
                empty@ == Seq::<char>::empty(),
                eqpkg@ == seq!['='] + package@,
                apk_path_in(all, package@) == apk_path_in(all.subrange(i as int, all.len() as int), package@),
            decreases ls@.len() - i,
        {
            assert(all.subrange(i as int, all.len() as int)[0] == ls@[i as int]@);
            let line = &ls[i];
            let c = replace_all_exec(line, &prefix, &empty);
            if line.len() > 0 && ends_with_exec(&trim_chars(&c), &tp) {
                let path = replace_all_exec(&c, &eqpkg, &empty);
                return Ok(string_of(&path));
            }
            assert(all.subrange(i as int, all.len() as int).drop_first() =~= all.subrange(
                i + 1,
                all.len() as int,
            ));
            i += 1;
        }
        Err(Error::ApkPathNotFound { package: copy_string(package) })
    }

    /// The invocation that pulls an installed app's APK to `out`, given the
    /// `pm list packages -f` listing.
    pub fn download_apk(&self, serial: &str, package: &str, listing: &CommandOutput, out: &str) -> (r:
        Result<Vec<String>, Error>)
        ensures
            match r {
                Ok(v) => apk_path_in(lines(listing.stdout@), package@) matches Some(p) && string_views(
                    v@,
                ) == seq!["-s"@, serial@, "pull"@, p, out@],
                Err(e) => apk_path_in(lines(listing.stdout@), package@) is None && (
                e matches Error::ApkPathNotFound { package: p } && p@ == package@),
            },
    {
        match self.apk_path_for(package, listing) {
            Ok(p) => {
                let args = ["pull", p.as_str(), out];
                Ok(self.device_args(serial, &args))
            },
            Err(e) => Err(e),
        }
    }

    /// The invocations that grant each of `permissions` to `package`.
    pub fn grant(&self, serial: &str, package: &str, permissions: &[&str]) -> (r: Vec<Vec<String>>)
        ensures
            r@.len() == permissions@.len(),
            forall|i: int|
                0 <= i < r@.len() ==> #[trigger] group_views(r@)[i] == seq![
                    "-s"@,
                    serial@,
                    "shell"@,
                    "pm"@,
                    "grant"@,
                    package@,
                    permissions@[i]@,
                ],
    {
        self.permission_commands(serial, "grant", package, permissions)
    }

    /// The invocations that revoke each of `permissions` from `package`.
    pub fn revoke(&self, serial: &str, package: &str, permissions: &[&str]) -> (r: Vec<Vec<String>>)
        ensures
            r@.len() == permissions@.len(),
            forall|i: int|
                0 <= i < r@.len() ==> #[trigger] group_views(r@)[i] == seq![
                    "-s"@,
                    serial@,
                    "shell"@,
                    "pm"@,
                    "revoke"@,
                    package@,
                    permissions@[i]@,
                ],
    {
        self.permission_commands(serial, "revoke", package, permissions)
    }

    fn permission_commands(&self, serial: &str, verb: &str, package: &str, permissions: &[&str]) -> (r:
        Vec<Vec<String>>)
        ensures
            r@.len() == permissions@.len(),
            forall|i: int|
                0 <= i < r@.len() ==> #[trigger] group_views(r@)[i] == seq![
                    "-s"@,
                    serial@,
                    "shell"@,
                    "pm"@,
                    verb@,
                    package@,
                    permissions@[i]@,
                ],
    {
        let mut r: Vec<Vec<String>> = Vec::new();
        let mut i: usize = 0;
        while i < permissions.len()
            invariant
                i <= permissions@.len(),
                r@.len() == i,
                forall|j: int|
                    0 <= j < i ==> #[trigger] group_views(r@)[j] == seq![
                        "-s"@,
                        serial@,
                        "shell"@,
                        "pm"@,
                        verb@,
                        package@,
                        permissions@[j]@,
                    ],
            decreases permissions@.len() - i,
        {
            let args = ["shell", "pm", verb, package, permissions[i]];
            let cmd = self.device_args(serial, &args);
            let ghost old_r = group_views(r@);
            r.push(cmd);
            assert forall|j: int| 0 <= j < i + 1 implies #[trigger] group_views(r@)[j] == seq![
                "-s"@,
                serial@,
                "shell"@,
                "pm"@,
                verb@,
                package@,
                permissions@[j]@,
            ] by {
                if j < i {
                    assert(group_views(r@)[j] == old_r[j]);
                }
            }
            i += 1;
        }
        r
    }

    /// The invocation `ip -4 addr show wlan0`.
    pub fn wifi_ip_args(&self, serial: &str) -> (r: Vec<String>)
        ensures
            string_views(r@) == seq!["-s"@, serial@, "shell"@, "ip"@, "-4"@, "addr"@, "show"@, "wlan0"@],
    {
        let args = ["shell", "ip", "-4", "addr", "show", "wlan0"];
        self.device_args(serial, &args)
    }

    /// The address to connect to over Wi-Fi (TCP/IP port 5555): the `wlan0`
    /// address `ip -4 addr show wlan0` printed, with `:5555`.
    pub fn enable_wifi(&self, output: &CommandOutput) -> (r: Result<String, Error>)
        ensures
            match r {
                Ok(a) => first_inet(lines(output.stdout@)) matches Some(ip) && ip.len() > 0 && a@
                    == ip + ":5555"@,
                Err(e) => !(first_inet(lines(output.stdout@)) matches Some(ip) && ip.len() > 0)
                    && e is NoWifiIp,
            },
    {
        let text = chars_of(output.stdout.as_str());
        let ls = lines_of(&text);
        let ghost all = line_views(ls@);
        let p = chars_of("inet ");
        proof {
            reveal_strlit("inet ");
        }
        let mut i: usize = 0;
        assert(all.subrange(0, all.len() as int) =~= all);
        while i < ls.len()
            invariant
                i <= ls@.len(),
                all == line_views(ls@),
                all == lines(output.stdout@),
                p@ == "inet "@,
                p@.len() == 5,
                first_inet(all) == first_inet(all.subrange(i as int, all.len() as int)),
            decreases ls@.len() - i,
        {
            assert(all.subrange(i as int, all.len() as int)[0] == ls@[i as int]@);
            let t = trim_chars(&ls[i]);
            if starts_with_exec(&t, &p) {
                let rest = slice_copy(&t, 5, t.len());
                let before = before_char_exec(&rest, '/');
                return match first_word_exec(&before) {
                    Some(w) => {
                        if w.len() > 0 {
                            let mut a = string_of(&w);
                            a.append(":5555");
                            Ok(a)
                        } else {
                            Err(Error::NoWifiIp)
                        }
                    },
                    None => Err(Error::NoWifiIp),
                };
            }
            assert(all.subrange(i as int, all.len() as int).drop_first() =~= all.subrange(
                i + 1,
                all.len() as int,
            ));
            i += 1;
        }
        Err(Error::NoWifiIp)
    }

    /// The invocations that switch `serial` to ADB over TCP/IP on port 5555
    /// and connect to `addr`.
    pub fn wifi_commands(&self, serial: &str, addr: &str) -> (r: Vec<Vec<String>>)
        ensures
            group_views(r@) == seq![seq!["-s"@, serial@, "tcpip"@, "5555"@], seq!["connect"@, addr@]],
    {
        let args = ["tcpip", "5555"];
        let mut r: Vec<Vec<String>> = Vec::new();
        r.push(self.device_args(serial, &args));
        let mut c: Vec<String> = Vec::new();
        c.push(String::from_str("connect"));
        c.push(copy_string(addr));
        assert(string_views(c@) =~= seq!["connect"@, addr@]);
        r.push(c);
        assert(group_views(r@) =~~= seq![seq!["-s"@, serial@, "tcpip"@, "5555"@], seq!["connect"@, addr@]]);
        r
    }

    /// The invocations that switch ADB back to USB mode: drop any network
    /// connection, then `usb` on the device.
    pub fn enable_usb(&self, serial: &str) -> (r: Vec<Vec<String>>)
        ensures
            group_views(r@) == seq![seq!["disconnect"@], seq!["-s"@, serial@, "usb"@]],
    {
        let mut d: Vec<String> = Vec::new();
        d.push(String::from_str("disconnect"));
        assert(string_views(d@) =~= seq!["disconnect"@]);
        let args = ["usb"];
        let mut r: Vec<Vec<String>> = Vec::new();
        r.push(d);
        r.push(self.device_args(serial, &args));
        assert(group_views(r@) =~~= seq![seq!["disconnect"@], seq!["-s"@, serial@, "usb"@]]);
        r
    }

    /// The invocations that capture a screenshot to `out`: capture on the
    /// device, pull it, remove the on-device copy.
    pub fn screenshot(&self, serial: &str, out: &str) -> (r: Vec<Vec<String>>)
        ensures
            group_views(r@) == seq![
                seq!["-s"@, serial@, "shell"@, "screencap"@, "-p"@, "/sdcard/screen.png"@],
                seq!["-s"@, serial@, "pull"@, "/sdcard/screen.png"@, out@],
                seq!["-s"@, serial@, "shell"@, "rm"@, "/sdcard/screen.png"@],
            ],
    {
        let remote = "/sdcard/screen.png";
        let a = ["shell", "screencap", "-p", remote];
        let b = ["pull", remote, out];
        let c = ["shell", "rm", remote];
        let mut r: Vec<Vec<String>> = Vec::new();
        r.push(self.device_args(serial, &a));
        r.push(self.device_args(serial, &b));
        r.push(self.device_args(serial, &c));
        assert(group_views(r@) =~~= seq![
            seq!["-s"@, serial@, "shell"@, "screencap"@, "-p"@, "/sdcard/screen.png"@],
            seq!["-s"@, serial@, "pull"@, "/sdcard/screen.png"@, out@],
            seq!["-s"@, serial@, "shell"@, "rm"@, "/sdcard/screen.png"@],
        ]);
        r
    }

    /// The invocation that records the screen of `serial` to
    /// `/sdcard/demo.mp4`, keeping the recorder's PID in
    /// `/sdcard/screenrecord.pid` and waiting for it to end.
    pub fn record_start_args(&self, serial: &str) -> (r: Vec<String>)
        ensures
            string_views(r@) == seq![
                "-s"@,
                serial@,
                "shell"@,
                "screenrecord /sdcard/demo.mp4 & echo $! > /sdcard/screenrecord.pid && wait $(cat /sdcard/screenrecord.pid)"@,
            ],
    {
        let args = [
            "shell",
            "screenrecord /sdcard/demo.mp4 & echo $! > /sdcard/screenrecord.pid && wait $(cat /sdcard/screenrecord.pid)",
        ];
        self.device_args(serial, &args)
    }

    /// The invocation that reads the recorder's PID.
    pub fn record_pid_args(&self, serial: &str) -> (r: Vec<String>)
        ensures
            string_views(r@) == seq!["-s"@, serial@, "shell"@, "cat"@, "/sdcard/screenrecord.pid"@],
    {
        let args = ["shell", "cat", "/sdcard/screenrecord.pid"];
        self.device_args(serial, &args)
    }

    /// The invocation that interrupts the recorder (`kill -2`) so it finishes
    /// the file, given what reading its PID printed; none when that is blank.
    pub fn record_stop_args(&self, serial: &str, pid_output: &str) -> (r: Option<Vec<String>>)
        ensures
            match r {
                Some(v) => trim(pid_output@).len() > 0 && string_views(v@) == seq![
                    "-s"@,
                    serial@,
                    "shell"@,
                    "kill"@,
                    "-2"@,
                    trim(pid_output@),
                ],
                None => trim(pid_output@).len() == 0,
            },
    {
        let pid = string_of(&trim_chars(&chars_of(pid_output)));
        if pid.as_str().unicode_len() == 0 {
            return None;
        }
        let args = ["shell", "kill", "-2", pid.as_str()];
        Some(self.device_args(serial, &args))
    }

    /// The invocations run once recording ends: pull the recording to `out`,
    /// then remove it and the PID file from the device.
    pub fn record_finish(&self, serial: &str, out: &str) -> (r: Vec<Vec<String>>)
        ensures
            group_views(r@) == seq![
                seq!["-s"@, serial@, "pull"@, "/sdcard/demo.mp4"@, out@],
                seq!["-s"@, serial@, "shell"@, "rm"@, "/sdcard/demo.mp4"@],
                seq!["-s"@, serial@, "shell"@, "rm"@, "/sdcard/screenrecord.pid"@],
            ],
    {
        let a = ["pull", "/sdcard/demo.mp4", out];
        let b = ["shell", "rm", "/sdcard/demo.mp4"];
        let c = ["shell", "rm", "/sdcard/screenrecord.pid"];
        let mut r: Vec<Vec<String>> = Vec::new();
        r.push(self.device_args(serial, &a));
        r.push(self.device_args(serial, &b));
        r.push(self.device_args(serial, &c));
        assert(group_views(r@) =~~= seq![
            seq!["-s"@, serial@, "pull"@, "/sdcard/demo.mp4"@, out@],
            seq!["-s"@, serial@, "shell"@, "rm"@, "/sdcard/demo.mp4"@],
            seq!["-s"@, serial@, "shell"@, "rm"@, "/sdcard/screenrecord.pid"@],
        ]);
        r
    }

    /// Whether recording succeeded, given whether the recorder ended with a
    /// success status.
    pub fn record_outcome(&self, success: bool) -> (r: Result<(), Error>)
        ensures
            r is Ok <==> success,
            r matches Err(e) ==> e is RecordingFailed,
    {
        if success {
            Ok(())
        } else {
            Err(Error::RecordingFailed)
        }
    }

    /// The arguments of `logcat` for `serial`, limited to one process when
    /// `pid` is given (`--pid=<pid>`).
    pub fn logcat(&self, serial: &str, pid: Option<&str>) -> (r: Vec<String>)
        ensures
            string_views(r@) == seq!["-s"@, serial@, "logcat"@] + match pid {
                Some(p) => seq!["--pid="@ + p@],
                None => seq![],
            },
    {
        let args = ["logcat"];
        let mut r = self.device_args(serial, &args);
        let ghost before = string_views(r@);
        match pid {
            Some(p) => {
                let mut a = String::from_str("--pid=");
                a.append(p);
                r.push(a);
                assert(string_views(r@) =~= before + seq!["--pid="@ + p@]);
            },
            None => {
                assert(string_views(r@) =~= before + seq![]);
            },
        }
        r
    }
}

/// Where to save a file: inside `dest` under `default_name` when `dest` is
/// a directory, `dest` itself otherwise, and `default_name` in the working
/// directory `cwd` when no destination is given.
pub fn resolve_output(dest: Option<String>, dest_is_dir: bool, cwd: &str, default_name: &str) -> (r:
    String)
    ensures
        r@ == match dest {
            Some(p) => if dest_is_dir {
                path_joined(p@, default_name@)
            } else {
                p@
            },
            None => path_joined(cwd@, default_name@),
        },
{
    match dest {
        Some(p) => if dest_is_dir {
            path_join(p.as_str(), default_name)
        } else {
            p
        },
        None => path_join(cwd, default_name),
    }
}

// ---------------------------------------------------------------------------
// Laws
// ---------------------------------------------------------------------------

/// `parse_ssid` never reports a placeholder: what it finds is non-empty and
/// neither `<unknown ssid>` nor `0x0`.
pub proof fn ssid_is_never_a_placeholder(ls: Seq<Seq<char>>)
    ensures
        first_ssid(ls) matches Some(s) ==> s.len() > 0 && s != "<unknown ssid>"@ && s != "0x0"@,
    decreases ls.len(),
{
    if ls.len() > 0 {
        ssid_is_never_a_placeholder(ls.drop_first());
    }
}

/// `a` goes no later than `b` in the package list: its lower-cased form does
/// not sort after that of `b`.
pub open spec fn name_leq(a: Seq<char>, b: Seq<char>) -> bool {
    !seq_lt(unicode_lowercase(b), unicode_lowercase(a))
}

proof fn lemma_insert_pos(p: Seq<Seq<char>>, x: Seq<char>, j: int)
    requires
        0 <= j <= p.len(),
    ensures
        j <= insert_pos(p, x, j) <= p.len(),
        forall|i: int| j <= i < insert_pos(p, x, j) ==> name_leq(#[trigger] p[i], x),
        insert_pos(p, x, j) < p.len() ==> seq_lt(
            unicode_lowercase(x),
            unicode_lowercase(p[insert_pos(p, x, j)]),
        ),
    decreases p.len() - j,
{
    if j < p.len() && !seq_lt(unicode_lowercase(x), unicode_lowercase(p[j])) {
        lemma_insert_pos(p, x, j + 1);
    }
}

proof fn lemma_name_leq_transitive(a: Seq<char>, b: Seq<char>, c: Seq<char>)
    requires
        name_leq(a, b),
        name_leq(b, c),
    ensures
        name_leq(a, c),
{
    let (la, lb, lc) = (unicode_lowercase(a), unicode_lowercase(b), unicode_lowercase(c));
    lemma_seq_lt_total(la, lb);
    lemma_seq_lt_total(lb, lc);
    lemma_seq_lt_total(la, lc);
    if seq_lt(lc, la) {
        if seq_lt(la, lb) {
            lemma_seq_lt_transitive(lc, la, lb);
        } else {
            assert(la == lb);
        }
    }
}

/// The package list `list_packages` gives is sorted case-insensitively, and
/// holds exactly the listed names, each as often as listed.
pub proof fn package_list_is_sorted_permutation(s: Seq<Seq<char>>)
    ensures
        forall|i: int, j: int|
            0 <= i < j < sort_by_lowercase(s).len() ==> name_leq(
                #[trigger] sort_by_lowercase(s)[i],
                #[trigger] sort_by_lowercase(s)[j],
            ),
        sort_by_lowercase(s).to_multiset() == s.to_multiset(),
    decreases s.len(),
{
    if s.len() > 0 {
        let d = s.drop_last();
        let x = s.last();
        package_list_is_sorted_permutation(d);
        let p = sort_by_lowercase(d);
        let k = insert_pos(p, x, 0);
        lemma_insert_pos(p, x, 0);
        let r = p.insert(k, x);
        assert(r == sort_by_lowercase(s));
        vstd::seq_lib::to_multiset_insert(p, k, x);
        vstd::seq_lib::to_multiset_build(d, x);
        assert(s =~= d.push(x));
        if k < p.len() {
            lemma_seq_lt_total(unicode_lowercase(x), unicode_lowercase(p[k]));
        }
        assert forall|i: int, j: int| 0 <= i < j < r.len() implies name_leq(
            #[trigger] r[i],
            #[trigger] r[j],
        ) by {
            if j < k {
                assert(name_leq(p[i], p[j]));
            } else if j == k {
                assert(name_leq(p[i], x));
            } else if i < k {
                assert(name_leq(p[i], x));
                assert(name_leq(x, p[k]));
                if k < j - 1 {
                    assert(name_leq(p[k], p[j - 1]));
                    lemma_name_leq_transitive(x, p[k], p[j - 1]);
                }
                lemma_name_leq_transitive(p[i], x, p[j - 1]);
            } else if i == k {
                assert(name_leq(x, p[k]));
                if k < j - 1 {
                    assert(name_leq(p[k], p[j - 1]));
                    lemma_name_leq_transitive(x, p[k], p[j - 1]);
                }
            } else {
                assert(name_leq(p[i - 1], p[j - 1]));
            }
        }
    } else {
        assert(sort_by_lowercase(s) =~= s);
    }
}

/// Whether a name's lower-cased form is `k`.
pub open spec fn has_key(k: Seq<char>) -> spec_fn(Seq<char>) -> bool {
    |x: Seq<char>| unicode_lowercase(x) == k
}

proof fn lemma_filter_none(q: Seq<Seq<char>>, f: spec_fn(Seq<char>) -> bool)
    requires
        forall|i: int| 0 <= i < q.len() ==> !f(#[trigger] q[i]),
    ensures
        q.filter(f) == Seq::<Seq<char>>::empty(),
    decreases q.len(),
{
    reveal(Seq::filter);
    if q.len() > 0 {
        let d = q.drop_last();
        assert forall|i: int| 0 <= i < d.len() implies !f(#[trigger] d[i]) by {
            assert(d[i] == q[i]);
        }
        lemma_filter_none(d, f);
        assert(!f(q[q.len() - 1]));
    }
}

/// The package sort is stable: names whose lower-cased forms are equal (to
/// any `k`) keep the order in which they were listed.
pub proof fn package_list_is_stable(s: Seq<Seq<char>>, k: Seq<char>)
    ensures
        sort_by_lowercase(s).filter(has_key(k)) == s.filter(has_key(k)),
    decreases s.len(),
{
    reveal(Seq::filter);
    let f = has_key(k);
    if s.len() > 0 {
        let d = s.drop_last();
        let x = s.last();
        package_list_is_stable(d, k);
        package_list_is_sorted_permutation(d);
        let p = sort_by_lowercase(d);
        let pos = insert_pos(p, x, 0);
        lemma_insert_pos(p, x, 0);
        let a = p.subrange(0, pos);
        let b = p.subrange(pos, p.len() as int);
        let r = p.insert(pos, x);
        assert(r == sort_by_lowercase(s));
        assert(r =~= (a + seq![x]) + b);
        assert(p =~= a + b);
        Seq::filter_distributes_over_add(a + seq![x], b, f);
        Seq::filter_distributes_over_add(a, seq![x], f);
        Seq::filter_distributes_over_add(a, b, f);
        assert(seq![x].drop_last() =~= Seq::<Seq<char>>::empty());
        assert(seq![x].last() == x);
        if f(x) {
            assert forall|j: int| 0 <= j < b.len() implies !f(#[trigger] b[j]) by {
                let lx = unicode_lowercase(x);
                let lp = unicode_lowercase(p[pos]);
                let lq = unicode_lowercase(p[pos + j]);
                assert(b[j] == p[pos + j]);
                if j > 0 {
                    assert(name_leq(p[pos], p[pos + j]));
                    lemma_seq_lt_total(lp, lq);
                    if seq_lt(lp, lq) {
                        lemma_seq_lt_transitive(lx, lp, lq);
                    }
                }
                lemma_seq_lt_irreflexive(lx);
                assert(lq != lx);
            }
            lemma_filter_none(b, f);
            assert(b.filter(f) =~= Seq::<Seq<char>>::empty());
            assert(s.filter(f) == d.filter(f).push(x));
            assert(r.filter(f) =~= a.filter(f).push(x));
            assert(p.filter(f) =~= a.filter(f));
        } else {
            assert(s.filter(f) == d.filter(f));
            assert(seq![x].filter(f) == seq![x].drop_last().filter(f));
            assert(Seq::<Seq<char>>::empty().filter(f) =~= Seq::<Seq<char>>::empty());
            assert(seq![x].filter(f) =~= Seq::<Seq<char>>::empty());
            assert((a + seq![x]).filter(f) =~= a.filter(f));
            assert(r.filter(f) =~= a.filter(f) + b.filter(f));
        }
    } else {
        assert(sort_by_lowercase(s) =~= s);
    }
}

/// The reported address is the first one (smallest index) that is not the
/// loopback `127.0.0.1`: every earlier address is the loopback. There is
/// none exactly when every address is the loopback.
pub proof fn network_ip_is_first_non_loopback(ips: Seq<Seq<char>>)
    ensures
        match first_non_loopback(ips) {
            Some(a) => exists|i: int|
                0 <= i < ips.len() && #[trigger] ips[i] == a && a != "127.0.0.1"@ && forall|j: int|
                    0 <= j < i ==> #[trigger] ips[j] == "127.0.0.1"@,
            None => forall|i: int| 0 <= i < ips.len() ==> #[trigger] ips[i] == "127.0.0.1"@,
        },
    decreases ips.len(),
{
    if ips.len() > 0 {
        let rest = ips.drop_first();
        network_ip_is_first_non_loopback(rest);
        if ips[0] == "127.0.0.1"@ {
            match first_non_loopback(rest) {
                Some(a) => {
                    let i = choose|i: int|
                        0 <= i < rest.len() && #[trigger] rest[i] == a && a != "127.0.0.1"@
                            && forall|j: int| 0 <= j < i ==> #[trigger] rest[j] == "127.0.0.1"@;
                    assert(ips[i + 1] == a);
                    assert forall|j: int| 0 <= j < i + 1 implies #[trigger] ips[j] == "127.0.0.1"@ by {
                        if j > 0 {
                            assert(ips[j] == rest[j - 1]);
                        }
                    }
                },
                None => {
                    assert forall|i: int| 0 <= i < ips.len() implies #[trigger] ips[i] == "127.0.0.1"@ by {
                        if i > 0 {
                            assert(ips[i] == rest[i - 1]);
                        }
                    }
                },
            }
        } else {
            assert(ips[0] == ips[0]);
        }
    }
}

/// The APK path of `package` comes from the first non-empty listing line
/// whose text, without `package:` and trimmed, ends with the trimmed package
/// name (a line of another package that merely contains the name is
/// skipped); the path is that text without `=package`. There is none
/// exactly when no line qualifies.
pub proof fn apk_path_is_from_first_matching_line(ls: Seq<Seq<char>>, package: Seq<char>)
    ensures
        match apk_path_in(ls, package) {
            Some(p) => exists|i: int|
                0 <= i < ls.len() && (#[trigger] ls[i]).len() > 0 && ends_with(
                    trim(replace_all(ls[i], "package:"@, seq![])),
                    trim(package),
                ) && p == replace_all(
                    replace_all(ls[i], "package:"@, seq![]),
                    seq!['='] + package,
                    seq![],
                ) && forall|j: int|
                    0 <= j < i ==> !((#[trigger] ls[j]).len() > 0 && ends_with(
                        trim(replace_all(ls[j], "package:"@, seq![])),
                        trim(package),
                    )),
            None => forall|i: int|
                0 <= i < ls.len() ==> !((#[trigger] ls[i]).len() > 0 && ends_with(
                    trim(replace_all(ls[i], "package:"@, seq![])),
                    trim(package),
                )),
        },
    decreases ls.len(),
{
    if ls.len() > 0 {
        let rest = ls.drop_first();
        apk_path_is_from_first_matching_line(rest, package);
        let l = ls[0];
        let hit = l.len() > 0 && ends_with(trim(replace_all(l, "package:"@, seq![])), trim(package));
        if !hit {
            match apk_path_in(rest, package) {
                Some(p) => {
                    let i = choose|i: int|
                        0 <= i < rest.len() && (#[trigger] rest[i]).len() > 0 && ends_with(
                            trim(replace_all(rest[i], "package:"@, seq![])),
                            trim(package),
                        ) && p == replace_all(
                            replace_all(rest[i], "package:"@, seq![]),
                            seq!['='] + package,
                            seq![],
                        ) && forall|j: int|
                            0 <= j < i ==> !((#[trigger] rest[j]).len() > 0 && ends_with(
                                trim(replace_all(rest[j], "package:"@, seq![])),
                                trim(package),
                            ));
                    assert(ls[i + 1] == rest[i]);
                    assert forall|j: int| 0 <= j < i + 1 implies !((#[trigger] ls[j]).len() > 0
                        && ends_with(trim(replace_all(ls[j], "package:"@, seq![])), trim(package))) by {
                        if j > 0 {
                            assert(ls[j] == rest[j - 1]);
                        }
                    }
                },
                None => {
                    assert forall|i: int| 0 <= i < ls.len() implies !((#[trigger] ls[i]).len() > 0
                        && ends_with(trim(replace_all(ls[i], "package:"@, seq![])), trim(package))) by {
                        if i > 0 {
                            assert(ls[i] == rest[i - 1]);
                        }
                    }
                },
            }
        } else {
            assert(ls[0] == l);
        }
    }
}

/// Each recorded device property is tied to its own `getprop` key: the
/// model to `ro.product.model`, the Android version to
/// `ro.build.version.release`, the codename to `ro.build.version.codename`,
/// and so on for every field.
pub proof fn device_info_keys_name_their_fields(d: DeviceInfo)
    ensures
        info_keys().len() == 13,
        info_keys()[0] == "ro.product.model"@ && info_fields(d)[0] == opt_view(d.model),
        info_keys()[1] == "ro.product.manufacturer"@ && info_fields(d)[1] == opt_view(d.manufacturer),
        info_keys()[2] == "ro.product.brand"@ && info_fields(d)[2] == opt_view(d.brand),
        info_keys()[3] == "ro.product.device"@ && info_fields(d)[3] == opt_view(d.device),
        info_keys()[4] == "ro.product.name"@ && info_fields(d)[4] == opt_view(d.name),
        info_keys()[5] == "ro.build.version.release"@ && info_fields(d)[5] == opt_view(
            d.android_version,
        ),
        info_keys()[6] == "ro.build.version.sdk"@ && info_fields(d)[6] == opt_view(d.sdk),
        info_keys()[7] == "ro.build.version.codename"@ && info_fields(d)[7] == opt_view(d.codename),
        info_keys()[8] == "ro.product.board"@ && info_fields(d)[8] == opt_view(d.board),
        info_keys()[9] == "ro.product.cpu.abi"@ && info_fields(d)[9] == opt_view(d.cpu_abi),
        info_keys()[10] == "ro.product.locale"@ && info_fields(d)[10] == opt_view(d.locale),
        info_keys()[11] == "ro.build.id"@ && info_fields(d)[11] == opt_view(d.build_id),
        info_keys()[12] == "ro.build.version.security_patch"@ && info_fields(d)[12] == opt_view(
            d.security_patch,
        ),
{
}

/// The SSID reported is the one of the first line that shows a real SSID.
pub proof fn ssid_is_from_first_showing_line(ls: Seq<Seq<char>>)
    ensures
        match first_ssid(ls) {
            Some(s) => exists|i: int|
                0 <= i < ls.len() && ssid_in_line(#[trigger] ls[i]) == Some(s) && forall|j: int|
                    0 <= j < i ==> ssid_in_line(#[trigger] ls[j]) is None,
            None => forall|i: int| 0 <= i < ls.len() ==> ssid_in_line(#[trigger] ls[i]) is None,
        },
    decreases ls.len(),
{
    if ls.len() > 0 {
        let rest = ls.drop_first();
        ssid_is_from_first_showing_line(rest);
        if ssid_in_line(ls[0]) is None {
            match first_ssid(rest) {
                Some(s) => {
                    let i = choose|i: int|
                        0 <= i < rest.len() && ssid_in_line(#[trigger] rest[i]) == Some(s)
                            && forall|j: int| 0 <= j < i ==> ssid_in_line(#[trigger] rest[j]) is None;
                    assert(ls[i + 1] == rest[i]);
                    assert forall|j: int| 0 <= j < i + 1 implies ssid_in_line(#[trigger] ls[j]) is None by {
                        if j > 0 {
                            assert(ls[j] == rest[j - 1]);
                        }
                    }
                },
                None => {
                    assert forall|i: int| 0 <= i < ls.len() implies ssid_in_line(#[trigger] ls[i]) is None by {
                        if i > 0 {
                            assert(ls[i] == rest[i - 1]);
                        }
                    }
                },
            }
        } else {
            assert(ls[0] == ls[0]);
        }
    }
}

/// A property takes the value of the last `getprop` line that sets it;
/// it has none when no line sets it.
pub proof fn property_is_from_last_setting_line(ls: Seq<Seq<char>>, key: Seq<char>)
    ensures
        match last_prop(ls, key) {
            Some(v) => exists|i: int|
                0 <= i < ls.len() && getprop_pair(#[trigger] ls[i]) == Some((key, v)) && forall|j: int|
                    i < j < ls.len() ==> !(getprop_pair(#[trigger] ls[j]) matches Some(p) && p.0 == key),
            None => forall|i: int|
                0 <= i < ls.len() ==> !(getprop_pair(#[trigger] ls[i]) matches Some(p) && p.0 == key),
        },
    decreases ls.len(),
{
    if ls.len() > 0 {
        let d = ls.drop_last();
        property_is_from_last_setting_line(d, key);
        let n = ls.len() - 1;
        let sets = getprop_pair(ls[n]) matches Some(p) && p.0 == key;
        if !sets {
            match last_prop(d, key) {
                Some(v) => {
                    let i = choose|i: int|
                        0 <= i < d.len() && getprop_pair(#[trigger] d[i]) == Some((key, v)) && forall|j: int|
                            i < j < d.len() ==> !(getprop_pair(#[trigger] d[j]) matches Some(p) && p.0 == key);
                    assert(ls[i] == d[i]);
                    assert forall|j: int| i < j < ls.len() implies !(getprop_pair(#[trigger] ls[j]) matches Some(p)
                        && p.0 == key) by {
                        if j < n {
                            assert(ls[j] == d[j]);
                        }
                    }
                },
                None => {
                    assert forall|i: int| 0 <= i < ls.len() implies !(getprop_pair(#[trigger] ls[i]) matches Some(p)
                        && p.0 == key) by {
                        if i < n {
                            assert(ls[i] == d[i]);
                        }
                    }
                },
            }
        } else {
            assert(ls[n] == ls.last());
        }
    }
}

} // verus!
