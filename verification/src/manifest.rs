//! Lightweight `AndroidManifest.xml` reading for **source** (text) manifests:
//! finds the launcher activity and the declared package by string scanning.
use vstd::prelude::*;
use crate::text::{
    chars_of, contains, contains_exec, find_char_from, find_from, find_from_exec, is_whitespace,
    is_ws, lemma_find_from, slice_copy, starts_with, string_of,
};

verus! {

/// An optional string read as a sequence.
pub open spec fn opt_view(o: Option<String>) -> Option<Seq<char>> {
    match o {
        Some(s) => Some(s@),
        None => None,
    }
}

/// The value of `key="value"` or `key='value'`: double quotes are tried
/// first, and for each quote kind the first `key=` followed by it counts.
pub open spec fn attr_with(block: Seq<char>, key: Seq<char>, q: char) -> Option<Seq<char>> {
    let needle = key + seq!['=', q];
    match find_from(block, needle, 0) {
        Some(st) => {
            let from = st + needle.len();
            match find_char_from(block, q, from) {
                Some(e) => Some(block.subrange(from, e)),
                None => None,
            }
        },
        None => None,
    }
}

/// The value of attribute `key` in a tag or block.
pub open spec fn attr_of(block: Seq<char>, key: Seq<char>) -> Option<Seq<char>> {
    if attr_with(block, key, '"') is Some {
        attr_with(block, key, '"')
    } else {
        attr_with(block, key, '\'')
    }
}

/// An activity name resolved against the package: `.X` gives `pkg.X`, a name
/// without any `.` gives `pkg.name`, anything else stays.
pub open spec fn resolve_name(name: Seq<char>, package: Option<Seq<char>>) -> Seq<char> {
    match package {
        Some(pkg) => if starts_with(name, seq!['.']) {
            pkg + name
        } else if !name.contains('.') {
            pkg + seq!['.'] + name
        } else {
            name
        },
        None => name,
    }
}

/// The blocks of one tag from `pos` on. `open` is `<tag`, `close` is `</tag>`.
/// A tag counts only when the name ends right after it (whitespace, `>` or
/// `/` follow); a self-closing tag is a block by itself; otherwise the block
/// runs to the next closing tag, and a tag without one is skipped.
pub open spec fn tag_blocks_from(x: Seq<char>, open: Seq<char>, close: Seq<char>, pos: int) -> Seq<
    Seq<char>,
>
    decreases x.len() - pos,
{
    if pos < 0 || pos > x.len() || open.len() == 0 || close.len() == 0 {
        seq![]
    } else {
        match find_from(x, open, pos) {
            None => seq![],
            Some(start) => {
                let after = start + open.len();
                if start < pos || after > x.len() {
                    seq![]
                } else if !(after < x.len() && (is_whitespace(x[after]) || x[after] == '>' || x[after]
                    == '/')) {
                    tag_blocks_from(x, open, close, after)
                } else {
                    match find_char_from(x, '>', start) {
                        None => seq![],
                        Some(te) => if te < start || te >= x.len() {
                            seq![]
                        } else if te >= 1 && x[te - 1] == '/' {
                            seq![x.subrange(start, te + 1)] + tag_blocks_from(x, open, close, te + 1)
                        } else {
                            match find_from(x, close, te) {
                                Some(ce) => if ce < te || ce + close.len() > x.len() {
                                    seq![]
                                } else {
                                    seq![x.subrange(start, ce + close.len())] + tag_blocks_from(
                                        x,
                                        open,
                                        close,
                                        ce + close.len(),
                                    )
                                },
                                None => tag_blocks_from(x, open, close, te + 1),
                            }
                        },
                    }
                }
            },
        }
    }
}

/// Every `<activity …>` block, then every `<activity-alias …>` block.
pub open spec fn activity_blocks_of(x: Seq<char>) -> Seq<Seq<char>> {
    tag_blocks_from(x, "<activity"@, "</activity>"@, 0) + tag_blocks_from(
        x,
        "<activity-alias"@,
        "</activity-alias>"@,
        0,
    )
}

/// A block declaring the MAIN action and the LAUNCHER category.
pub open spec fn is_launcher_block(b: Seq<char>) -> bool {
    contains(b, "android.intent.action.MAIN"@) && contains(b, "android.intent.category.LAUNCHER"@)
}

/// The first launcher block.
pub open spec fn first_launcher(bs: Seq<Seq<char>>) -> Option<Seq<char>>
    decreases bs.len(),
{
    if bs.len() == 0 {
        None
    } else if is_launcher_block(bs[0]) {
        Some(bs[0])
    } else {
        first_launcher(bs.drop_first())
    }
}

/// The `package` attribute of the opening `<manifest …>` tag.
pub open spec fn manifest_package_of(x: Seq<char>) -> Option<Seq<char>> {
    match find(x, "<manifest"@) {
        Some(st) => match find_char_from(x, '>', st) {
            Some(e) => attr_of(x.subrange(st, e + 1), "package"@),
            None => None,
        },
        None => None,
    }
}

/// The launcher activity: `android:name` of the first launcher block,
/// resolved against `package`, or else the manifest's own package. When that
/// block has no name there is no answer.
pub open spec fn launcher_activity_of(x: Seq<char>, package: Option<Seq<char>>) -> Option<
    Seq<char>,
> {
    let pkg = match package {
        Some(p) => Some(p),
        None => manifest_package_of(x),
    };
    match first_launcher(activity_blocks_of(x)) {
        None => None,
        Some(b) => match attr_of(b, "android:name"@) {
            Some(n) => Some(resolve_name(n, pkg)),
            None => None,
        },
    }
}

pub open spec fn find(h: Seq<char>, n: Seq<char>) -> Option<int> {
    find_from(h, n, 0)
}

pub fn attr_with_exec(block: &[char], key: &[char], q: char) -> (r: Option<Vec<char>>)
    ensures
        match r {
            Some(v) => attr_with(block@, key@, q) == Some(v@),
            None => attr_with(block@, key@, q) is None,
        },
{
    let mut needle = slice_copy(key, 0, key.len());
    needle.push('=');
    needle.push(q);
    assert(needle@ =~= key@ + seq!['=', q]);
    match find_from_exec(block, &needle, 0) {
        Some(st) => {
            proof {
                lemma_find_from(block@, needle@, 0);
            }
            assert(st + needle@.len() <= block@.len());
            assert(st + needle.len() <= block.len());
            let from = st + needle.len();
            let qs = [q];
            assert(qs@ == seq![q]);
            match find_from_exec(block, &qs, from) {
                Some(e) => {
                    proof {
                        lemma_find_from(block@, seq![q], from as int);
                    }
                    Some(slice_copy(block, from, e))
                },
                None => None,
            }
        },
        None => None,
    }
}

fn attr(block: &[char], key: &[char]) -> (r: Option<Vec<char>>)
    ensures
        match r {
            Some(v) => attr_of(block@, key@) == Some(v@),
            None => attr_of(block@, key@) is None,
        },
{
    match attr_with_exec(block, key, '"') {
        Some(v) => Some(v),
        None => attr_with_exec(block, key, '\''),
    }
}

fn resolve(name: &[char], package: &Option<Vec<char>>) -> (r: Vec<char>)
    ensures
        r@ == resolve_name(
            name@,
            match package {
                Some(p) => Some(p@),
                None => None,
            },
        ),
{
    match package {
        Some(pkg) => {
            let dot = ['.'];
            assert(dot@ == seq!['.']);
            if starts_with_dot(name) {
                let mut r = slice_copy(pkg, 0, pkg.len());
                let mut i: usize = 0;
                while i < name.len()
                    invariant
                        i <= name@.len(),
                        r@ == pkg@ + name@.subrange(0, i as int),
                    decreases name@.len() - i,
                {
                    r.push(name[i]);
                    i += 1;
                    assert(r@ =~= pkg@ + name@.subrange(0, i as int));
                }
                assert(name@.subrange(0, name@.len() as int) =~= name@);
                r
            } else if !contains_exec(name, &dot) {
                assert(!name@.contains('.')) by {
                    if name@.contains('.') {
                        let k = choose|k: int| 0 <= k < name@.len() && name@[k] == '.';
                        assert(name@.subrange(k, k + 1) =~= seq!['.']);
                        assert(crate::text::occurs_at(name@, seq!['.'], k));
                        assert(contains(name@, seq!['.']));
                    }
                }
                let mut r = slice_copy(pkg, 0, pkg.len());
                r.push('.');
                let ghost base = r@;
                let mut i: usize = 0;
                while i < name.len()
                    invariant
                        i <= name@.len(),
                        r@ == base + name@.subrange(0, i as int),
                    decreases name@.len() - i,
                {
                    r.push(name[i]);
                    i += 1;
                    assert(r@ =~= base + name@.subrange(0, i as int));
                }
                assert(name@.subrange(0, name@.len() as int) =~= name@);
                assert(r@ =~= pkg@ + seq!['.'] + name@);
                r
            } else {
                proof {
                    let k = choose|k: int| crate::text::occurs_at(name@, seq!['.'], k);
                    assert(crate::text::occurs_at(name@, seq!['.'], k));
                    assert(name@.subrange(k, k + 1)[0] == name@[k]);
                    assert(name@[k] == '.');
                    assert(name@.contains('.'));
                }
                slice_copy(name, 0, name.len())
            }
        },
        None => slice_copy(name, 0, name.len()),
    }
}

fn starts_with_dot(name: &[char]) -> (r: bool)
    ensures
        r == starts_with(name@, seq!['.']),
{
    if name.len() == 0 {
        return false;
    }
    let r = name[0] == '.';
    if r {
        assert(name@.subrange(0, 1) =~= seq!['.']);
    } else {
        assert(name@.subrange(0, 1)[0] != seq!['.'][0]);
    }
    r
}

fn tag_blocks(x: &[char], open: &[char], close: &[char], out: &mut Vec<Vec<char>>)
    ensures
        final(out)@.map_values(|b: Vec<char>| b@) == old(out)@.map_values(|b: Vec<char>| b@)
            + tag_blocks_from(x@, open@, close@, 0),
{
    let ghost init = out@.map_values(|b: Vec<char>| b@);
    if open.len() == 0 {
        assert(init + seq![] =~= init);
        return;
    }
    let gt = ['>'];
    assert(gt@ == seq!['>']);
    if close.len() == 0 {
        assert(init + seq![] =~= init);
        return;
    }
    let mut pos: usize = 0;
    while pos <= x.len()
        invariant
            open@.len() > 0,
            close@.len() > 0,
            init == old(out)@.map_values(|b: Vec<char>| b@),
            pos <= x@.len() + 1,
            gt@ == seq!['>'],
            init + tag_blocks_from(x@, open@, close@, 0) == out@.map_values(|b: Vec<char>| b@)
                + tag_blocks_from(x@, open@, close@, pos as int),
        decreases x@.len() + 1 - pos,
    {
        let ghost before = out@.map_values(|b: Vec<char>| b@);
        let start = match find_from_exec(x, open, pos) {
            None => {
                assert(before + seq![] =~= before);
                return;
            },
            Some(s) => s,
        };
        proof {
            lemma_find_from(x@, open@, pos as int);
        }
        let after = start + open.len();
        let exact = after < x.len() && (is_ws(x[after]) || x[after] == '>' || x[after] == '/');
        if !exact {
            pos = after;
        } else {
            let te = match find_from_exec(x, &gt, start) {
                None => {
                    assert(before + seq![] =~= before);
                    return;
                },
                Some(t) => t,
            };
            proof {
                lemma_find_from(x@, seq!['>'], start as int);
            }
            if te >= 1 && x[te - 1] == '/' {
                let b = slice_copy(x, start, te + 1);
                out.push(b);
                assert(out@.map_values(|b: Vec<char>| b@) =~= before.push(
                    x@.subrange(start as int, te + 1),
                ));
                assert(before + (seq![x@.subrange(start as int, te + 1)] + tag_blocks_from(
                    x@,
                    open@,
                    close@,
                    te + 1,
                )) =~= before.push(x@.subrange(start as int, te + 1)) + tag_blocks_from(
                    x@,
                    open@,
                    close@,
                    te + 1,
                ));
                pos = te + 1;
            } else {
                match find_from_exec(x, close, te) {
                    Some(ce) => {
                        proof {
                            lemma_find_from(x@, close@, te as int);
                        }
                        let end = ce + close.len();
                        let b = slice_copy(x, start, end);
                        out.push(b);
                        assert(out@.map_values(|b: Vec<char>| b@) =~= before.push(
                            x@.subrange(start as int, end as int),
                        ));
                        assert(before + (seq![x@.subrange(start as int, end as int)]
                            + tag_blocks_from(x@, open@, close@, end as int)) =~= before.push(
                            x@.subrange(start as int, end as int),
                        ) + tag_blocks_from(x@, open@, close@, end as int));
                        pos = end;
                    },
                    None => {
                        pos = te + 1;
                    },
                }
            }
        }
    }
}

fn activity_blocks(x: &[char]) -> (r: Vec<Vec<char>>)
    ensures
        r@.map_values(|b: Vec<char>| b@) == activity_blocks_of(x@),
{
    let mut out: Vec<Vec<char>> = Vec::new();
    let o1 = chars_of("<activity");
    let c1 = chars_of("</activity>");
    let o2 = chars_of("<activity-alias");
    let c2 = chars_of("</activity-alias>");
    assert(out@.map_values(|b: Vec<char>| b@) =~= seq![]);
    tag_blocks(x, &o1, &c1, &mut out);
    tag_blocks(x, &o2, &c2, &mut out);
    assert(out@.map_values(|b: Vec<char>| b@) =~= activity_blocks_of(x@));
    out
}

fn is_launcher(b: &[char]) -> (r: bool)
    ensures
        r == is_launcher_block(b@),
{
    let main = chars_of("android.intent.action.MAIN");
    let launcher = chars_of("android.intent.category.LAUNCHER");
    contains_exec(b, &main) && contains_exec(b, &launcher)
}

fn manifest_package_chars(x: &[char]) -> (r: Option<Vec<char>>)
    ensures
        match r {
            Some(v) => manifest_package_of(x@) == Some(v@),
            None => manifest_package_of(x@) is None,
        },
{
    let m = chars_of("<manifest");
    let st = match find_from_exec(x, &m, 0) {
        Some(s) => s,
        None => {
            return None;
        },
    };
    let gt = ['>'];
    assert(gt@ == seq!['>']);
    let e = match find_from_exec(x, &gt, st) {
        Some(e) => e,
        None => {
            return None;
        },
    };
    proof {
        lemma_find_from(x@, seq!['>'], st as int);
        lemma_find_from(x@, m@, 0);
    }
    assert(e < x.len());
    let tag = slice_copy(x, st, e + 1);
    let key = chars_of("package");
    attr(&tag, &key)
}

/// Read the legacy `package="..."` attribute of the `<manifest>` tag.
pub fn manifest_package(manifest_xml: &str) -> (r: Option<String>)
    ensures
        opt_view(r) == manifest_package_of(manifest_xml@),
{
    let x = chars_of(manifest_xml);
    match manifest_package_chars(&x) {
        Some(v) => Some(string_of(&v)),
        None => None,
    }
}

/// Find the launcher activity in a manifest's XML text: the `android:name` of
/// the first `<activity>` or `<activity-alias>` declaring the MAIN action and
/// LAUNCHER category, resolved to a fully-qualified class when relative
/// (against `package`, the runtime applicationId, or else the manifest's own
/// `package` attribute).
pub fn launcher_activity(manifest_xml: &str, package: Option<&str>) -> (r: Option<String>)
    ensures
        opt_view(r) == launcher_activity_of(
            manifest_xml@,
            match package {
                Some(p) => Some(p@),
                None => None,
            },
        ),
{
    let x = chars_of(manifest_xml);
    let pkg: Option<Vec<char>> = match package {
        Some(p) => Some(chars_of(p)),
        None => manifest_package_chars(&x),
    };
    let blocks = activity_blocks(&x);
    let ghost bs = blocks@.map_values(|b: Vec<char>| b@);
    let key = chars_of("android:name");
    let mut i: usize = 0;
    assert(bs.subrange(0, bs.len() as int) =~= bs);
    while i < blocks.len()
        invariant
            i <= blocks@.len() == bs.len(),
            bs == blocks@.map_values(|b: Vec<char>| b@),
            bs == activity_blocks_of(x@),
            x@ == manifest_xml@,
            key@ == "android:name"@,
            match pkg {
                Some(p) => Some(p@),
                None => None,
            } == match package {
                Some(p) => Some(p@),
                None => manifest_package_of(manifest_xml@),
            },
            first_launcher(bs) == first_launcher(bs.subrange(i as int, bs.len() as int)),
        decreases blocks@.len() - i,
    {
        assert(bs.subrange(i as int, bs.len() as int)[0] == blocks@[i as int]@);
        if is_launcher(&blocks[i]) {
            return match attr(&blocks[i], &key) {
                Some(n) => Some(string_of(&resolve(&n, &pkg))),
                None => None,
            };
        }
        assert(bs.subrange(i as int, bs.len() as int).drop_first() =~= bs.subrange(
            i + 1,
            bs.len() as int,
        ));
        i += 1;
    }
    None
}

// ---------------------------------------------------------------------------
// Laws
// ---------------------------------------------------------------------------

/// The launcher block is the first block that declares both the exact
/// action `android.intent.action.MAIN` and the exact category
/// `android.intent.category.LAUNCHER` (a `LEANBACK_LAUNCHER` category alone
/// does not count); there is none when no block declares both.
pub proof fn launcher_is_first_main_launcher_block(bs: Seq<Seq<char>>)
    ensures
        match first_launcher(bs) {
            Some(b) => exists|i: int|
                0 <= i < bs.len() && #[trigger] bs[i] == b && contains(
                    b,
                    "android.intent.action.MAIN"@,
                ) && contains(b, "android.intent.category.LAUNCHER"@) && forall|j: int|
                    0 <= j < i ==> !(contains(#[trigger] bs[j], "android.intent.action.MAIN"@)
                        && contains(bs[j], "android.intent.category.LAUNCHER"@)),
            None => forall|i: int|
                0 <= i < bs.len() ==> !(contains(#[trigger] bs[i], "android.intent.action.MAIN"@)
                    && contains(bs[i], "android.intent.category.LAUNCHER"@)),
        },
    decreases bs.len(),
{
    if bs.len() > 0 {
        let rest = bs.drop_first();
        launcher_is_first_main_launcher_block(rest);
        if !is_launcher_block(bs[0]) {
            match first_launcher(rest) {
                Some(b) => {
                    let i = choose|i: int|
                        0 <= i < rest.len() && #[trigger] rest[i] == b && contains(
                            b,
                            "android.intent.action.MAIN"@,
                        ) && contains(b, "android.intent.category.LAUNCHER"@) && forall|j: int|
                            0 <= j < i ==> !(contains(
                                #[trigger] rest[j],
                                "android.intent.action.MAIN"@,
                            ) && contains(rest[j], "android.intent.category.LAUNCHER"@));
                    assert(bs[i + 1] == b);
                    assert forall|j: int| 0 <= j < i + 1 implies !(contains(
                        #[trigger] bs[j],
                        "android.intent.action.MAIN"@,
                    ) && contains(bs[j], "android.intent.category.LAUNCHER"@)) by {
                        if j > 0 {
                            assert(bs[j] == rest[j - 1]);
                        }
                    }
                },
                None => {
                    assert forall|i: int| 0 <= i < bs.len() implies !(contains(
                        #[trigger] bs[i],
                        "android.intent.action.MAIN"@,
                    ) && contains(bs[i], "android.intent.category.LAUNCHER"@)) by {
                        if i > 0 {
                            assert(bs[i] == rest[i - 1]);
                        }
                    }
                },
            }
        } else {
            assert(bs[0] == bs[0]);
        }
    }
}

} // verus!
