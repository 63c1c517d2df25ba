//! Static project discovery: modules, build variants, applicationId and
//! launcher activity, computed from the text of a project's Gradle files and
//! manifest without running Gradle.
//!
//! Known limitations, by design: the build types `debug` and `release` are
//! always taken to exist, product-flavor `applicationId` overrides or
//! suffixes are not applied to the base id, and deeply dynamic Gradle may need
//! Gradle's own task listing instead.
use vstd::prelude::*;
use crate::error::Error;
use crate::manifest::{launcher_activity, launcher_activity_of, opt_view};
use crate::model::{AndroidProject, Module, Variant};
use crate::text::{capitalize as cap_spec, chars_of, eq, string_of};
use crate::project::dsl::{
    application_id, application_id_of, applies_app_plugin, block_body, block_body_of,
    child_block_names, child_names_of, flavor_dimensions, flavor_groups_of, group_views,
    included_modules, included_modules_of, is_application_module, project_dir, project_dir_of,
    string_views, child_block_names_are_distinct,
};

pub mod cache;
pub mod dsl;

verus! {

// ---------------------------------------------------------------------------
// Variants
// ---------------------------------------------------------------------------

/// A variant as plain sequences: name, build type, flavors.
pub open spec fn variant_view(v: Variant) -> (Seq<char>, Seq<char>, Seq<Seq<char>>) {
    (v.name@, v.build_type@, string_views(v.flavors@))
}

/// Variants as plain sequences.
pub open spec fn variant_views(vs: Seq<Variant>) -> Seq<(Seq<char>, Seq<char>, Seq<Seq<char>>)> {
    vs.map_values(|v: Variant| variant_view(v))
}

/// The flavor part of a variant name: the first flavor as is, each later one
/// capitalized.
pub open spec fn flavor_prefix(fs: Seq<Seq<char>>) -> Seq<char>
    decreases fs.len(),
{
    if fs.len() == 0 {
        seq![]
    } else if fs.len() == 1 {
        fs[0]
    } else {
        flavor_prefix(fs.drop_last()) + cap_spec(fs.last())
    }
}

/// camelCase variant name: `[dev] + debug` gives `devDebug`;
/// `[free, blue] + release` gives `freeBlueRelease`.
pub open spec fn variant_name_of(fs: Seq<Seq<char>>, build_type: Seq<char>) -> Seq<char> {
    flavor_prefix(fs) + cap_spec(build_type)
}

/// Each prefix extended by each item of `group`, prefixes outermost.
pub open spec fn extend_all(prefixes: Seq<Seq<Seq<char>>>, group: Seq<Seq<char>>) -> Seq<
    Seq<Seq<char>>,
>
    decreases prefixes.len(),
{
    if prefixes.len() == 0 {
        seq![]
    } else {
        extend_all(prefixes.drop_last(), group) + group.map_values(
            |x: Seq<char>| prefixes.last().push(x),
        )
    }
}

/// The Cartesian product of ordered groups, earlier groups varying slowest.
pub open spec fn cartesian_of(groups: Seq<Seq<Seq<char>>>) -> Seq<Seq<Seq<char>>>
    decreases groups.len(),
{
    if groups.len() == 0 {
        seq![seq![]]
    } else {
        extend_all(cartesian_of(groups.drop_last()), groups.last())
    }
}

/// `debug` and `release` added when missing, in that order.
pub open spec fn with_default_build_types(declared: Seq<Seq<char>>) -> Seq<Seq<char>> {
    let d1 = if declared.contains("debug"@) {
        declared
    } else {
        declared.push("debug"@)
    };
    if d1.contains("release"@) {
        d1
    } else {
        d1.push("release"@)
    }
}

/// `debug` first, then `release`, then the rest in their order (a stable sort
/// by that rank).
pub open spec fn debug_first(bts: Seq<Seq<char>>) -> Seq<Seq<char>> {
    bts.filter(|b: Seq<char>| b == "debug"@) + bts.filter(|b: Seq<char>| b == "release"@)
        + bts.filter(|b: Seq<char>| b != "debug"@ && b != "release"@)
}

/// The `android` body of a build script, empty when there is none.
pub open spec fn android_of(build_script: Seq<char>) -> Seq<char> {
    match block_body_of(build_script, "android"@) {
        Some(a) => a,
        None => seq![],
    }
}

/// The build types of an `android` body: declared ones, plus `debug` and
/// `release`, debug first.
pub open spec fn build_types_of(android: Seq<char>) -> Seq<Seq<char>> {
    let body = match block_body_of(android, "buildTypes"@) {
        Some(b) => b,
        None => seq![],
    };
    debug_first(with_default_build_types(child_names_of(body)))
}

/// Each flavor combination crossed with each build type, combinations
/// outermost.
pub open spec fn cross(combos: Seq<Seq<Seq<char>>>, bts: Seq<Seq<char>>) -> Seq<
    (Seq<char>, Seq<char>, Seq<Seq<char>>),
>
    decreases combos.len(),
{
    if combos.len() == 0 {
        seq![]
    } else {
        cross(combos.drop_last(), bts) + bts.map_values(
            |bt: Seq<char>| (variant_name_of(combos.last(), bt), bt, combos.last()),
        )
    }
}

/// The variants of a module build script: one per build type without
/// flavors, else every flavor combination times every build type.
pub open spec fn variants_of(build_script: Seq<char>) -> Seq<(Seq<char>, Seq<char>, Seq<Seq<char>>)> {
    let a = android_of(build_script);
    let bts = build_types_of(a);
    let dims = flavor_groups_of(a);
    if dims.len() == 0 {
        bts.map_values(|bt: Seq<char>| (bt, bt, Seq::<Seq<char>>::empty()))
    } else {
        cross(cartesian_of(dims), bts)
    }
}

fn copy_strings(v: &Vec<String>) -> (r: Vec<String>)
    ensures
        string_views(r@) == string_views(v@),
{
    let mut r: Vec<String> = Vec::new();
    let mut i: usize = 0;
    while i < v.len()
        invariant
            i <= v@.len(),
            r@.len() == i,
            forall|k: int| 0 <= k < i ==> (#[trigger] r@[k])@ == v@[k]@,
        decreases v@.len() - i,
    {
        r.push(v[i].clone());
        i += 1;
    }
    assert(string_views(r@) =~= string_views(v@));
    r
}

/// camelCase variant name from flavors and a build type.
pub fn variant_name(flavors: &[String], build_type: &str) -> (r: String)
    ensures
        r@ == variant_name_of(flavors@.map_values(|s: String| s@), build_type@),
{
    let ghost fs = flavors@.map_values(|s: String| s@);
    let mut name = String::new();
    let mut i: usize = 0;
    while i < flavors.len()
        invariant
            i <= flavors@.len(),
            fs == flavors@.map_values(|s: String| s@),
            name@ == flavor_prefix(fs.subrange(0, i as int)),
        decreases flavors@.len() - i,
    {
        proof {
            assert(fs.subrange(0, i + 1).drop_last() =~= fs.subrange(0, i as int));
            assert(fs.subrange(0, i + 1).last() == flavors@[i as int]@);
            if i == 0 {
                assert(fs.subrange(0, 1)[0] == flavors@[0]@);
            }
        }
        if i == 0 {
            name.append(flavors[i].as_str());
            assert(name@ =~= flavor_prefix(fs.subrange(0, i + 1)));
        } else {
            let c = crate::model::capitalize(flavors[i].as_str());
            name.append(c.as_str());
        }
        i += 1;
    }
    assert(fs.subrange(0, fs.len() as int) =~= fs);
    let c = crate::model::capitalize(build_type);
    name.append(c.as_str());
    name
}

/// Cartesian product of ordered dimension groups, preserving order.
pub fn cartesian(groups: &[Vec<String>]) -> (r: Vec<Vec<String>>)
    ensures
        group_views(r@) == cartesian_of(group_views(groups@)),
{
    let ghost gs = group_views(groups@);
    let mut result: Vec<Vec<String>> = Vec::new();
    result.push(Vec::new());
    assert(string_views(result@[0]@) =~= Seq::<Seq<char>>::empty());
    assert(group_views(result@) =~= seq![seq![]]);
    assert(gs.subrange(0, 0) =~= Seq::<Seq<Seq<char>>>::empty());
    let mut gi: usize = 0;
    while gi < groups.len()
        invariant
            gi <= groups@.len(),
            gs == group_views(groups@),
            group_views(result@) == cartesian_of(gs.subrange(0, gi as int)),
        decreases groups@.len() - gi,
    {
        let group = &groups[gi];
        let ghost gv = string_views(group@);
        let ghost prev = group_views(result@);
        let mut next: Vec<Vec<String>> = Vec::new();
        let mut pi: usize = 0;
        while pi < result.len()
            invariant
                pi <= result@.len(),
                prev == group_views(result@),
                gv == string_views(group@),
                group_views(next@) == extend_all(prev.subrange(0, pi as int), gv),
            decreases result@.len() - pi,
        {
            let ghost base = group_views(next@);
            let ghost p = prev[pi as int];
            let mut ii: usize = 0;
            while ii < group.len()
                invariant
                    ii <= group@.len(),
                    pi < result@.len(),
                    p == string_views(result@[pi as int]@),
                    gv == string_views(group@),
                    group_views(next@) == base + gv.subrange(0, ii as int).map_values(
                        |x: Seq<char>| p.push(x),
                    ),
                decreases group@.len() - ii,
            {
                let mut combo = copy_strings(&result[pi]);
                combo.push(group[ii].clone());
                let ghost before = group_views(next@);
                next.push(combo);
                proof {
                    assert(string_views(combo@) =~= p.push(gv[ii as int]));
                    assert(group_views(next@) =~= before.push(p.push(gv[ii as int])));
                    assert(gv.subrange(0, ii + 1).map_values(|x: Seq<char>| p.push(x))
                        =~= gv.subrange(0, ii as int).map_values(|x: Seq<char>| p.push(x)).push(
                        p.push(gv[ii as int]),
                    ));
                }
                ii += 1;
            }
            proof {
                assert(gv.subrange(0, gv.len() as int) =~= gv);
                assert(prev.subrange(0, pi + 1).drop_last() =~= prev.subrange(0, pi as int));
                assert(prev.subrange(0, pi + 1).last() == p);
            }
            pi += 1;
        }
        proof {
            assert(prev.subrange(0, prev.len() as int) =~= prev);
            assert(gs.subrange(0, gi + 1).drop_last() =~= gs.subrange(0, gi as int));
            assert(gs.subrange(0, gi + 1).last() == gv);
        }
        result = next;
        gi += 1;
    }
    assert(gs.subrange(0, gs.len() as int) =~= gs);
    result
}

fn strings_contain(v: &Vec<String>, x: &str) -> (r: bool)
    ensures
        r == string_views(v@).contains(x@),
{
    let xc = chars_of(x);
    let mut i: usize = 0;
    while i < v.len()
        invariant
            i <= v@.len(),
            xc@ == x@,
            forall|k: int| 0 <= k < i ==> v@[k]@ != x@,
        decreases v@.len() - i,
    {
        let vc = chars_of(v[i].as_str());
        if eq(&vc, &xc) {
            assert(string_views(v@)[i as int] == x@);
            return true;
        }
        i += 1;
    }
    assert forall|k: int| 0 <= k < string_views(v@).len() implies string_views(v@)[k] != x@ by {
        assert(string_views(v@)[k] == v@[k]@);
    }
    false
}

/// The build types of an `android` body, debug first.
fn build_types(declared: Vec<String>) -> (r: Vec<String>)
    ensures
        string_views(r@) == debug_first(with_default_build_types(string_views(declared@))),
{
    let mut all = declared;
    let ghost d0 = string_views(all@);
    if !strings_contain(&all, "debug") {
        all.push(String::from_str("debug"));
        assert(string_views(all@) =~= d0.push("debug"@));
    }
    let ghost d1 = string_views(all@);
    if !strings_contain(&all, "release") {
        all.push(String::from_str("release"));
        assert(string_views(all@) =~= d1.push("release"@));
    }
    let ghost bts = string_views(all@);
    assert(bts == with_default_build_types(d0));
    let mut debug: Vec<String> = Vec::new();
    let mut release: Vec<String> = Vec::new();
    let mut rest: Vec<String> = Vec::new();
    let mut i: usize = 0;
    while i < all.len()
        invariant
            i <= all@.len(),
            bts == string_views(all@),
            string_views(debug@) == bts.subrange(0, i as int).filter(|b: Seq<char>| b == "debug"@),
            string_views(release@) == bts.subrange(0, i as int).filter(
                |b: Seq<char>| b == "release"@,
            ),
            string_views(rest@) == bts.subrange(0, i as int).filter(
                |b: Seq<char>| b != "debug"@ && b != "release"@,
            ),
        decreases all@.len() - i,
    {
        let ghost s1 = bts.subrange(0, i + 1);
        proof {
            assert(s1.drop_last() =~= bts.subrange(0, i as int));
            assert(s1.last() == all@[i as int]@);
            reveal(Seq::filter);
        }
        let c = chars_of(all[i].as_str());
        let dc = chars_of("debug");
        let rc = chars_of("release");
        proof {
            reveal_strlit("debug");
            reveal_strlit("release");
            assert("debug"@ != "release"@) by {
                assert("debug"@[0] != "release"@[0]);
            }
        }
        let ghost bd = string_views(debug@);
        let ghost br = string_views(release@);
        let ghost bo = string_views(rest@);
        if eq(&c, &dc) {
            debug.push(all[i].clone());
            assert(string_views(debug@) =~= bd.push(all@[i as int]@));
        } else if eq(&c, &rc) {
            release.push(all[i].clone());
            assert(string_views(release@) =~= br.push(all@[i as int]@));
        } else {
            rest.push(all[i].clone());
            assert(string_views(rest@) =~= bo.push(all@[i as int]@));
        }
        i += 1;
    }
    assert(bts.subrange(0, bts.len() as int) =~= bts);
    let ghost gd = string_views(debug@);
    let ghost gr = string_views(release@);
    let ghost go = string_views(rest@);
    let mut out = debug;
    let mut j: usize = 0;
    while j < release.len()
        invariant
            j <= release@.len(),
            string_views(out@) == gd + gr.subrange(0, j as int),
            gr == string_views(release@),
        decreases release@.len() - j,
    {
        let ghost before = string_views(out@);
        assert(gr[j as int] == release@[j as int]@);
        out.push(release[j].clone());
        assert(string_views(out@) =~= before.push(gr[j as int]));
        j += 1;
        assert(string_views(out@) =~= gd + gr.subrange(0, j as int));
    }
    let mut k: usize = 0;
    while k < rest.len()
        invariant
            k <= rest@.len(),
            string_views(out@) == gd + gr + go.subrange(0, k as int),
            go == string_views(rest@),
            gr.subrange(0, gr.len() as int) == gr,
        decreases rest@.len() - k,
    {
        let ghost before = string_views(out@);
        assert(go[k as int] == rest@[k as int]@);
        out.push(rest[k].clone());
        assert(string_views(out@) =~= before.push(go[k as int]));
        k += 1;
        assert(string_views(out@) =~= gd + gr + go.subrange(0, k as int));
    }
    assert(string_views(out@) =~= gd + gr + go);
    out
}

/// Compute the variants of a module's build script: build types times flavor
/// combinations.
pub fn parse_variants(build_script: &str) -> (r: Vec<Variant>)
    ensures
        variant_views(r@) == variants_of(build_script@),
{
    let android = match block_body(build_script, "android") {
        Some(a) => a,
        None => String::new(),
    };
    assert(android@ == android_of(build_script@));
    let bt_body = match block_body(android.as_str(), "buildTypes") {
        Some(b) => b,
        None => String::new(),
    };
    let bts = build_types(child_block_names(bt_body.as_str()));
    let ghost btv = string_views(bts@);
    assert(btv == build_types_of(android@));
    let dims = flavor_dimensions(android.as_str());
    let mut variants: Vec<Variant> = Vec::new();
    if dims.len() == 0 {
        let mut i: usize = 0;
        while i < bts.len()
            invariant
                i <= bts@.len(),
                btv == string_views(bts@),
                variant_views(variants@) == btv.subrange(0, i as int).map_values(
                    |bt: Seq<char>| (bt, bt, Seq::<Seq<char>>::empty()),
                ),
            decreases bts@.len() - i,
        {
            let v = Variant {
                name: bts[i].clone(),
                build_type: bts[i].clone(),
                flavors: Vec::new(),
            };
            let ghost before = variant_views(variants@);
            variants.push(v);
            proof {
                assert(string_views(v.flavors@) =~= Seq::<Seq<char>>::empty());
                assert(variant_views(variants@) =~= before.push(
                    (btv[i as int], btv[i as int], Seq::<Seq<char>>::empty()),
                ));
                assert(btv.subrange(0, i + 1).map_values(
                    |bt: Seq<char>| (bt, bt, Seq::<Seq<char>>::empty()),
                ) =~= btv.subrange(0, i as int).map_values(
                    |bt: Seq<char>| (bt, bt, Seq::<Seq<char>>::empty()),
                ).push((btv[i as int], btv[i as int], Seq::<Seq<char>>::empty())));
            }
            i += 1;
        }
        assert(btv.subrange(0, btv.len() as int) =~= btv);
        return variants;
    }
    let combos = cartesian(&dims);
    let ghost cv = group_views(combos@);
    let mut ci: usize = 0;
    while ci < combos.len()
        invariant
            ci <= combos@.len(),
            cv == group_views(combos@),
            btv == string_views(bts@),
            variant_views(variants@) == cross(cv.subrange(0, ci as int), btv),
        decreases combos@.len() - ci,
    {
        let combo = &combos[ci];
        let ghost c = cv[ci as int];
        let ghost base = variant_views(variants@);
        let mut bi: usize = 0;
        while bi < bts.len()
            invariant
                bi <= bts@.len(),
                btv == string_views(bts@),
                c == string_views(combo@),
                variant_views(variants@) == base + btv.subrange(0, bi as int).map_values(
                    |bt: Seq<char>| (variant_name_of(c, bt), bt, c),
                ),
            decreases bts@.len() - bi,
        {
            let v = Variant {
                name: variant_name(combo.as_slice(), bts[bi].as_str()),
                build_type: bts[bi].clone(),
                flavors: copy_strings(combo),
            };
            let ghost before = variant_views(variants@);
            variants.push(v);
            proof {
                assert(variant_views(variants@) =~= before.push(
                    (variant_name_of(c, btv[bi as int]), btv[bi as int], c),
                ));
                assert(btv.subrange(0, bi + 1).map_values(
                    |bt: Seq<char>| (variant_name_of(c, bt), bt, c),
                ) =~= btv.subrange(0, bi as int).map_values(
                    |bt: Seq<char>| (variant_name_of(c, bt), bt, c),
                ).push((variant_name_of(c, btv[bi as int]), btv[bi as int], c)));
            }
            bi += 1;
        }
        proof {
            assert(btv.subrange(0, btv.len() as int) =~= btv);
            assert(cv.subrange(0, ci + 1).drop_last() =~= cv.subrange(0, ci as int));
            assert(cv.subrange(0, ci + 1).last() == c);
        }
        ci += 1;
    }
    assert(cv.subrange(0, cv.len() as int) =~= cv);
    variants
}

// ---------------------------------------------------------------------------
// Default variant, module directories
// ---------------------------------------------------------------------------

/// The default variant by convention: `devDebug`, else `debug`, else the
/// first variant; none when there are no variants.
pub open spec fn default_variant_of(names: Seq<Seq<char>>) -> Option<Seq<char>> {
    if names.len() == 0 {
        None
    } else if names.contains("devDebug"@) {
        Some("devDebug"@)
    } else if names.contains("debug"@) {
        Some("debug"@)
    } else {
        Some(names[0])
    }
}

/// The names of variants.
pub open spec fn variant_names(vs: Seq<Variant>) -> Seq<Seq<char>> {
    vs.map_values(|v: Variant| v.name@)
}

fn names_contain(variants: &[Variant], x: &str) -> (r: bool)
    ensures
        r == variant_names(variants@).contains(x@),
{
    let xc = chars_of(x);
    let mut i: usize = 0;
    while i < variants.len()
        invariant
            i <= variants@.len(),
            xc@ == x@,
            forall|k: int| 0 <= k < i ==> variants@[k].name@ != x@,
        decreases variants@.len() - i,
    {
        let vc = chars_of(variants[i].name.as_str());
        if eq(&vc, &xc) {
            assert(variant_names(variants@)[i as int] == x@);
            return true;
        }
        i += 1;
    }
    assert forall|k: int| 0 <= k < variant_names(variants@).len() implies variant_names(
        variants@,
    )[k] != x@ by {
        assert(variant_names(variants@)[k] == variants@[k].name@);
    }
    false
}

/// Resolve the default variant per convention: `devDebug`, then `debug`,
/// then the first one.
pub fn resolve_default_variant(variants: &[Variant]) -> (r: Option<String>)
    ensures
        crate::manifest::opt_view(r) == default_variant_of(variant_names(variants@)),
{
    if variants.len() == 0 {
        return None;
    }
    if names_contain(variants, "devDebug") {
        return Some(String::from_str("devDebug"));
    }
    if names_contain(variants, "debug") {
        return Some(String::from_str("debug"));
    }
    assert(variant_names(variants@)[0] == variants@[0].name@);
    Some(variants[0].name.clone())
}

/// `s` without its leading colons.
pub open spec fn trim_colons(s: Seq<char>) -> Seq<char>
    decreases s.len(),
{
    if s.len() > 0 && s[0] == ':' {
        trim_colons(s.drop_first())
    } else {
        s
    }
}

/// The directory of a Gradle path: `:feature:home` gives `feature/home`,
/// `:app` gives `app`, `:` gives `.`.
pub open spec fn dir_of_path(path: Seq<char>) -> Seq<char> {
    let t = trim_colons(path);
    if t.len() == 0 {
        "."@
    } else {
        t.map_values(|c: char| if c == ':' { '/' } else { c })
    }
}

/// `:feature:home` gives `feature/home`; `:app` gives `app`; `:` gives `.`.
pub fn gradle_path_to_dir(path: &str) -> (r: String)
    ensures
        r@ == dir_of_path(path@),
{
    let p = chars_of(path);
    let mut a: usize = 0;
    assert(p@.subrange(0, p@.len() as int) =~= p@);
    while a < p.len() && p[a] == ':'
        invariant
            a <= p@.len(),
            trim_colons(p@) == trim_colons(p@.subrange(a as int, p@.len() as int)),
        decreases p@.len() - a,
    {
        assert(p@.subrange(a as int, p@.len() as int).drop_first() =~= p@.subrange(
            a + 1,
            p@.len() as int,
        ));
        a += 1;
    }
    proof {
        if a == 0 {
            assert(p@.subrange(0, p@.len() as int) =~= p@);
        }
    }
    let ghost t = p@.subrange(a as int, p@.len() as int);
    assert(trim_colons(p@) == t);
    if a == p.len() {
        return String::from_str(".");
    }
    let mut out: Vec<char> = Vec::new();
    let mut i = a;
    while i < p.len()
        invariant
            a <= i <= p@.len(),
            t == p@.subrange(a as int, p@.len() as int),
            out@ == t.subrange(0, i - a).map_values(|c: char| if c == ':' { '/' } else { c }),
        decreases p@.len() - i,
    {
        if p[i] == ':' {
            out.push('/');
        } else {
            out.push(p[i]);
        }
        i += 1;
        assert(out@ =~= t.subrange(0, i - a).map_values(|c: char| if c == ':' { '/' } else { c }));
    }
    assert(t.subrange(0, t.len() as int) =~= t);
    string_of(&out)
}

/// The module paths of a project: those its settings script includes, or `:`
/// alone for a single-module project whose root has a build script.
pub open spec fn module_paths_of(settings: Option<Seq<char>>, root_has_build_script: bool) -> Seq<
    Seq<char>,
> {
    let p = match settings {
        Some(s) => included_modules_of(s),
        None => seq![],
    };
    if p.len() == 0 && root_has_build_script {
        seq![":"@]
    } else {
        p
    }
}

/// Module paths from the settings script text (when a settings script
/// exists), falling back to `:` when none are included but the root has a
/// build script.
pub fn module_paths(settings: Option<&str>, root_has_build_script: bool) -> (r: Vec<String>)
    ensures
        string_views(r@) == module_paths_of(
            match settings {
                Some(s) => Some(s@),
                None => None,
            },
            root_has_build_script,
        ),
{
    let mut p = match settings {
        Some(s) => included_modules(s),
        None => Vec::new(),
    };
    if p.len() == 0 && root_has_build_script {
        p.push(String::from_str(":"));
        assert(string_views(p@) =~= seq![":"@]);
    }
    proof {
        if settings is None {
            assert(string_views(p@) =~= seq![] || string_views(p@) =~= seq![":"@]);
        }
    }
    p
}

/// The directory of module `path`: where the settings script relocates it,
/// else the directory its Gradle path names.
pub open spec fn module_dir_of(settings: Option<Seq<char>>, path: Seq<char>) -> Seq<char> {
    match settings {
        Some(s) => match project_dir_of(s, path) {
            Some(d) => d,
            None => dir_of_path(path),
        },
        None => dir_of_path(path),
    }
}

/// The directory of module `path`, relative to the project root.
pub fn module_dir(settings: Option<&str>, path: &str) -> (r: String)
    ensures
        r@ == module_dir_of(
            match settings {
                Some(s) => Some(s@),
                None => None,
            },
            path@,
        ),
{
    match settings {
        Some(s) => match project_dir(s, path) {
            Some(d) => d,
            None => gradle_path_to_dir(path),
        },
        None => gradle_path_to_dir(path),
    }
}

/// A module described from its path, directory and build script text (when
/// it has one): it is the application when the script applies the
/// application plugin, by id or through one of the catalog `aliases`.
pub fn describe_module(path: String, dir: String, build_script: Option<&str>, aliases: &[String]) -> (r: Module)
    ensures
        r.path == path,
        r.dir == dir,
        r.is_application == match build_script {
            Some(b) => applies_app_plugin(b@, string_views(aliases@)),
            None => false,
        },
{
    let is_application = match build_script {
        Some(b) => is_application_module(b, aliases),
        None => false,
    };
    Module { path, dir, is_application }
}

// ---------------------------------------------------------------------------
// Project root and assembly
// ---------------------------------------------------------------------------

/// What a directory holds that marks a Gradle project root.
#[derive(Debug)]
pub struct DirProbe {
    /// The directory.
    pub dir: String,
    /// It holds `settings.gradle`.
    pub settings_gradle: bool,
    /// It holds `settings.gradle.kts`.
    pub settings_gradle_kts: bool,
    /// It holds `gradlew`.
    pub gradlew: bool,
    /// It holds `build.gradle`.
    pub build_gradle: bool,
}

/// A directory is a project root when it holds a settings script, or (rarely)
/// both a `gradlew` and a `build.gradle` without settings.
pub open spec fn is_gradle_root(p: DirProbe) -> bool {
    p.settings_gradle || p.settings_gradle_kts || (p.gradlew && p.build_gradle)
}

/// Walk up from `start` looking for the Gradle root. `ancestors` describes
/// `start` and each of its parents in turn, nearest first.
pub fn find_root(start: &str, ancestors: &[DirProbe]) -> (r: Result<String, Error>)
    ensures
        match r {
            Ok(d) => exists|i: int|
                0 <= i < ancestors@.len() && is_gradle_root(#[trigger] ancestors@[i])
                    && d@ == ancestors@[i].dir@ && forall|j: int|
                    0 <= j < i ==> !is_gradle_root(#[trigger] ancestors@[j]),
            Err(e) => (forall|i: int|
                0 <= i < ancestors@.len() ==> !is_gradle_root(#[trigger] ancestors@[i])) && (
            e matches Error::NoProjectRoot { start: s } && s@ == start@),
        },
{
    let mut i: usize = 0;
    while i < ancestors.len()
        invariant
            i <= ancestors@.len(),
            forall|j: int| 0 <= j < i ==> !is_gradle_root(#[trigger] ancestors@[j]),
        decreases ancestors@.len() - i,
    {
        let p = &ancestors[i];
        if p.settings_gradle || p.settings_gradle_kts || (p.gradlew && p.build_gradle) {
            assert(is_gradle_root(ancestors@[i as int]));
            return Ok(p.dir.clone());
        }
        i += 1;
    }
    Err(Error::NoProjectRoot { start: String::from_str(start) })
}

/// The launch component: `applicationId/Activity` when the id is known,
/// else the activity alone.
pub open spec fn launch_of(app_id: Option<Seq<char>>, activity: Option<Seq<char>>) -> Option<
    Seq<char>,
> {
    match activity {
        Some(a) => match app_id {
            Some(id) => Some(id + "/"@ + a),
            None => Some(a),
        },
        None => None,
    }
}

/// The first application module.
pub open spec fn first_app(ms: Seq<Module>) -> Option<int> {
    if exists|i: int| 0 <= i < ms.len() && (#[trigger] ms[i]).is_application {
        Some(
            choose|i: int|
                0 <= i < ms.len() && (#[trigger] ms[i]).is_application && forall|j: int|
                    0 <= j < i ==> !(#[trigger] ms[j]).is_application,
        )
    } else {
        None
    }
}

/// The project found at `root`: its `modules`; and, for the first application
/// module, the variants and applicationId of its build script
/// (`app_build_script`, when it has one) and the launcher activity of its
/// source manifest (`app_manifest`, when it has one).
pub fn assemble_project(
    root: &str,
    modules: Vec<Module>,
    app_build_script: Option<&str>,
    app_manifest: Option<&str>,
) -> (p: AndroidProject)
    ensures
        ({
            &&& p.root@ == root@
            &&& p.modules@ == modules@
            &&& match first_app(modules@) {
                None => {
                    &&& p.app_module is None
                    &&& p.variants@.len() == 0
                    &&& p.application_id is None
                    &&& p.launch_activity is None
                },
                Some(k) => {
                    let id = match app_build_script {
                        Some(b) => application_id_of(b@),
                        None => None,
                    };
                    &&& p.app_module matches Some(m) && m@ == modules@[k].path@
                    &&& variant_views(p.variants@) == match app_build_script {
                        Some(b) => variants_of(b@),
                        None => seq![],
                    }
                    &&& opt_view(p.application_id) == id
                    &&& opt_view(p.launch_activity) == match app_manifest {
                        Some(x) => launch_of(id, launcher_activity_of(x@, id)),
                        None => None,
                    }
                },
            }
            &&& opt_view(p.default_variant) == default_variant_of(variant_names(p.variants@))
        }),
{
    let mut i: usize = 0;
    while i < modules.len() && !modules[i].is_application
        invariant
            i <= modules@.len(),
            forall|j: int| 0 <= j < i ==> !(#[trigger] modules@[j]).is_application,
        decreases modules@.len() - i,
    {
        i += 1;
    }
    let app: Option<usize> = if i < modules.len() {
        Some(i)
    } else {
        None
    };
    let mut variants: Vec<Variant> = Vec::new();
    let mut application_id: Option<String> = None;
    let mut launch_activity: Option<String> = None;
    let mut app_module: Option<String> = None;
    match app {
        Some(k) => {
            assert(first_app(modules@) == Some(k as int)) by {
                assert(modules@[k as int].is_application);
                let c = first_app(modules@)->0;
                if c < k {
                } else if c > k {
                }
            }
            app_module = Some(modules[k].path.clone());
            match app_build_script {
                Some(b) => {
                    variants = parse_variants(b);
                    application_id = crate::project::dsl::application_id(b);
                },
                None => {},
            }
            match app_manifest {
                Some(x) => {
                    let pkg: Option<&str> = match &application_id {
                        Some(a) => Some(a.as_str()),
                        None => None,
                    };
                    match launcher_activity(x, pkg) {
                        Some(act) => {
                            launch_activity = Some(
                                match &application_id {
                                    Some(a) => {
                                        let mut s = a.clone();
                                        s.append("/");
                                        s.append(act.as_str());
                                        s
                                    },
                                    None => act,
                                },
                            );
                        },
                        None => {},
                    }
                },
                None => {},
            }
        },
        None => {
            assert(first_app(modules@) is None);
        },
    }
    let default_variant = resolve_default_variant(&variants);
    AndroidProject {
        root: String::from_str(root),
        modules,
        app_module,
        variants,
        default_variant,
        application_id,
        launch_activity,
    }
}

// ---------------------------------------------------------------------------
// Laws
// ---------------------------------------------------------------------------

/// The number of flavor combinations of `groups`: the product of their sizes.
pub open spec fn combination_count(groups: Seq<Seq<Seq<char>>>) -> nat
    decreases groups.len(),
{
    if groups.len() == 0 {
        1
    } else {
        combination_count(groups.drop_last()) * groups.last().len()
    }
}

proof fn lemma_extend_all(prefixes: Seq<Seq<Seq<char>>>, group: Seq<Seq<char>>)
    ensures
        extend_all(prefixes, group).len() == prefixes.len() * group.len(),
        forall|c: Seq<Seq<char>>|
            #[trigger] extend_all(prefixes, group).contains(c) ==> c.len() > 0 && prefixes.contains(
                c.drop_last(),
            ) && group.contains(c.last()),
    decreases prefixes.len(),
{
    if prefixes.len() > 0 {
        let p0 = prefixes.drop_last();
        lemma_extend_all(p0, group);
        let n = prefixes.len();
        let m = group.len();
        assert((n - 1) * m + m == n * m) by (nonlinear_arith);
        let tail = group.map_values(|x: Seq<char>| prefixes.last().push(x));
        assert forall|c: Seq<Seq<char>>| #[trigger] extend_all(prefixes, group).contains(c) implies c.len()
            > 0 && prefixes.contains(c.drop_last()) && group.contains(c.last()) by {
            let e = extend_all(prefixes, group);
            let k = choose|k: int| 0 <= k < e.len() && e[k] == c;
            let a = extend_all(p0, group);
            if k < a.len() {
                assert(a.contains(c)) by {
                    assert(a[k] == c);
                }
                let j = choose|j: int| 0 <= j < p0.len() && p0[j] == c.drop_last();
                assert(prefixes[j] == c.drop_last());
            } else {
                let j = k - a.len();
                assert(c == prefixes.last().push(group[j]));
                assert(c.drop_last() =~= prefixes.last());
                assert(prefixes[n - 1] == c.drop_last());
                assert(group[j] == c.last());
            }
        }
    } else {
        assert(extend_all(prefixes, group) =~= seq![]);
    }
}

/// The flavor combinations: as many as the product of the group sizes, and
/// each picks one flavor of every group, in group order.
pub proof fn cartesian_is_full_product(groups: Seq<Seq<Seq<char>>>)
    ensures
        cartesian_of(groups).len() == combination_count(groups),
        forall|c: Seq<Seq<char>>|
            #[trigger] cartesian_of(groups).contains(c) ==> c.len() == groups.len() && forall|k: int|
                0 <= k < groups.len() ==> #[trigger] groups[k].contains(c[k]),
    decreases groups.len(),
{
    if groups.len() == 0 {
        assert(cartesian_of(groups)[0] == Seq::<Seq<char>>::empty());
    } else {
        let g0 = groups.drop_last();
        cartesian_is_full_product(g0);
        lemma_extend_all(cartesian_of(g0), groups.last());
        assert forall|c: Seq<Seq<char>>| #[trigger] cartesian_of(groups).contains(c) implies c.len()
            == groups.len() && forall|k: int|
            0 <= k < groups.len() ==> #[trigger] groups[k].contains(c[k]) by {
            assert(cartesian_of(g0).contains(c.drop_last()));
            assert forall|k: int| 0 <= k < groups.len() implies #[trigger] groups[k].contains(c[k]) by {
                if k < groups.len() - 1 {
                    assert(g0[k].contains(c.drop_last()[k]));
                }
            }
        }
    }
}

proof fn lemma_cross_len(combos: Seq<Seq<Seq<char>>>, bts: Seq<Seq<char>>)
    ensures
        cross(combos, bts).len() == combos.len() * bts.len(),
    decreases combos.len(),
{
    if combos.len() > 0 {
        lemma_cross_len(combos.drop_last(), bts);
        let n = combos.len();
        let m = bts.len();
        assert((n - 1) * m + m == n * m) by (nonlinear_arith);
    }
}

/// The number of variants of a build script: one per build type without
/// product flavors, else one per build type for every flavor combination.
pub proof fn variant_count(build_script: Seq<char>)
    ensures
        variants_of(build_script).len() == ({
            let a = android_of(build_script);
            let dims = flavor_groups_of(a);
            if dims.len() == 0 {
                build_types_of(a).len()
            } else {
                combination_count(dims) * build_types_of(a).len()
            }
        }),
{
    let a = android_of(build_script);
    let dims = flavor_groups_of(a);
    if dims.len() > 0 {
        cartesian_is_full_product(dims);
        lemma_cross_len(cartesian_of(dims), build_types_of(a));
    }
}

proof fn lemma_filter_equal_distinct(s: Seq<Seq<char>>, pred: spec_fn(Seq<char>) -> bool, x: Seq<char>)
    requires
        s.no_duplicates(),
        forall|b: Seq<char>| #[trigger] pred(b) <==> b == x,
    ensures
        s.filter(pred).len() == if s.contains(x) {
            1int
        } else {
            0int
        },
    decreases s.len(),
{
    reveal(Seq::filter);
    if s.len() > 0 {
        let d = s.drop_last();
        assert(d.no_duplicates());
        lemma_filter_equal_distinct(d, pred, x);
        assert(pred(s.last()) <==> s.last() == x);
        if s.last() == x {
            assert(!d.contains(x)) by {
                if d.contains(x) {
                    let j = choose|j: int| 0 <= j < d.len() && d[j] == x;
                    assert(s[j] == s[s.len() - 1]);
                }
            }
        }
        if s.contains(x) && s.last() != x {
            let j = choose|j: int| 0 <= j < s.len() && s[j] == x;
            assert(d[j] == x);
        }
        if !s.contains(x) {
            assert(!d.contains(x)) by {
                if d.contains(x) {
                    let j = choose|j: int| 0 <= j < d.len() && d[j] == x;
                    assert(s[j] == x);
                }
            }
        }
    }
}

/// Every module has the build types `debug` and `release`: its build types
/// begin with `debug`, then `release`, and list no type twice.
pub proof fn build_types_begin_with_debug_release(android: Seq<char>)
    ensures
        build_types_of(android).len() >= 2,
        build_types_of(android)[0] == "debug"@,
        build_types_of(android)[1] == "release"@,
{
    let body = match block_body_of(android, "buildTypes"@) {
        Some(b) => b,
        None => seq![],
    };
    let declared = child_names_of(body);
    child_block_names_are_distinct(body);
    let d1 = if declared.contains("debug"@) {
        declared
    } else {
        declared.push("debug"@)
    };
    assert(d1.no_duplicates());
    assert(d1.contains("debug"@)) by {
        if !declared.contains("debug"@) {
            assert(d1[d1.len() - 1] == "debug"@);
        }
    }
    let all = with_default_build_types(declared);
    assert(all.no_duplicates());
    assert(all.contains("debug"@)) by {
        let j = choose|j: int| 0 <= j < d1.len() && d1[j] == "debug"@;
        assert(all[j] == "debug"@);
    }
    assert(all.contains("release"@)) by {
        if !d1.contains("release"@) {
            assert(all[all.len() - 1] == "release"@);
        }
    }
    let is_debug = |b: Seq<char>| b == "debug"@;
    let is_release = |b: Seq<char>| b == "release"@;
    lemma_filter_equal_distinct(all, is_debug, "debug"@);
    lemma_filter_equal_distinct(all, is_release, "release"@);
    all.lemma_filter_pred(is_debug, 0);
    all.lemma_filter_pred(is_release, 0);
    assert(build_types_of(android) == all.filter(|b: Seq<char>| b == "debug"@) + all.filter(
        |b: Seq<char>| b == "release"@,
    ) + all.filter(|b: Seq<char>| b != "debug"@ && b != "release"@));
}

/// The default variant exists exactly when there is a variant, and it is one
/// of the variants' names.
pub proof fn default_variant_is_a_variant(names: Seq<Seq<char>>)
    ensures
        default_variant_of(names) is Some <==> names.len() > 0,
        default_variant_of(names) matches Some(d) ==> names.contains(d),
{
    if names.len() > 0 && !names.contains("devDebug"@) && !names.contains("debug"@) {
        assert(names[0] == names[0]);
    }
}

/// A module directory is never empty and holds no `:`.
pub proof fn module_dir_has_no_colon(path: Seq<char>)
    ensures
        dir_of_path(path).len() > 0,
        !dir_of_path(path).contains(':'),
{
    reveal_strlit(".");
    let d = dir_of_path(path);
    if d.contains(':') {
        let j = choose|j: int| 0 <= j < d.len() && d[j] == ':';
        if trim_colons(path).len() == 0 {
            assert(d[j] == '.');
        }
    }
}

/// The combination at position `i` of the Cartesian product of `groups`:
/// `i` read in mixed radix, the last group's digit varying fastest.
pub open spec fn combination_at(groups: Seq<Seq<Seq<char>>>, i: int) -> Seq<Seq<char>>
    decreases groups.len(),
{
    if groups.len() == 0 {
        seq![]
    } else {
        let m = groups.last().len() as int;
        combination_at(groups.drop_last(), i / m).push(groups.last()[i % m])
    }
}

proof fn lemma_extend_all_at(prefixes: Seq<Seq<Seq<char>>>, group: Seq<Seq<char>>, a: int, b: int)
    requires
        0 <= a < prefixes.len(),
        0 <= b < group.len(),
    ensures
        a * group.len() + b < extend_all(prefixes, group).len(),
        extend_all(prefixes, group)[a * group.len() + b] == prefixes[a].push(group[b]),
    decreases prefixes.len(),
{
    lemma_extend_all(prefixes, group);
    let n = prefixes.len() as int;
    let m = group.len() as int;
    let p0 = prefixes.drop_last();
    lemma_extend_all(p0, group);
    if a < n - 1 {
        lemma_extend_all_at(p0, group, a, b);
        assert(a * m + b < (n - 1) * m) by (nonlinear_arith)
            requires
                0 <= a < n - 1,
                0 <= b < m,
        ;
    } else {
        assert(a * m == (n - 1) * m);
        assert(a * m + b < n * m) by (nonlinear_arith)
            requires
                a == n - 1,
                0 <= b < m,
        ;
    }
}

/// The combinations come in lexicographic order of their positions in the
/// groups, the first group varying slowest: the `i`-th combination picks,
/// from each group, the element that `i` names in mixed radix.
pub proof fn cartesian_is_lexicographic(groups: Seq<Seq<Seq<char>>>, i: int)
    requires
        0 <= i < cartesian_of(groups).len(),
    ensures
        cartesian_of(groups)[i] == combination_at(groups, i),
    decreases groups.len(),
{
    if groups.len() > 0 {
        let g0 = groups.drop_last();
        let m = groups.last().len() as int;
        cartesian_is_full_product(groups);
        cartesian_is_full_product(g0);
        lemma_extend_all(cartesian_of(g0), groups.last());
        let c = combination_count(g0) as int;
        assert(m > 0) by {
            if m == 0 {
                assert(c * m == 0) by (nonlinear_arith)
                    requires
                        m == 0,
                ;
            }
        }
        vstd::arithmetic::div_mod::lemma_fundamental_div_mod(i, m);
        vstd::arithmetic::div_mod::lemma_mod_pos_bound(i, m);
        let a = i / m;
        let b = i % m;
        assert(0 <= a < c) by (nonlinear_arith)
            requires
                i == m * a + b,
                0 <= b < m,
                0 <= i < c * m,
                m > 0,
        ;
        assert(a * m + b == i) by (nonlinear_arith)
            requires
                i == m * a + b,
        ;
        cartesian_is_lexicographic(g0, a);
        lemma_extend_all_at(cartesian_of(g0), groups.last(), a, b);
    }
}

/// Each flavor combination with each build type, combinations outermost; a
/// variant without flavors is named after its build type.
pub open spec fn variants_by_combination(combos: Seq<Seq<Seq<char>>>, bts: Seq<Seq<char>>) -> Seq<
    (Seq<char>, Seq<char>, Seq<Seq<char>>),
>
    decreases combos.len(),
{
    if combos.len() == 0 {
        seq![]
    } else {
        let c = combos.last();
        variants_by_combination(combos.drop_last(), bts) + bts.map_values(
            |bt: Seq<char>| (if c.len() == 0 { bt } else { variant_name_of(c, bt) }, bt, c),
        )
    }
}

proof fn lemma_by_combination_is_cross(combos: Seq<Seq<Seq<char>>>, bts: Seq<Seq<char>>)
    requires
        forall|i: int| 0 <= i < combos.len() ==> (#[trigger] combos[i]).len() > 0,
    ensures
        variants_by_combination(combos, bts) == cross(combos, bts),
    decreases combos.len(),
{
    if combos.len() > 0 {
        let c0 = combos.drop_last();
        assert forall|i: int| 0 <= i < c0.len() implies (#[trigger] c0[i]).len() > 0 by {
            assert(c0[i] == combos[i]);
        }
        lemma_by_combination_is_cross(c0, bts);
        let c = combos.last();
        assert(combos[combos.len() - 1].len() > 0);
        assert(bts.map_values(
            |bt: Seq<char>| (if c.len() == 0 { bt } else { variant_name_of(c, bt) }, bt, c),
        ) =~= bts.map_values(|bt: Seq<char>| (variant_name_of(c, bt), bt, c)));
    }
}

/// The variants of a build script are every flavor combination (in the
/// order of the Cartesian product of its dimension groups) with every build
/// type (in their order), combinations outermost; without flavors there is
/// the single empty combination and each variant is named after its build
/// type.
pub proof fn variants_are_combinations_times_build_types(build_script: Seq<char>)
    ensures
        variants_of(build_script) == variants_by_combination(
            cartesian_of(flavor_groups_of(android_of(build_script))),
            build_types_of(android_of(build_script)),
        ),
{
    let a = android_of(build_script);
    let dims = flavor_groups_of(a);
    let bts = build_types_of(a);
    if dims.len() == 0 {
        let e = Seq::<Seq<char>>::empty();
        assert(cartesian_of(dims) == seq![e]);
        assert(seq![e].drop_last() =~= Seq::<Seq<Seq<char>>>::empty());
        assert(seq![e].last() == e);
        assert(variants_by_combination(seq![e].drop_last(), bts) =~= seq![]);
        assert(bts.map_values(
            |bt: Seq<char>| (if e.len() == 0 { bt } else { variant_name_of(e, bt) }, bt, e),
        ) =~= bts.map_values(|bt: Seq<char>| (bt, bt, Seq::<Seq<char>>::empty())));
        assert(variants_by_combination(seq![e], bts) =~= bts.map_values(
            |bt: Seq<char>| (bt, bt, Seq::<Seq<char>>::empty()),
        ));
    } else {
        cartesian_is_full_product(dims);
        let cs = cartesian_of(dims);
        assert forall|i: int| 0 <= i < cs.len() implies (#[trigger] cs[i]).len() > 0 by {
            assert(cs.contains(cs[i]));
        }
        lemma_by_combination_is_cross(cs, bts);
    }
}

/// The default variant follows the convention exactly: `devDebug` when a
/// variant has that name, else `debug` when one has that name, else the
/// first variant's name; none without variants.
pub proof fn default_variant_follows_convention(names: Seq<Seq<char>>)
    ensures
        names.len() == 0 ==> default_variant_of(names) is None,
        names.contains("devDebug"@) ==> default_variant_of(names) == Some("devDebug"@),
        !names.contains("devDebug"@) && names.contains("debug"@) ==> default_variant_of(names)
            == Some("debug"@),
        names.len() > 0 && !names.contains("devDebug"@) && !names.contains("debug"@)
            ==> default_variant_of(names) == Some(names[0]),
{
    if names.contains("devDebug"@) {
        assert(names.len() > 0);
    }
    if names.contains("debug"@) {
        assert(names.len() > 0);
    }
}

} // verus!
