//! What the on-disk discovery cache is keyed on: the build files a
//! discovered project depends on, with their modification times. A cached
//! project stays valid while this signature is unchanged; a new module shows
//! up as a changed settings script, so structural changes invalidate too.
use vstd::prelude::*;
use vstd::relations::{sorted_by, total_ordering};
use crate::apk::{path_join, path_joined};
use crate::manifest::opt_view;
use crate::model::{AndroidProject, Module};
use crate::text::{
    chars_of, eq, lemma_seq_lt_irreflexive, lemma_seq_lt_total, lemma_seq_lt_transitive, seq_lt,
    seq_lt_exec,
};
use crate::project::dsl::string_views;

verus! {

/// A dependency file and its modification time, as plain values.
pub type Stamp = (Seq<char>, u64);

/// Stamps in the order of `(String, u64)` tuples: by path (character code
/// order, the order of UTF-8 bytes), then by time.
pub open spec fn stamp_lt(a: Stamp, b: Stamp) -> bool {
    seq_lt(a.0, b.0) || (a.0 == b.0 && a.1 < b.1)
}

/// `a` sorts before `b` or equals it.
pub open spec fn stamp_leq(a: Stamp, b: Stamp) -> bool {
    stamp_lt(a, b) || a == b
}

/// Stamps held as strings, read as plain values.
pub open spec fn stamp_views(v: Seq<(String, u64)>) -> Seq<Stamp> {
    v.map_values(|p: (String, u64)| (p.0@, p.1))
}

/// The files that exist among `probed` (each with its modification time,
/// or none when it is missing), in order.
pub open spec fn present_stamps(probed: Seq<(String, Option<u64>)>) -> Seq<Stamp>
    decreases probed.len(),
{
    if probed.len() == 0 {
        seq![]
    } else {
        present_stamps(probed.drop_last()) + match probed.last().1 {
            Some(t) => seq![(probed.last().0@, t)],
            None => seq![],
        }
    }
}

/// The build scripts of `modules`, two candidates per module directory.
pub open spec fn build_files_of(root: Seq<char>, modules: Seq<Module>) -> Seq<Seq<char>>
    decreases modules.len(),
{
    if modules.len() == 0 {
        seq![]
    } else {
        let dir = path_joined(root, modules.last().dir@);
        build_files_of(root, modules.drop_last()) + seq![
            path_joined(dir, "build.gradle"@),
            path_joined(dir, "build.gradle.kts"@),
        ]
    }
}

/// The first module whose Gradle path is `path`, from index `i` on.
pub open spec fn module_with_path(modules: Seq<Module>, path: Seq<char>, i: int) -> Option<int>
    decreases modules.len() - i,
{
    if i < 0 || i >= modules.len() {
        None
    } else if modules[i].path@ == path {
        Some(i)
    } else {
        module_with_path(modules, path, i + 1)
    }
}

/// The source manifest of the application module, when it is one of the
/// modules.
pub open spec fn manifest_files_of(root: Seq<char>, project: AndroidProject) -> Seq<Seq<char>> {
    match opt_view(project.app_module) {
        Some(p) => match module_with_path(project.modules@, p, 0) {
            Some(k) => seq![
                path_joined(
                    path_joined(root, project.modules@[k].dir@),
                    "src/main/AndroidManifest.xml"@,
                ),
            ],
            None => seq![],
        },
        None => seq![],
    }
}

/// The files read for every project: both settings scripts, the version
/// catalog (which decides what counts as an application module) and both
/// root build scripts (whose appearance makes the root a module).
pub open spec fn project_files_of(root: Seq<char>) -> Seq<Seq<char>> {
    seq![
        path_joined(root, "settings.gradle"@),
        path_joined(root, "settings.gradle.kts"@),
        path_joined(root, "gradle/libs.versions.toml"@),
        path_joined(root, "build.gradle"@),
        path_joined(root, "build.gradle.kts"@),
    ]
}

/// Every file whose modification time decides whether a cached project is
/// still valid: both settings scripts, the version catalog, both root build
/// scripts, both build scripts of each module, and the application module's
/// source manifest.
pub open spec fn signature_files_of(root: Seq<char>, project: AndroidProject) -> Seq<Seq<char>> {
    project_files_of(root) + build_files_of(root, project.modules@) + manifest_files_of(
        root,
        project,
    )
}

/// The stamps in order is a total order.
pub proof fn lemma_stamp_order()
    ensures
        total_ordering(|a: Stamp, b: Stamp| stamp_leq(a, b)),
{
    let leq = |a: Stamp, b: Stamp| stamp_leq(a, b);
    assert forall|a: Stamp| #[trigger] leq(a, a) by {}
    assert forall|a: Stamp, b: Stamp| #[trigger] leq(a, b) && #[trigger] leq(b, a) implies a == b by {
        lemma_seq_lt_total(a.0, b.0);
        lemma_seq_lt_irreflexive(a.0);
    }
    assert forall|a: Stamp, b: Stamp, c: Stamp| #[trigger] leq(a, b) && #[trigger] leq(b, c) implies leq(
        a,
        c,
    ) by {
        if seq_lt(a.0, b.0) && seq_lt(b.0, c.0) {
            lemma_seq_lt_transitive(a.0, b.0, c.0);
        }
    }
    assert forall|a: Stamp, b: Stamp| #[trigger] leq(a, b) || #[trigger] leq(b, a) by {
        lemma_seq_lt_total(a.0, b.0);
    }
}

/// Inserting `x` where everything before it is no greater and the element
/// after it is no smaller keeps a sequence sorted.
proof fn lemma_insert_sorted(s: Seq<Stamp>, x: Stamp, p: int)
    requires
        0 <= p <= s.len(),
        sorted_by(s, |a: Stamp, b: Stamp| stamp_leq(a, b)),
        forall|i: int| 0 <= i < p ==> stamp_leq(#[trigger] s[i], x),
        p < s.len() ==> stamp_leq(x, s[p]),
    ensures
        sorted_by(s.insert(p, x), |a: Stamp, b: Stamp| stamp_leq(a, b)),
{
    let leq = |a: Stamp, b: Stamp| stamp_leq(a, b);
    lemma_stamp_order();
    let t = s.insert(p, x);
    assert forall|i: int, j: int| 0 <= i < j < t.len() implies #[trigger] leq(t[i], t[j]) by {
        if j < p {
            assert(leq(s[i], s[j]));
        } else if j == p {
        } else if i < p {
            if i < j - 1 {
                assert(leq(s[i], s[j - 1]));
            }
            assert(leq(s[i], x));
            assert(leq(x, s[p]));
            if p < j - 1 {
                assert(leq(s[p], s[j - 1]));
            }
        } else if i == p {
            assert(leq(x, s[p]));
            if p < j - 1 {
                assert(leq(s[p], s[j - 1]));
            }
        } else {
            assert(leq(s[i - 1], s[j - 1]));
        }
    }
}

fn stamp_lt_exec(a: &(String, u64), b: &(String, u64)) -> (r: bool)
    ensures
        r == stamp_lt((a.0@, a.1), (b.0@, b.1)),
{
    let ac = chars_of(a.0.as_str());
    let bc = chars_of(b.0.as_str());
    seq_lt_exec(&ac, &bc) || (eq(&ac, &bc) && a.1 < b.1)
}

/// The signature of a project: the files among `probed` that exist, with
/// their modification times, sorted by path and then time.
pub fn signature(probed: &[(String, Option<u64>)]) -> (r: Vec<(String, u64)>)
    ensures
        stamp_views(r@) == present_stamps(probed@).sort_by(|a: Stamp, b: Stamp| stamp_leq(a, b)),
{
    let ghost leq = |a: Stamp, b: Stamp| stamp_leq(a, b);
    proof {
        lemma_stamp_order();
    }
    let mut sorted: Vec<(String, u64)> = Vec::new();
    let mut k: usize = 0;
    assert(stamp_views(sorted@) =~= present_stamps(probed@.subrange(0, 0)));
    while k < probed.len()
        invariant
            k <= probed@.len(),
            leq == (|a: Stamp, b: Stamp| stamp_leq(a, b)),
            total_ordering(leq),
            sorted_by(stamp_views(sorted@), leq),
            stamp_views(sorted@).to_multiset() == present_stamps(probed@.subrange(0, k as int)).to_multiset(),
        decreases probed@.len() - k,
    {
        proof {
            assert(probed@.subrange(0, k + 1).drop_last() =~= probed@.subrange(0, k as int));
            assert(probed@.subrange(0, k + 1).last() == probed@[k as int]);
        }
        match probed[k].1 {
            Some(t) => {
                let entry = (probed[k].0.clone(), t);
                let ghost x: Stamp = (probed@[k as int].0@, t);
                let ghost sv = stamp_views(sorted@);
                let mut pos: usize = 0;
                while pos < sorted.len() && !stamp_lt_exec(&entry, &sorted[pos])
                    invariant
                        pos <= sorted@.len(),
                        sv == stamp_views(sorted@),
                        entry.0@ == x.0,
                        entry.1 == x.1,
                        total_ordering(leq),
                        leq == (|a: Stamp, b: Stamp| stamp_leq(a, b)),
                        forall|i: int| 0 <= i < pos ==> stamp_leq(#[trigger] sv[i], x),
                    decreases sorted@.len() - pos,
                {
                    proof {
                        assert(sv[pos as int] == (sorted@[pos as int].0@, sorted@[pos as int].1));
                        lemma_seq_lt_total(x.0, sv[pos as int].0);
                    }
                    pos += 1;
                }
                proof {
                    if pos < sorted@.len() {
                        assert(sv[pos as int] == (sorted@[pos as int].0@, sorted@[pos as int].1));
                    }
                    lemma_insert_sorted(sv, x, pos as int);
                    vstd::seq_lib::to_multiset_insert(sv, pos as int, x);
                    vstd::seq_lib::to_multiset_build(present_stamps(probed@.subrange(0, k as int)), x);
                }
                sorted.insert(pos, entry);
                assert(stamp_views(sorted@) =~= sv.insert(pos as int, x));
                assert(present_stamps(probed@.subrange(0, k + 1)) =~= present_stamps(
                    probed@.subrange(0, k as int),
                ).push(x));
            },
            None => {
                assert(present_stamps(probed@.subrange(0, k + 1)) =~= present_stamps(
                    probed@.subrange(0, k as int),
                ));
            },
        }
        k += 1;
    }
    proof {
        assert(probed@.subrange(0, probed@.len() as int) =~= probed@);
        present_stamps(probed@).lemma_sort_by_ensures(leq);
        vstd::seq_lib::lemma_sorted_unique(
            stamp_views(sorted@),
            present_stamps(probed@).sort_by(leq),
            leq,
        );
    }
    sorted
}

/// The layout version of cache entries. An entry stored under another
/// version (such as one written before the version catalog was part of the
/// signature) is recomputed.
pub const CACHE_SCHEMA: u32 = 2;

/// Whether a stored cache entry still describes the project: it was written
/// under the current layout version and its signature matches the current
/// one.
pub fn entry_is_valid(schema: u32, stored: &[(String, u64)], current: &[(String, u64)]) -> (r:
    bool)
    ensures
        r == (schema == CACHE_SCHEMA && stamp_views(stored@) == stamp_views(current@)),
{
    schema == CACHE_SCHEMA && is_fresh(stored, current)
}

/// Whether a stored signature still matches the current one.
pub fn is_fresh(stored: &[(String, u64)], current: &[(String, u64)]) -> (r: bool)
    ensures
        r == (stamp_views(stored@) == stamp_views(current@)),
{
    if stored.len() != current.len() {
        assert(stamp_views(stored@).len() != stamp_views(current@).len());
        return false;
    }
    let mut i: usize = 0;
    while i < stored.len()
        invariant
            i <= stored@.len() == current@.len(),
            forall|j: int| 0 <= j < i ==> stamp_views(stored@)[j] == stamp_views(current@)[j],
        decreases stored@.len() - i,
    {
        let a = chars_of(stored[i].0.as_str());
        let b = chars_of(current[i].0.as_str());
        if !eq(&a, &b) || stored[i].1 != current[i].1 {
            assert(stamp_views(stored@)[i as int] != stamp_views(current@)[i as int]);
            return false;
        }
        i += 1;
    }
    assert(stamp_views(stored@) =~= stamp_views(current@));
    true
}

/// Every file whose modification time decides whether a cached `project`
/// found at `root` is still valid, in order.
pub fn signature_files(root: &str, project: &AndroidProject) -> (r: Vec<String>)
    ensures
        string_views(r@) == signature_files_of(root@, *project),
{
    let mut r: Vec<String> = Vec::new();
    r.push(path_join(root, "settings.gradle"));
    r.push(path_join(root, "settings.gradle.kts"));
    r.push(path_join(root, "gradle/libs.versions.toml"));
    r.push(path_join(root, "build.gradle"));
    r.push(path_join(root, "build.gradle.kts"));
    let ghost head = project_files_of(root@);
    assert(string_views(r@) =~= head);
    let ms = &project.modules;
    let mut i: usize = 0;
    while i < ms.len()
        invariant
            i <= ms@.len(),
            ms@ == project.modules@,
            head == project_files_of(root@),
            string_views(r@) == head + build_files_of(root@, ms@.subrange(0, i as int)),
        decreases ms@.len() - i,
    {
        proof {
            assert(ms@.subrange(0, i + 1).drop_last() =~= ms@.subrange(0, i as int));
            assert(ms@.subrange(0, i + 1).last() == ms@[i as int]);
        }
        let ghost before = string_views(r@);
        let dir = path_join(root, ms[i].dir.as_str());
        r.push(path_join(dir.as_str(), "build.gradle"));
        r.push(path_join(dir.as_str(), "build.gradle.kts"));
        assert(string_views(r@) =~= before + seq![
            path_joined(dir@, "build.gradle"@),
            path_joined(dir@, "build.gradle.kts"@),
        ]);
        i += 1;
    }
    assert(ms@.subrange(0, ms@.len() as int) =~= ms@);
    let ghost mid = string_views(r@);
    match &project.app_module {
        Some(p) => {
            let pc = chars_of(p.as_str());
            let mut k: usize = 0;
            while k < ms.len() && !eq(&chars_of(ms[k].path.as_str()), &pc)
                invariant
                    k <= ms@.len(),
                    ms@ == project.modules@,
                    pc@ == p@,
                    module_with_path(ms@, p@, 0) == module_with_path(ms@, p@, k as int),
                decreases ms@.len() - k,
            {
                k += 1;
            }
            if k < ms.len() {
                let dir = path_join(root, ms[k].dir.as_str());
                r.push(path_join(dir.as_str(), "src/main/AndroidManifest.xml"));
            }
            assert(string_views(r@) =~= mid + manifest_files_of(root@, *project));
        },
        None => {
            assert(string_views(r@) =~= mid + manifest_files_of(root@, *project));
        },
    }
    r
}

/// A signature lists the existing files sorted, each as often as probed; so
/// it does not depend on the order in which the files were probed.
pub proof fn signature_is_sorted_and_order_free(
    a: Seq<(String, Option<u64>)>,
    b: Seq<(String, Option<u64>)>,
)
    ensures
        sorted_by(
            present_stamps(a).sort_by(|x: Stamp, y: Stamp| stamp_leq(x, y)),
            |x: Stamp, y: Stamp| stamp_leq(x, y),
        ),
        present_stamps(a).sort_by(|x: Stamp, y: Stamp| stamp_leq(x, y)).to_multiset()
            == present_stamps(a).to_multiset(),
        present_stamps(a).to_multiset() == present_stamps(b).to_multiset() ==> present_stamps(
            a,
        ).sort_by(|x: Stamp, y: Stamp| stamp_leq(x, y)) == present_stamps(b).sort_by(
            |x: Stamp, y: Stamp| stamp_leq(x, y),
        ),
{
    let leq = |x: Stamp, y: Stamp| stamp_leq(x, y);
    lemma_stamp_order();
    present_stamps(a).lemma_sort_by_ensures(leq);
    present_stamps(b).lemma_sort_by_ensures(leq);
    if present_stamps(a).to_multiset() == present_stamps(b).to_multiset() {
        vstd::seq_lib::lemma_sorted_unique(
            present_stamps(a).sort_by(leq),
            present_stamps(b).sort_by(leq),
            leq,
        );
    }
}

} // verus!
