//! Finding the installed applications among directory entries, and putting
//! them in order.
use vstd::prelude::*;

use crate::config::{apps_view, App, AppView};
use crate::path::{app_bundle_name, bundle_name, paths_equal, same_path};
use crate::text::{chars_of, strings_view};

verus! {

broadcast use vstd::string::group_string_axioms;

// ---------------------------------------------------------------------------
// Specification
// ---------------------------------------------------------------------------

/// The application bundles among directory entries, in order: each entry
/// whose file name has the extension `app`, named by its file stem.
pub open spec fn bundles_among(entries: Seq<Seq<char>>) -> Seq<AppView>
    decreases entries.len(),
{
    if entries.len() == 0 {
        Seq::<AppView>::empty()
    } else {
        let found = bundles_among(entries.drop_last());
        match bundle_name(entries.last()) {
            Some(name) => found.push(AppView { name, path: entries.last() }),
            None => found,
        }
    }
}

/// Whether `a` comes before `b` in the order of `String`: lexicographic by
/// code point, which is the order of their UTF-8 bytes.
pub open spec fn text_before(a: Seq<char>, b: Seq<char>) -> bool
    decreases a.len(),
{
    if a.len() == 0 {
        b.len() > 0
    } else if b.len() == 0 {
        false
    } else if a[0] != b[0] {
        (a[0] as u32) < (b[0] as u32)
    } else {
        text_before(a.drop_first(), b.drop_first())
    }
}

/// `x` inserted into `sorted` behind every application whose name does not
/// come after its own.
pub open spec fn insert_by_name(sorted: Seq<AppView>, x: AppView) -> Seq<AppView>
    decreases sorted.len(),
{
    if sorted.len() == 0 {
        seq![x]
    } else if text_before(x.name, sorted.last().name) {
        insert_by_name(sorted.drop_last(), x).push(sorted.last())
    } else {
        sorted.push(x)
    }
}

/// The applications ordered by name, those with equal names kept in their
/// order (what the stable `sort_by` on names gives).
pub open spec fn sort_by_name(apps: Seq<AppView>) -> Seq<AppView>
    decreases apps.len(),
{
    if apps.len() == 0 {
        Seq::<AppView>::empty()
    } else {
        insert_by_name(sort_by_name(apps.drop_last()), apps.last())
    }
}

/// The applications with every one dropped whose path is that of the one kept
/// just before it (what `dedup_by` on paths gives).
pub open spec fn dedup_paths(apps: Seq<AppView>) -> Seq<AppView>
    decreases apps.len(),
{
    if apps.len() == 0 {
        Seq::<AppView>::empty()
    } else {
        let kept = dedup_paths(apps.drop_last());
        if kept.len() > 0 && same_path(apps.last().path, kept.last().path) {
            kept
        } else {
            kept.push(apps.last())
        }
    }
}

/// Whether the applications are in order of name.
pub open spec fn sorted_by_name(apps: Seq<AppView>) -> bool {
    forall|i: int, j: int| 0 <= i < j < apps.len() ==> !text_before(#[trigger] apps[j].name, #[trigger] apps[i].name)
}

/// Whether no two neighbours have the same path.
pub open spec fn no_adjacent_same_path(apps: Seq<AppView>) -> bool {
    forall|i: int| 0 <= i < apps.len() - 1 ==> !same_path(#[trigger] apps[i].path, apps[i + 1].path)
}

// ---------------------------------------------------------------------------
// The order of names
// ---------------------------------------------------------------------------

/// No text comes before itself.
pub proof fn lemma_text_before_irreflexive(a: Seq<char>)
    ensures
        !text_before(a, a),
    decreases a.len(),
{
    if a.len() > 0 {
        lemma_text_before_irreflexive(a.drop_first());
    }
}

/// Of two different texts, one comes before the other.
pub proof fn lemma_text_before_total(a: Seq<char>, b: Seq<char>)
    ensures
        a == b || text_before(a, b) || text_before(b, a),
    decreases a.len(),
{
    if a.len() > 0 && b.len() > 0 && a[0] == b[0] {
        lemma_text_before_total(a.drop_first(), b.drop_first());
        if a.drop_first() == b.drop_first() {
            assert forall|k: int| 0 <= k < a.len() implies a[k] == b[k] by {
                if k > 0 {
                    assert(a[k] == a.drop_first()[k - 1]);
                    assert(b[k] == b.drop_first()[k - 1]);
                }
            }
            assert(a =~= b);
        }
    } else if a.len() > 0 && b.len() > 0 {
        vstd::utf8::char_u32_cast(a[0], a[0] as u32);
        vstd::utf8::char_u32_cast(b[0], b[0] as u32);
    } else if a.len() == 0 && b.len() == 0 {
        assert(a =~= b);
    }
}

/// Coming before is transitive.
pub proof fn lemma_text_before_transitive(a: Seq<char>, b: Seq<char>, c: Seq<char>)
    requires
        text_before(a, b),
        text_before(b, c),
    ensures
        text_before(a, c),
    decreases a.len(),
{
    if a.len() > 0 && b.len() > 0 && c.len() > 0 && a[0] == b[0] && b[0] == c[0] {
        lemma_text_before_transitive(a.drop_first(), b.drop_first(), c.drop_first());
    }
}

/// Not coming after is transitive.
pub proof fn lemma_text_not_after_transitive(a: Seq<char>, b: Seq<char>, c: Seq<char>)
    requires
        !text_before(b, a),
        !text_before(c, b),
    ensures
        !text_before(c, a),
{
    lemma_text_before_total(a, b);
    lemma_text_before_total(b, c);
    if text_before(c, a) {
        if a == b {
        } else if b == c {
        } else {
            lemma_text_before_transitive(a, b, c);
            lemma_text_before_transitive(c, a, b);
            lemma_text_before_irreflexive(c);
            lemma_text_before_transitive(c, b, c);
        }
    }
}

// ---------------------------------------------------------------------------
// Properties of the order and of the removal of repeats
// ---------------------------------------------------------------------------

/// Inserting at the place the scan from the back stops is `insert_by_name`.
pub proof fn lemma_insert_at(sorted: Seq<AppView>, x: AppView, pos: int)
    requires
        0 <= pos <= sorted.len(),
        forall|k: int| pos <= k < sorted.len() ==> text_before(x.name, #[trigger] sorted[k].name),
        pos == 0 || !text_before(x.name, sorted[pos - 1].name),
    ensures
        insert_by_name(sorted, x) == sorted.insert(pos, x),
    decreases sorted.len() - pos,
{
    if sorted.len() == 0 {
        assert(sorted.insert(pos, x) =~= seq![x]);
    } else if pos == sorted.len() {
        assert(sorted.insert(pos, x) =~= sorted.push(x));
    } else {
        let init = sorted.drop_last();
        assert(text_before(x.name, sorted[sorted.len() - 1].name));
        lemma_insert_at(init, x, pos);
        assert(init.insert(pos, x).push(sorted.last()) =~= sorted.insert(pos, x));
    }
}

/// Inserting by name keeps the order and adds exactly the one application.
pub proof fn lemma_insert_by_name_sorted(sorted: Seq<AppView>, x: AppView)
    requires
        sorted_by_name(sorted),
    ensures
        sorted_by_name(insert_by_name(sorted, x)),
        insert_by_name(sorted, x).to_multiset() == sorted.to_multiset().insert(x),
    decreases sorted.len(),
{
    broadcast use vstd::seq_lib::group_seq_properties;
    broadcast use vstd::multiset::group_multiset_axioms;
    if sorted.len() == 0 {
        assert(seq![x] =~= Seq::<AppView>::empty().push(x));
    } else {
        let init = sorted.drop_last();
        let last = sorted.last();
        assert(sorted =~= init.push(last));
        assert(sorted_by_name(init)) by {
            assert forall|i: int, j: int| 0 <= i < j < init.len() implies !text_before(
                #[trigger] init[j].name,
                #[trigger] init[i].name,
            ) by {
                assert(init[i] == sorted[i] && init[j] == sorted[j]);
            }
        }
        if text_before(x.name, last.name) {
            lemma_insert_by_name_sorted(init, x);
            let r = insert_by_name(init, x);
            let res = r.push(last);
            assert(r.to_multiset().contains(x));
            assert forall|i: int, j: int| 0 <= i < j < res.len() implies !text_before(
                #[trigger] res[j].name,
                #[trigger] res[i].name,
            ) by {
                if j == res.len() - 1 {
                    // every element of r is an element of init or x
                    assert(r.to_multiset().count(res[i]) > 0) by {
                        assert(r.contains(res[i]));
                    }
                    if res[i] == x {
                        lemma_text_before_asymmetric(x.name, last.name);
                    } else {
                        assert(init.to_multiset().count(res[i]) > 0);
                        assert(init.contains(res[i]));
                        let k = choose|k: int| 0 <= k < init.len() && init[k] == res[i];
                        assert(sorted[k] == init[k]);
                        assert(!text_before(sorted[sorted.len() - 1].name, sorted[k].name));
                    }
                } else {
                    assert(res[i] == r[i] && res[j] == r[j]);
                }
            }
            assert(res.to_multiset() =~= sorted.to_multiset().insert(x)) by {
                assert(res.to_multiset() =~= r.to_multiset().insert(last));
                assert(sorted.to_multiset() =~= init.to_multiset().insert(last));
            }
        } else {
            let res = sorted.push(x);
            assert forall|i: int, j: int| 0 <= i < j < res.len() implies !text_before(
                #[trigger] res[j].name,
                #[trigger] res[i].name,
            ) by {
                if j == res.len() - 1 {
                    if i < sorted.len() - 1 {
                        assert(!text_before(sorted[sorted.len() - 1].name, sorted[i].name));
                        lemma_text_not_after_transitive(sorted[i].name, last.name, x.name);
                    }
                } else {
                    assert(res[i] == sorted[i] && res[j] == sorted[j]);
                }
            }
        }
    }
}

/// Coming before is asymmetric.
pub proof fn lemma_text_before_asymmetric(a: Seq<char>, b: Seq<char>)
    requires
        text_before(a, b),
    ensures
        !text_before(b, a),
{
    if text_before(b, a) {
        lemma_text_before_transitive(a, b, a);
        lemma_text_before_irreflexive(a);
    }
}

/// Sorting by name gives the same applications, in order of name.
pub proof fn lemma_sort_by_name(apps: Seq<AppView>)
    ensures
        sorted_by_name(sort_by_name(apps)),
        sort_by_name(apps).to_multiset() == apps.to_multiset(),
    decreases apps.len(),
{
    broadcast use vstd::seq_lib::group_seq_properties;
    if apps.len() == 0 {
        assert(sort_by_name(apps).to_multiset() =~= apps.to_multiset());
    } else {
        lemma_sort_by_name(apps.drop_last());
        lemma_insert_by_name_sorted(sort_by_name(apps.drop_last()), apps.last());
        assert(apps =~= apps.drop_last().push(apps.last()));
    }
}

/// The removal of repeats keeps only applications it was given, in order, and
/// leaves no two neighbours with the same path.
pub proof fn lemma_dedup_paths(apps: Seq<AppView>)
    ensures
        no_adjacent_same_path(dedup_paths(apps)),
        dedup_paths(apps).len() <= apps.len(),
        forall|i: int| 0 <= i < dedup_paths(apps).len() ==> apps.contains(#[trigger] dedup_paths(apps)[i]),
        sorted_by_name(apps) ==> sorted_by_name(dedup_paths(apps)),
    decreases apps.len(),
{
    if apps.len() > 0 {
        let init = apps.drop_last();
        lemma_dedup_paths(init);
        let kept = dedup_paths(init);
        assert forall|i: int| 0 <= i < kept.len() implies apps.contains(#[trigger] kept[i]) by {
            let k = choose|k: int| 0 <= k < init.len() && init[k] == kept[i];
            assert(apps[k] == init[k]);
        }
        assert(apps[apps.len() - 1] == apps.last());
        if sorted_by_name(apps) {
            assert(sorted_by_name(init)) by {
                assert forall|i: int, j: int| 0 <= i < j < init.len() implies !text_before(
                    #[trigger] init[j].name,
                    #[trigger] init[i].name,
                ) by {
                    assert(init[i] == apps[i] && init[j] == apps[j]);
                }
            }
            let res = dedup_paths(apps);
            if !(kept.len() > 0 && same_path(apps.last().path, kept.last().path)) {
                assert forall|i: int, j: int| 0 <= i < j < res.len() implies !text_before(
                    #[trigger] res[j].name,
                    #[trigger] res[i].name,
                ) by {
                    if j == res.len() - 1 {
                        assert(res[i] == kept[i]);
                        assert(init.contains(kept[i]));
                        let k = choose|k: int| 0 <= k < init.len() && init[k] == kept[i];
                        assert(apps[k] == init[k]);
                        assert(!text_before(apps[apps.len() - 1].name, apps[k].name));
                    } else {
                        assert(res[i] == kept[i] && res[j] == kept[j]);
                    }
                }
            }
        }
    }
}

// ---------------------------------------------------------------------------
// Implementation
// ---------------------------------------------------------------------------

/// The application bundles among the paths of a directory's entries.
pub fn applications_in(entries: &Vec<String>) -> (r: Vec<App>)
    ensures
        apps_view(r@) == bundles_among(strings_view(entries@)),
{
    let mut out: Vec<App> = Vec::new();
    let n = entries.len();
    for k in 0..n
        invariant
            n == entries.len(),
            apps_view(out@) == bundles_among(strings_view(entries@).take(k as int)),
    {
        let ghost ev = strings_view(entries@);
        assert(ev.take(k + 1).drop_last() =~= ev.take(k as int));
        assert(ev.take(k + 1).last() == entries@[k as int]@);
        match app_bundle_name(entries[k].as_str()) {
            Some(name) => {
                let ghost prev = apps_view(out@);
                let app = App { name, path: entries[k].clone() };
                out.push(app);
                assert(apps_view(out@) =~= prev.push(app@));
            },
            None => {},
        }
    }
    assert(strings_view(entries@).take(n as int) =~= strings_view(entries@));
    out
}

/// Whether the name `a` comes before the name `b`.
pub fn name_before(a: &str, b: &str) -> (r: bool)
    ensures
        r == text_before(a@, b@),
{
    let x = chars_of(a);
    let y = chars_of(b);
    let mut i: usize = 0;
    assert(x@.skip(0) =~= x@);
    assert(y@.skip(0) =~= y@);
    while i < x.len() && i < y.len() && x[i] == y[i]
        invariant
            i <= x.len(),
            i <= y.len(),
            text_before(x@, y@) == text_before(x@.skip(i as int), y@.skip(i as int)),
        decreases x.len() - i,
    {
        assert(x@.skip(i as int).drop_first() =~= x@.skip(i + 1));
        assert(y@.skip(i as int).drop_first() =~= y@.skip(i + 1));
        assert(x@.skip(i as int)[0] == x@[i as int]);
        assert(y@.skip(i as int)[0] == y@[i as int]);
        i += 1;
    }
    if i == x.len() {
        i < y.len()
    } else if i == y.len() {
        false
    } else {
        assert(x@.skip(i as int)[0] == x@[i as int]);
        assert(y@.skip(i as int)[0] == y@[i as int]);
        (x[i] as u32) < (y[i] as u32)
    }
}

/// The found applications ordered by name, each repeat of the previous path
/// dropped.
pub fn sorted_unique_applications(found: Vec<App>) -> (r: Vec<App>)
    ensures
        apps_view(r@) == dedup_paths(sort_by_name(apps_view(found@))),
{
    let mut sorted: Vec<App> = Vec::new();
    let n = found.len();
    for k in 0..n
        invariant
            n == found.len(),
            apps_view(sorted@) == sort_by_name(apps_view(found@).take(k as int)),
    {
        let ghost fv = apps_view(found@);
        assert(fv.take(k + 1).drop_last() =~= fv.take(k as int));
        assert(fv.take(k + 1).last() == found@[k as int]@);
        let x = found[k].duplicate();
        let mut pos = sorted.len();
        while pos > 0 && name_before(x.name.as_str(), sorted[pos - 1].name.as_str())
            invariant
                pos <= sorted.len(),
                forall|j: int| pos <= j < sorted.len() ==> text_before(x@.name, #[trigger] apps_view(sorted@)[j].name),
            decreases pos,
        {
            pos -= 1;
        }
        proof {
            lemma_insert_at(apps_view(sorted@), x@, pos as int);
        }
        let ghost before = apps_view(sorted@);
        sorted.insert(pos, x);
        assert(apps_view(sorted@) =~= before.insert(pos as int, x@));
    }
    assert(apps_view(found@).take(n as int) =~= apps_view(found@));
    let ghost sv = apps_view(sorted@);
    let mut out: Vec<App> = Vec::new();
    let m = sorted.len();
    for k in 0..m
        invariant
            m == sorted.len(),
            sv == apps_view(sorted@),
            apps_view(out@) == dedup_paths(sv.take(k as int)),
    {
        assert(sv.take(k + 1).drop_last() =~= sv.take(k as int));
        assert(sv.take(k + 1).last() == sorted@[k as int]@);
        let repeat = out.len() > 0 && paths_equal(sorted[k].path.as_str(), out[out.len() - 1].path.as_str());
        if !repeat {
            let ghost prev = apps_view(out@);
            out.push(sorted[k].duplicate());
            assert(apps_view(out@) =~= prev.push(sorted@[k as int]@));
        }
    }
    assert(sv.take(m as int) =~= sv);
    out
}

} // verus!

verus! {

// ---------------------------------------------------------------------------
// No path twice in the scan result
// ---------------------------------------------------------------------------

/// The number of applications in `apps` named `name`.
pub open spec fn count_named(apps: Seq<AppView>, name: Seq<char>) -> nat
    decreases apps.len(),
{
    if apps.len() == 0 {
        0
    } else {
        count_named(apps.drop_last(), name) + if apps.last().name == name {
            1nat
        } else {
            0nat
        }
    }
}

/// No two of the applications have the same name.
pub open spec fn names_unique(apps: Seq<AppView>) -> bool {
    forall|i: int, j: int| 0 <= i < j < apps.len() ==> #[trigger] apps[i].name != #[trigger] apps[j].name
}

/// The application is a bundle found on disk: its name is the one its path
/// gives.
pub open spec fn is_bundle(app: AppView) -> bool {
    bundle_name(app.path) == Some(app.name)
}

/// No two of the applications have the same path.
pub open spec fn paths_unique(apps: Seq<AppView>) -> bool {
    forall|i: int, j: int| 0 <= i < j < apps.len() ==> !same_path(#[trigger] apps[i].path, #[trigger] apps[j].path)
}

/// Two applications with the same path stand next to each other.
pub open spec fn repeats_adjacent(apps: Seq<AppView>) -> bool {
    forall|i: int, j: int|
        0 <= i < j < apps.len() && same_path(#[trigger] apps[i].path, #[trigger] apps[j].path) ==> j == i + 1
}

/// Every application found among directory entries is a bundle.
pub proof fn lemma_bundles_are_bundles(entries: Seq<Seq<char>>)
    ensures
        forall|i: int| 0 <= i < bundles_among(entries).len() ==> is_bundle(#[trigger] bundles_among(entries)[i]),
    decreases entries.len(),
{
    if entries.len() > 0 {
        let init = entries.drop_last();
        lemma_bundles_are_bundles(init);
        let found = bundles_among(init);
        let r = bundles_among(entries);
        assert forall|i: int| 0 <= i < r.len() implies is_bundle(#[trigger] r[i]) by {
            if i < found.len() {
                assert(r[i] == found[i]);
            }
        }
    }
}

proof fn lemma_dedup_last(apps: Seq<AppView>)
    requires
        apps.len() > 0,
    ensures
        dedup_paths(apps).len() > 0,
        same_path(dedup_paths(apps).last().path, apps.last().path),
    decreases apps.len(),
{
    if apps.len() > 1 {
        lemma_dedup_last(apps.drop_last());
    }
}

/// When repeated paths stand only next to each other, removing repeats
/// leaves every path once.
pub proof fn lemma_dedup_unique(apps: Seq<AppView>)
    requires
        repeats_adjacent(apps),
    ensures
        paths_unique(dedup_paths(apps)),
    decreases apps.len(),
{
    if apps.len() > 0 {
        let n = apps.len() as int;
        let init = apps.drop_last();
        assert(repeats_adjacent(init)) by {
            assert forall|i: int, j: int|
                0 <= i < j < init.len() && same_path(#[trigger] init[i].path, #[trigger] init[j].path) implies j == i + 1 by {
                assert(init[i] == apps[i] && init[j] == apps[j]);
            }
        }
        lemma_dedup_unique(init);
        lemma_dedup_paths(init);
        let kept = dedup_paths(init);
        let x = apps.last();
        if !(kept.len() > 0 && same_path(x.path, kept.last().path)) {
            let r = kept.push(x);
            assert forall|i: int, j: int| 0 <= i < j < r.len() implies !same_path(
                #[trigger] r[i].path,
                #[trigger] r[j].path,
            ) by {
                if j == r.len() - 1 {
                    assert(r[i] == kept[i]);
                    assert(init.contains(kept[i]));
                    let k = choose|k: int| 0 <= k < init.len() && init[k] == kept[i];
                    assert(apps[k] == init[k]);
                    assert(apps[n - 1] == x);
                    if same_path(kept[i].path, x.path) {
                        assert(k == n - 2);
                        lemma_dedup_last(init);
                        assert(init.last() == apps[n - 2]);
                    }
                } else {
                    assert(r[i] == kept[i] && r[j] == kept[j]);
                }
            }
        }
    }
}

proof fn lemma_count_insert(sorted: Seq<AppView>, x: AppView, name: Seq<char>)
    ensures
        count_named(insert_by_name(sorted, x), name) == count_named(sorted, name) + if x.name == name {
            1nat
        } else {
            0nat
        },
    decreases sorted.len(),
{
    if sorted.len() == 0 {
        assert(seq![x].drop_last() =~= Seq::<AppView>::empty());
        assert(seq![x].last() == x);
        assert(count_named(Seq::<AppView>::empty(), name) == 0);
    } else if text_before(x.name, sorted.last().name) {
        lemma_count_insert(sorted.drop_last(), x, name);
        let r = insert_by_name(sorted.drop_last(), x);
        assert(insert_by_name(sorted, x) == r.push(sorted.last()));
        assert(r.push(sorted.last()).drop_last() =~= r);
        assert(r.push(sorted.last()).last() == sorted.last());
    } else {
        assert(insert_by_name(sorted, x) == sorted.push(x));
        assert(sorted.push(x).drop_last() =~= sorted);
        assert(sorted.push(x).last() == x);
    }
}

proof fn lemma_count_sort(apps: Seq<AppView>, name: Seq<char>)
    ensures
        count_named(sort_by_name(apps), name) == count_named(apps, name),
    decreases apps.len(),
{
    if apps.len() > 0 {
        lemma_count_sort(apps.drop_last(), name);
        lemma_count_insert(sort_by_name(apps.drop_last()), apps.last(), name);
    }
}

proof fn lemma_count_concat(a: Seq<AppView>, b: Seq<AppView>, name: Seq<char>)
    ensures
        count_named(a + b, name) == count_named(a, name) + count_named(b, name),
    decreases b.len(),
{
    if b.len() == 0 {
        assert(a + b =~= a);
    } else {
        lemma_count_concat(a, b.drop_last(), name);
        assert((a + b).drop_last() =~= a + b.drop_last());
    }
}

proof fn lemma_count_unique(a: Seq<AppView>, name: Seq<char>)
    requires
        names_unique(a),
    ensures
        count_named(a, name) <= 1,
    decreases a.len(),
{
    if a.len() > 0 {
        let init = a.drop_last();
        assert(names_unique(init)) by {
            assert forall|i: int, j: int| 0 <= i < j < init.len() implies #[trigger] init[i].name != #[trigger] init[j].name by {
                assert(init[i] == a[i] && init[j] == a[j]);
            }
        }
        lemma_count_unique(init, name);
        if a.last().name == name && count_named(init, name) == 1 {
            lemma_count_witness(init, name);
            let k = choose|k: int| 0 <= k < init.len() && init[k].name == name;
            assert(a[k] == init[k]);
            assert(a[a.len() - 1].name == name);
        }
    }
}

proof fn lemma_count_witness(a: Seq<AppView>, name: Seq<char>)
    requires
        count_named(a, name) > 0,
    ensures
        exists|k: int| 0 <= k < a.len() && a[k].name == name,
    decreases a.len(),
{
    if a.last().name == name {
        assert(a[a.len() - 1].name == name);
    } else {
        lemma_count_witness(a.drop_last(), name);
        let k = choose|k: int| 0 <= k < a.drop_last().len() && a.drop_last()[k].name == name;
        assert(a[k] == a.drop_last()[k]);
    }
}

proof fn lemma_count_prefix(a: Seq<AppView>, name: Seq<char>, t: int, u: int)
    requires
        0 <= t <= u <= a.len(),
    ensures
        count_named(a.take(t), name) + (if t < u && a[t].name == name { 1nat } else { 0nat }) <= count_named(a.take(u), name),
    decreases u - t,
{
    if t < u {
        if t + 1 < u {
            lemma_count_prefix(a, name, t + 1, u);
        } else {
            assert(a.take(u) =~= a.take(u));
        }
        assert(a.take(t + 1).drop_last() =~= a.take(t));
        assert(a.take(t + 1).last() == a[t]);
    }
}

/// Found applications with the same path have the same name.
proof fn lemma_same_path_same_name(a: AppView, b: AppView)
    requires
        is_bundle(a),
        is_bundle(b),
        same_path(a.path, b.path),
    ensures
        a.name == b.name,
{
}

proof fn lemma_from_folders(user: Seq<AppView>, system: Seq<AppView>, k: int)
    requires
        forall|i: int| 0 <= i < user.len() ==> is_bundle(#[trigger] user[i]),
        forall|i: int| 0 <= i < system.len() ==> is_bundle(#[trigger] system[i]),
        0 <= k < user.len() + system.len(),
    ensures
        is_bundle((user + system)[k]),
{
    if k < user.len() {
        assert((user + system)[k] == user[k]);
    } else {
        assert((user + system)[k] == system[k - user.len()]);
    }
}

#[verifier::rlimit(40)]
proof fn lemma_same_path_adjacent(user: Seq<AppView>, system: Seq<AppView>, i: int, j: int)
    requires
        names_unique(user),
        names_unique(system),
        forall|i: int| 0 <= i < user.len() ==> is_bundle(#[trigger] user[i]),
        forall|i: int| 0 <= i < system.len() ==> is_bundle(#[trigger] system[i]),
        0 <= i < j < sort_by_name(user + system).len(),
        same_path(sort_by_name(user + system)[i].path, sort_by_name(user + system)[j].path),
    ensures
        j == i + 1,
{
    broadcast use vstd::seq_lib::group_seq_properties;
    let all = user + system;
    let s = sort_by_name(all);
    lemma_sort_by_name(all);
    assert(s.to_multiset().count(s[i]) > 0);
    assert(s.to_multiset().count(s[j]) > 0);
    assert(all.contains(s[i]));
    assert(all.contains(s[j]));
    let ki = choose|k: int| 0 <= k < all.len() && all[k] == s[i];
    let kj = choose|k: int| 0 <= k < all.len() && all[k] == s[j];
    lemma_from_folders(user, system, ki);
    lemma_from_folders(user, system, kj);
    lemma_same_path_same_name(s[i], s[j]);
    let name = s[i].name;
    if j > i + 1 {
        let m = i + 1;
        assert(!text_before(s[m].name, s[i].name));
        assert(!text_before(s[j].name, s[m].name));
        lemma_text_before_total(s[m].name, name);
        assert(s[m].name == name);
        lemma_count_prefix(s, name, 0, i);
        lemma_count_prefix(s, name, i, m);
        lemma_count_prefix(s, name, m, j);
        lemma_count_prefix(s, name, j, s.len() as int);
        assert(s.take(s.len() as int) =~= s);
        assert(s.take(0) =~= Seq::<AppView>::empty());
        lemma_count_sort(all, name);
        lemma_count_concat(user, system, name);
        lemma_count_unique(user, name);
        lemma_count_unique(system, name);
    }
}

/// The applications of the two scanned folders come out with every path
/// once: within each folder no two bundles share a name (their file names
/// differ), and after ordering by name the repeats of a path stand next to
/// each other, where they are removed.
pub proof fn lemma_scan_paths_unique(user: Seq<AppView>, system: Seq<AppView>)
    requires
        names_unique(user),
        names_unique(system),
        forall|i: int| 0 <= i < user.len() ==> is_bundle(#[trigger] user[i]),
        forall|i: int| 0 <= i < system.len() ==> is_bundle(#[trigger] system[i]),
    ensures
        paths_unique(dedup_paths(sort_by_name(user + system))),
{
    let s = sort_by_name(user + system);
    assert forall|i: int, j: int|
        0 <= i < j < s.len() && same_path(#[trigger] s[i].path, #[trigger] s[j].path) implies j == i + 1 by {
        lemma_same_path_adjacent(user, system, i, j);
    }
    lemma_dedup_unique(s);
}

} // verus!
