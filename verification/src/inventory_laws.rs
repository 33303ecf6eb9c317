//! What holds of the inventory that a scan leaves, file by file.

use crate::assembly;
use crate::assembly::{BuiltinView, SourceFileView};
use crate::catalog;
use crate::catalog::EntryMap;
use crate::compile;
use crate::config::ConfigView;
use crate::dashboards::{CompiledScanView, DashboardsView, TreeError};
use crate::entry::{DiagnosticView, EntryView, Source, Status};
use crate::laws;
use crate::pb;
use crate::text;
use vstd::prelude::*;

verus! {

/// The id that a file names: that of its tree or, where it has none, the one that its
/// text declares.
pub open spec fn named(f: SourceFileView) -> Option<Seq<char>> {
    match f.outcome.tree {
        Some(tree) => Some(tree.id),
        None => compile::id_declared_in(f.text),
    }
}

/// Whether the files at the given places name an id, and no others do.
pub open spec fn name_it(files: Seq<SourceFileView>, places: Seq<int>, id: Seq<char>) -> bool {
    &&& forall|a: int, b: int|
        0 <= a < b < places.len() ==> (#[trigger] places[a]) < (#[trigger] places[b])
    &&& forall|a: int| 0 <= a < places.len() ==> 0 <= #[trigger] places[a] < files.len()
    &&& forall|j: int|
        0 <= j < files.len() ==> (named(#[trigger] files[j]) == Some(id) <==> places.contains(j))
}

/// The files at some places.
pub open spec fn at(files: Seq<SourceFileView>, places: Seq<int>) -> Seq<SourceFileView> {
    places.map_values(|k: int| files[k])
}

/// The files that declare an id are those at the places that name it.
proof fn lemma_declaring_at(files: Seq<SourceFileView>, places: Seq<int>, id: Seq<char>)
    requires
        name_it(files, places, id),
    ensures
        assembly::declaring(files, id) == at(files, places),
    decreases files.len(),
{
    reveal(Seq::filter);
    if files.len() == 0 {
        if places.len() > 0 {
            assert(0 <= places[0] < files.len());
        }
        assert(at(files, places) =~= Seq::<SourceFileView>::empty());
        assert(assembly::declaring(files, id) =~= Seq::<SourceFileView>::empty());
    } else {
        let last = files.len() - 1;
        let shorter = files.drop_last();
        if named(files[last]) == Some(id) {
            assert(places.contains(last));
            let a = choose|a: int| 0 <= a < places.len() && places[a] == last;
            if a < places.len() - 1 {
                assert(places[a] < places[places.len() - 1]);
            }
            let fewer = places.drop_last();
            assert(places.last() == last);
            assert(name_it(shorter, fewer, id)) by {
                assert forall|b: int| 0 <= b < fewer.len() implies 0 <= #[trigger] fewer[b]
                    < shorter.len() by {
                    assert(fewer[b] == places[b]);
                    assert(places[b] < places[places.len() - 1]);
                }
                assert forall|j: int| 0 <= j < shorter.len() implies (named(
                    #[trigger] shorter[j],
                ) == Some(id) <==> fewer.contains(j)) by {
                    assert(shorter[j] == files[j]);
                    if places.contains(j) {
                        let b = choose|b: int| 0 <= b < places.len() && places[b] == j;
                        assert(fewer[b] == j);
                    }
                    if fewer.contains(j) {
                        let b = choose|b: int| 0 <= b < fewer.len() && fewer[b] == j;
                        assert(places[b] == j);
                    }
                }
            }
            lemma_declaring_at(shorter, fewer, id);
            assert(at(files, places) =~= at(shorter, fewer).push(files[last]));
        } else {
            assert(name_it(shorter, places, id)) by {
                assert forall|b: int| 0 <= b < places.len() implies 0 <= #[trigger] places[b]
                    < shorter.len() by {
                    assert(places.contains(places[b]));
                    assert(named(files[places[b]]) == Some(id));
                }
                assert forall|j: int| 0 <= j < shorter.len() implies (named(
                    #[trigger] shorter[j],
                ) == Some(id) <==> places.contains(j)) by {
                    assert(shorter[j] == files[j]);
                }
            }
            lemma_declaring_at(shorter, places, id);
            assert(at(files, places) =~= at(shorter, places));
        }
        assert(files.last().id() == named(files[last]));
    }
}

/// Whether a file names an id.
pub open spec fn is_mounted(scan: CompiledScanView, id: Seq<char>) -> bool {
    exists|k: int| 0 <= k < scan.files.len() && named(#[trigger] scan.files[k]) == Some(id)
}

/// Whether embedded dashboards are on, and one has an id.
pub open spec fn is_embedded(s: DashboardsView, id: Seq<char>) -> bool {
    s.config.builtins && exists|k: int|
        0 <= k < s.builtins.len() && (#[trigger] s.builtins[k]).id == id
}

/// Whether the limit would hold all dashboards, even if each had an id of its own.
pub open spec fn has_room(s: DashboardsView, scan: CompiledScanView) -> bool {
    scan.files.len() + s.builtins.len() <= s.config.limits.max_dashboards
}

/// An id is offered if and only if a file names it or an embedded dashboard has it.
proof fn lemma_offered(s: DashboardsView, scan: CompiledScanView, id: Seq<char>)
    ensures
        assembly::declaring(scan.files, id).len() > 0 <==> is_mounted(scan, id),
        assembly::offered(s.config, s.builtins, scan.files, s.entries).contains_key(id) <==> is_mounted(
            scan,
            id,
        ) || is_embedded(s, id),
{
    let pred = |f: SourceFileView| f.id() == Some(id);
    if assembly::declaring(scan.files, id).len() > 0 {
        let f = assembly::declaring(scan.files, id)[0];
        assembly::lemma_declaring_id(scan.files, id, 0);
        scan.files.lemma_filter_contains_rev(pred, f);
        let k = scan.files.index_of(f);
        assert(named(scan.files[k]) == Some(id));
    }
    if is_mounted(scan, id) {
        let k = choose|k: int|
            0 <= k < scan.files.len() && named(#[trigger] scan.files[k]) == Some(id);
        scan.files.lemma_filter_contains(pred, k);
    }
    lemma_embedded_ids(s.builtins, id);
    assert(assembly::mounted(scan.files, s.entries).contains_key(id) <==> assembly::declaring(
        scan.files,
        id,
    ).len() > 0);
}

/// The embedded ids are those of the embedded dashboards.
proof fn lemma_embedded_ids(builtins: Seq<BuiltinView>, id: Seq<char>)
    ensures
        assembly::embedded(builtins).contains_key(id) <==> exists|k: int|
            0 <= k < builtins.len() && (#[trigger] builtins[k]).id == id,
    decreases builtins.len(),
{
    if builtins.len() > 0 {
        let shorter = builtins.drop_last();
        let last = builtins.len() - 1;
        lemma_embedded_ids(shorter, id);
        if exists|k: int| 0 <= k < shorter.len() && (#[trigger] shorter[k]).id == id {
            let k = choose|k: int| 0 <= k < shorter.len() && (#[trigger] shorter[k]).id == id;
            assert(builtins[k].id == id);
        }
        if exists|k: int| 0 <= k < builtins.len() && (#[trigger] builtins[k]).id == id {
            let k = choose|k: int| 0 <= k < builtins.len() && (#[trigger] builtins[k]).id == id;
            if k < last {
                assert(shorter[k].id == id);
            } else {
                assert(builtins[last].id == id);
            }
        }
    }
}

/// Where there is room the limit keeps each id that is offered.
proof fn lemma_room(s: DashboardsView, scan: CompiledScanView, id: Seq<char>)
    requires
        has_room(s, scan),
        assembly::offered(s.config, s.builtins, scan.files, s.entries).contains_key(id),
    ensures
        laws::is_kept(s, scan, id),
{
    let m = assembly::offered(s.config, s.builtins, scan.files, s.entries);
    let mounted = scan.files.map_values(|f: SourceFileView| f.id()->0);
    let embedded = s.builtins.map_values(|b: BuiltinView| b.id);
    let all = mounted + embedded;
    vstd::seq_lib::seq_to_set_is_finite(all);
    assert(m.dom().subset_of(all.to_set())) by {
        assert forall|o: Seq<char>| #[trigger] m.dom().contains(o) implies all.to_set().contains(
            o,
        ) by {
            lemma_offered(s, scan, o);
            if is_mounted(scan, o) {
                let k = choose|k: int|
                    0 <= k < scan.files.len() && named(#[trigger] scan.files[k]) == Some(o);
                assert(all[k] == o);
            } else {
                let k = choose|k: int|
                    0 <= k < s.builtins.len() && (#[trigger] s.builtins[k]).id == o;
                assert(all[mounted.len() + k] == o);
            }
        }
    }
    vstd::set_lib::lemma_len_subset(m.dom(), all.to_set());
    all.lemma_cardinality_of_set();
    let smaller = m.dom().filter(|other: Seq<char>| text::str_before(other, id));
    text::lemma_str_before_irreflexive(id);
    assert(smaller.subset_of(m.dom().remove(id)));
    vstd::set_lib::lemma_len_subset(smaller, m.dom().remove(id));
}

/// A scan leaves no id that neither a file names nor an embedded dashboard has, and
/// where there is room it leaves each that one of them does.
pub proof fn law_which_ids_a_scan_leaves(s: DashboardsView, scan: CompiledScanView, id: Seq<char>)
    requires
        s.config.enabled,
    ensures
        s.after(Some(scan)).entries.contains_key(id) ==> is_mounted(scan, id) || is_embedded(s, id),
        has_room(s, scan) && (is_mounted(scan, id) || is_embedded(s, id)) ==> s.after(
            Some(scan),
        ).entries.contains_key(id),
{
    lemma_offered(s, scan, id);
    if has_room(s, scan) && (is_mounted(scan, id) || is_embedded(s, id)) {
        lemma_room(s, scan, id);
    }
}

/// What the limit drops comes after all that it keeps, and only where it is used up.
pub proof fn law_what_the_limit_drops(
    s: DashboardsView,
    scan: CompiledScanView,
    kept: Seq<char>,
    dropped: Seq<char>,
)
    requires
        laws::is_valid(s),
        s.config.enabled,
        is_mounted(scan, dropped) || is_embedded(s, dropped),
        !s.after(Some(scan)).entries.contains_key(dropped),
    ensures
        s.after(Some(scan)).entries.dom().len() == s.config.limits.max_dashboards,
        s.after(Some(scan)).entries.contains_key(kept) ==> text::str_before(kept, dropped),
{
    let all = assembly::offered(s.config, s.builtins, scan.files, s.entries);
    lemma_offered(s, scan, dropped);
    laws::law_limit_drops_last_ids(s.config, s.builtins, scan.files, s.entries);
    assert(all.contains_key(dropped));
    if s.after(Some(scan)).entries.contains_key(kept) {
        assert(s.rescanned(scan).contains_key(kept));
    }
}

/// What a scan leaves under an id that files name is the entry of those files.
proof fn lemma_left(s: DashboardsView, scan: CompiledScanView, id: Seq<char>)
    requires
        s.config.enabled,
        s.after(Some(scan)).entries.contains_key(id),
        assembly::declaring(scan.files, id).len() > 0,
    ensures
        s.after(Some(scan)).entries[id] == assembly::mounted_entry(scan.files, s.entries, id),
{
    assert(assembly::mounted(scan.files, s.entries).contains_key(id));
}

/// The tree of the one file that names an id is what is served under it: the id, title,
/// hash, schema and JSON that the compiler made, whatever remarks it had and whatever
/// was held before.
pub proof fn law_a_compiled_file_is_served(s: DashboardsView, scan: CompiledScanView, k: int)
    requires
        s.config.enabled,
        0 <= k < scan.files.len(),
        scan.files[k].outcome.tree is Some,
        forall|j: int|
            0 <= j < scan.files.len() && j != k ==> named(#[trigger] scan.files[j])
                != Some(scan.files[k].outcome.tree->0.id),
    ensures
        ({
            let tree = scan.files[k].outcome.tree->0;
            let t = s.after(Some(scan));
            let e = t.entries[tree.id];
            &&& has_room(s, scan) ==> t.entries.contains_key(tree.id)
            &&& t.entries.contains_key(tree.id) ==> {
                &&& e.id == tree.id
                &&& e.title == tree.title
                &&& e.hash == tree.hash
                &&& e.schema == tree.schema
                &&& e.tree_json == Some(tree.json)
                &&& e.source == Source::Mounted
                &&& e.status == Status::Okay
                &&& e.diagnostics.len() == 0
                &&& e.diagnostics_truncated == 0
                &&& t.tree(tree.id) == Ok::<pb::RenderTreeView, TreeError>(
                    pb::RenderTreeView {
                        id: tree.id,
                        hash: tree.hash,
                        schema: tree.schema,
                        json: vstd::utf8::encode_utf8(tree.json),
                    },
                )
            }
        }),
{
    let id = scan.files[k].outcome.tree->0.id;
    let places = seq![k];
    assert(name_it(scan.files, places, id)) by {
        assert forall|j: int| 0 <= j < scan.files.len() implies (named(#[trigger] scan.files[j])
            == Some(id) <==> places.contains(j)) by {
            if j == k {
                assert(places[0] == j);
            }
        }
    }
    lemma_declaring_at(scan.files, places, id);
    assert(at(scan.files, places)[0] == scan.files[k]);
    law_which_ids_a_scan_leaves(s, scan, id);
    if s.after(Some(scan)).entries.contains_key(id) {
        lemma_left(s, scan, id);
    }
}

/// How many of some remarks are errors.
pub open spec fn count_errors(remarks: Seq<DiagnosticView>) -> nat
    decreases remarks.len(),
{
    if remarks.len() == 0 {
        0
    } else {
        count_errors(remarks.drop_last()) + if remarks.last().error {
            1nat
        } else {
            0
        }
    }
}

/// The errors among remarks are as many as remarks are errors.
proof fn lemma_count_errors(remarks: Seq<DiagnosticView>)
    ensures
        compile::errors(remarks).len() == count_errors(remarks),
    decreases remarks.len(),
{
    reveal(Seq::filter);
    if remarks.len() > 0 {
        lemma_count_errors(remarks.drop_last());
    }
}

/// Where the one file that names an id did not compile, a tree that was held under the
/// id is served on, as stale, with all else that was held of it; where none was, the
/// dashboard failed and nothing is served. Either way the entry carries the first ten of
/// the file's errors, and counts the others.
pub proof fn law_a_failing_file_is_reported(
    s: DashboardsView,
    scan: CompiledScanView,
    k: int,
    id: Seq<char>,
)
    requires
        laws::is_valid(s),
        s.config.enabled,
        0 <= k < scan.files.len(),
        scan.files[k].outcome.tree is None,
        compile::id_declared_in(scan.files[k].text) == Some(id),
        forall|j: int|
            0 <= j < scan.files.len() && j != k ==> named(#[trigger] scan.files[j]) != Some(id),
    ensures
        ({
            let remarks = scan.files[k].outcome.diagnostics;
            let count = count_errors(remarks);
            let t = s.after(Some(scan));
            let e = t.entries[id];
            let good = s.entries[id];
            &&& has_room(s, scan) ==> t.entries.contains_key(id)
            &&& t.entries.contains_key(id) ==> {
                &&& e.id == id
                &&& e.source == Source::Mounted
                &&& e.diagnostics.len() == (if count < 10 {
                    count
                } else {
                    10
                })
                &&& count <= 10 + u32::MAX ==> e.diagnostics.len() + e.diagnostics_truncated
                    == count
                &&& forall|i: int|
                    0 <= i < e.diagnostics.len() ==> #[trigger] e.diagnostics[i]
                        == compile::errors(remarks)[i]
                &&& if s.entries.contains_key(id) && good.tree_json is Some {
                    &&& e.status == Status::Stale
                    &&& e.title == good.title
                    &&& e.hash == good.hash
                    &&& e.schema == good.schema
                    &&& e.tree_json == good.tree_json
                    &&& t.tree(id) == s.tree(id)
                } else {
                    &&& e.status == Status::Failed
                    &&& e.title.len() == 0
                    &&& e.hash.len() == 0
                    &&& e.schema == 0
                    &&& e.tree_json is None
                    &&& t.tree(id) == Err::<pb::RenderTreeView, TreeError>(
                        TreeError::NeverCompiled,
                    )
                }
            }
        }),
{
    let places = seq![k];
    assert(name_it(scan.files, places, id)) by {
        assert forall|j: int| 0 <= j < scan.files.len() implies (named(#[trigger] scan.files[j])
            == Some(id) <==> places.contains(j)) by {
            if j == k {
                assert(places[0] == j);
            }
        }
    }
    lemma_declaring_at(scan.files, places, id);
    assert(at(scan.files, places)[0] == scan.files[k]);
    lemma_count_errors(scan.files[k].outcome.diagnostics);
    assert(named(scan.files[k]) == Some(id));
    law_which_ids_a_scan_leaves(s, scan, id);
    if s.after(Some(scan)).entries.contains_key(id) {
        lemma_left(s, scan, id);
    }
}

/// Where several files name an id none of them is served, nor is what was held: the
/// dashboard failed, and its one error gives the id and the paths of the files, in the
/// order in which they were read.
pub proof fn law_several_files_admit_none(
    s: DashboardsView,
    scan: CompiledScanView,
    places: Seq<int>,
    id: Seq<char>,
)
    requires
        s.config.enabled,
        name_it(scan.files, places, id),
        places.len() > 1,
    ensures
        ({
            let t = s.after(Some(scan));
            let e = t.entries[id];
            &&& has_room(s, scan) ==> t.entries.contains_key(id)
            &&& t.entries.contains_key(id) ==> {
                &&& e.id == id
                &&& e.source == Source::Mounted
                &&& e.status == Status::Failed
                &&& e.title.len() == 0
                &&& e.hash.len() == 0
                &&& e.schema == 0
                &&& e.tree_json is None
                &&& e.diagnostics_truncated == 0
                &&& e.diagnostics.len() == 1
                &&& e.diagnostics[0].code == "E-100"@
                &&& e.diagnostics[0].path.len() == 0
                &&& e.diagnostics[0].error
                &&& e.diagnostics[0].message == "`"@ + id
                    + "` is declared by more than one file: "@ + text::joined(
                    places.map_values(|k: int| scan.files[k].path),
                    ", "@,
                )
                &&& t.tree(id) == Err::<pb::RenderTreeView, TreeError>(TreeError::NeverCompiled)
            }
        }),
{
    lemma_declaring_at(scan.files, places, id);
    let k = places[0];
    assert(places.contains(k));
    assert(named(scan.files[k]) == Some(id));
    law_which_ids_a_scan_leaves(s, scan, id);
    assert(assembly::paths(at(scan.files, places)) =~= places.map_values(
        |k: int| scan.files[k].path,
    ));
    reveal_strlit("");
    if s.after(Some(scan)).entries.contains_key(id) {
        lemma_left(s, scan, id);
    }
}

/// An embedded dashboard whose id no file names is served as it was embedded.
pub proof fn law_an_embedded_dashboard_is_served(
    s: DashboardsView,
    scan: CompiledScanView,
    k: int,
)
    requires
        s.config.enabled,
        s.config.builtins,
        0 <= k < s.builtins.len(),
        forall|j: int| k < j < s.builtins.len() ==> (#[trigger] s.builtins[j]).id != s.builtins[k].id,
        forall|j: int|
            0 <= j < scan.files.len() ==> named(#[trigger] scan.files[j]) != Some(
                s.builtins[k].id,
            ),
    ensures
        ({
            let b = s.builtins[k];
            let t = s.after(Some(scan));
            let e = t.entries[b.id];
            &&& has_room(s, scan) ==> t.entries.contains_key(b.id)
            &&& t.entries.contains_key(b.id) ==> {
                &&& e.id == b.id
                &&& e.title == b.title
                &&& e.hash == b.hash
                &&& e.schema == b.schema
                &&& e.tree_json == Some(b.json)
                &&& e.source == Source::Builtin
                &&& e.status == Status::Okay
                &&& e.diagnostics.len() == 0
                &&& e.diagnostics_truncated == 0
                &&& t.tree(b.id) == Ok::<pb::RenderTreeView, TreeError>(
                    pb::RenderTreeView {
                        id: b.id,
                        hash: b.hash,
                        schema: b.schema,
                        json: vstd::utf8::encode_utf8(b.json),
                    },
                )
            }
        }),
{
    let id = s.builtins[k].id;
    law_which_ids_a_scan_leaves(s, scan, id);
    lemma_offered(s, scan, id);
    assert(!is_mounted(scan, id));
    assert(is_embedded(s, id));
    if s.after(Some(scan)).entries.contains_key(id) {
        assert(laws::is_kept(s, scan, id));
        laws::law_builtin_is_served(s, scan, k);
    }
}

/// An id that neither a file names nor an embedded dashboard has is unknown after a scan.
pub proof fn law_nothing_else_is_served(s: DashboardsView, scan: CompiledScanView, id: Seq<char>)
    requires
        s.config.enabled,
        forall|j: int| 0 <= j < scan.files.len() ==> named(#[trigger] scan.files[j]) != Some(id),
        s.config.builtins ==> forall|j: int|
            0 <= j < s.builtins.len() ==> (#[trigger] s.builtins[j]).id != id,
    ensures
        !s.after(Some(scan)).entries.contains_key(id),
        s.after(Some(scan)).tree(id) == Err::<pb::RenderTreeView, TreeError>(TreeError::Unknown),
{
    law_which_ids_a_scan_leaves(s, scan, id);
}

/// A scan changes the inventory if and only if an id comes or goes, or the hash, the
/// status or the number of errors under one that stays is another.
pub proof fn law_what_is_a_change(s: DashboardsView, scan: CompiledScanView)
    requires
        laws::is_valid(s),
        s.config.enabled,
    ensures
        ({
            let old_entries = s.entries;
            let new_entries = s.after(Some(scan)).entries;
            s.changes(Some(scan)) <==> exists|id: Seq<char>| #[trigger]
                differs(old_entries, new_entries, id)
        }),
{
    let a = s.entries;
    let b = s.after(Some(scan)).entries;
    laws::law_scan_keeps_valid(s, Some(scan));
    if !(exists|id: Seq<char>| #[trigger] differs(a, b, id)) {
        assert forall|id: Seq<char>| a.dom().contains(id) == b.dom().contains(id) by {
            assert(!differs(a, b, id));
        }
        assert(a.dom() =~= b.dom());
        assert forall|id: Seq<char>| #[trigger] a.contains_key(id) implies a[id].identity()
            == b[id].identity() by {
            assert(!differs(a, b, id));
            assert(b.contains_key(id));
        }
    }
    if catalog::same_inventory(a, b) {
        assert forall|id: Seq<char>| !(#[trigger] differs(a, b, id)) by {
            assert(a.dom().contains(id) == b.dom().contains(id));
            if a.contains_key(id) {
                assert(a[id].identity() == b[id].identity());
            }
        }
    }
}

/// Whether two inventories differ in what the relay is told by one id.
pub open spec fn differs(a: EntryMap, b: EntryMap, id: Seq<char>) -> bool {
    ||| a.contains_key(id) != b.contains_key(id)
    ||| a.contains_key(id) && (a[id].hash != b[id].hash || a[id].status != b[id].status
        || a[id].diagnostics.len() != b[id].diagnostics.len())
}

/// A scan that was not given up leaves the settings, the embedded dashboards and the
/// fallback label as they were, and keeps what it found of the files.
pub proof fn law_what_a_scan_keeps(s: DashboardsView, scan: CompiledScanView)
    requires
        s.config.enabled,
    ensures
        ({
            let t = s.after(Some(scan));
            &&& t.config == s.config
            &&& t.builtins == s.builtins
            &&& t.fallback_label == s.fallback_label
            &&& t.fingerprint == scan.fingerprint
            &&& scan.files.len() <= u32::MAX ==> t.files_scanned == scan.files.len()
        }),
{
}

/// A store starts with nothing but its settings and the embedded dashboards, which the
/// first scan offers.
pub proof fn law_a_store_starts_empty(config: ConfigView, builtins: Seq<BuiltinView>, id: Seq<char>)
    ensures
        ({
            let s = DashboardsView::start(config, builtins);
            &&& s.config == config
            &&& s.builtins == builtins
            &&& s.generation == 0
            &&& s.wakes == 0
            &&& s.files_scanned == 0
            &&& s.fingerprint.len() == 0
            &&& s.fallback_label.len() == 0
            &&& !s.entries.contains_key(id)
            &&& s.tree(id) == Err::<pb::RenderTreeView, TreeError>(TreeError::Unknown)
        }),
{
}

/// A tree is served under an id if and only if one is held under it, and with it the
/// hash and the schema that are held; the JSON is served in UTF-8.
pub proof fn law_what_is_served(s: DashboardsView, id: Seq<char>)
    ensures
        s.tree(id) is Ok <==> s.entries.contains_key(id) && s.entries[id].tree_json is Some,
        s.tree(id) matches Ok(tree) ==> {
            &&& tree.id == s.entries[id].id
            &&& tree.hash == s.entries[id].hash
            &&& tree.schema == s.entries[id].schema
            &&& tree.json == vstd::utf8::encode_utf8(s.entries[id].tree_json->0)
        },
        s.tree(id) matches Err(e) ==> (e == TreeError::Unknown <==> !s.entries.contains_key(id)),
{
}

/// Each announced dashboard is told in full: what is held under its id, with each of the
/// errors that are held, in their order.
pub proof fn law_entries_are_announced_in_full(s: DashboardsView, i: int)
    requires
        laws::is_valid(s),
        0 <= i < s.announcement().entries.len(),
    ensures
        ({
            let a = s.announcement().entries[i];
            let e = s.entries[a.id];
            &&& s.entries.contains_key(a.id)
            &&& a.title == e.title
            &&& a.hash == e.hash
            &&& a.schema == e.schema
            &&& a.source == pb::DashboardSource::Builtin <==> e.source == Source::Builtin
            &&& a.source == pb::DashboardSource::Mounted <==> e.source == Source::Mounted
            &&& a.status == pb::DashboardStatus::Okay <==> e.status == Status::Okay
            &&& a.status == pb::DashboardStatus::Stale <==> e.status == Status::Stale
            &&& a.status == pb::DashboardStatus::Failed <==> e.status == Status::Failed
            &&& a.diagnostics_truncated == e.diagnostics_truncated
            &&& a.diagnostics.len() == e.diagnostics.len()
            &&& forall|j: int|
                0 <= j < e.diagnostics.len() ==> {
                    &&& (#[trigger] a.diagnostics[j]).code == e.diagnostics[j].code
                    &&& a.diagnostics[j].message == e.diagnostics[j].message
                    &&& a.diagnostics[j].path == e.diagnostics[j].path
                }
        }),
{
    catalog::lemma_has_walk(s.entries);
    let w = catalog::walk(s.entries);
    assert(s.announcement().entries[i] == pb::announced(w[i]));
    assert(s.entries.contains_key(w[i].id) && s.entries[w[i].id] == w[i]);
}

/// An entry is announced with each of its errors, one for one and in their order.
pub proof fn law_errors_are_announced_one_by_one(e: EntryView, j: int)
    requires
        0 <= j < e.diagnostics.len(),
    ensures
        pb::announced(e).diagnostics.len() == e.diagnostics.len(),
        pb::announced(e).diagnostics[j].code == e.diagnostics[j].code,
        pb::announced(e).diagnostics[j].message == e.diagnostics[j].message,
        pb::announced(e).diagnostics[j].path == e.diagnostics[j].path,
        pb::announced(e).diagnostics_truncated == e.diagnostics_truncated,
{
}

/// Each dashboard that is held is announced, and nothing else is.
pub proof fn law_all_entries_are_announced(s: DashboardsView, id: Seq<char>)
    requires
        laws::is_valid(s),
    ensures
        s.announcement().entries.len() == s.entries.dom().len(),
        s.entries.contains_key(id) <==> exists|i: int|
            0 <= i < s.announcement().entries.len() && (#[trigger] s.announcement().entries[i]).id
                == id,
{
    catalog::lemma_has_walk(s.entries);
    let w = catalog::walk(s.entries);
    catalog::lemma_walk(w, s.entries, 0);
    let all = s.announcement().entries;
    assert forall|i: int| 0 <= i < all.len() implies (#[trigger] all[i]).id == w[i].id
        && s.entries.contains_key(w[i].id) by {}
    if s.entries.contains_key(id) {
        let i = choose|i: int| 0 <= i < w.len() && (#[trigger] w[i]).id == id;
        assert(all[i].id == id);
    }
}

/// The inventory tells the generation and the files that were scanned as they are held,
/// and the sources as they are set; the cluster goes by the label that is set or, where
/// none is, by the fallback.
pub proof fn law_what_the_inventory_tells(s: DashboardsView)
    ensures
        s.announcement().generation == s.generation,
        s.announcement().files_scanned == s.files_scanned,
        s.config.sources.len() <= u32::MAX ==> s.announcement().mounted_sources_seen
            == s.config.sources.len(),
        s.config.cluster_label.len() > 0 ==> s.announcement().cluster_label
            == s.config.cluster_label,
        s.config.cluster_label.len() == 0 ==> s.announcement().cluster_label == s.fallback_label,
{
}

/// No error of a failing file is lost on the way to the relay: those that are announced
/// for its dashboard, and those that are counted as left out, are all of them.
pub proof fn law_announced_errors_are_all(
    s: DashboardsView,
    scan: CompiledScanView,
    k: int,
    id: Seq<char>,
    i: int,
)
    requires
        laws::is_valid(s),
        s.config.enabled,
        0 <= k < scan.files.len(),
        scan.files[k].outcome.tree is None,
        compile::id_declared_in(scan.files[k].text) == Some(id),
        forall|j: int|
            0 <= j < scan.files.len() && j != k ==> named(#[trigger] scan.files[j]) != Some(id),
        count_errors(scan.files[k].outcome.diagnostics) <= 10 + u32::MAX,
        0 <= i < s.after(Some(scan)).announcement().entries.len(),
        s.after(Some(scan)).announcement().entries[i].id == id,
    ensures
        ({
            let a = s.after(Some(scan)).announcement().entries[i];
            a.diagnostics.len() + a.diagnostics_truncated == count_errors(
                scan.files[k].outcome.diagnostics,
            )
        }),
{
    laws::law_scan_keeps_valid(s, Some(scan));
    law_entries_are_announced_in_full(s.after(Some(scan)), i);
    law_a_failing_file_is_reported(s, scan, k, id);
}

} // verus!
