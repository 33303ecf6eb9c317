//! What holds of the store as a whole.

use crate::assembly;
use crate::assembly::{BuiltinView, SourceFileView};
use crate::catalog;
use crate::catalog::EntryMap;
use crate::compile;
use crate::compile::{CompiledView, OutcomeView};
use crate::config;
use crate::config::{ConfigView, Environment, Limits};
use crate::dashboards;
use crate::dashboards::{CompiledScanView, Dashboards, DashboardsView, TreeError};
use crate::entry::{Source, Status};
use crate::pb;
use crate::reader;
use crate::reader::{FileTextView, Kind, ReaderView, StampView, Verdict};
use crate::text;
use crate::watch;
use crate::watch::{Step, Wake};
use tokio::sync::broadcast::Receiver;
use vstd::multiset::Multiset;
use vstd::prelude::*;

verus! {

/// Finitely many files declare finitely many ids.
proof fn lemma_mounted_finite(files: Seq<SourceFileView>, held: EntryMap)
    ensures
        assembly::mounted(files, held).dom().finite(),
{
    let declared = files.map_values(|f: SourceFileView| f.id());
    let named = declared.to_set().map(|id: Option<Seq<char>>| id->0);
    vstd::seq_lib::seq_to_set_is_finite(declared);
    declared.to_set().lemma_map_finite(|id: Option<Seq<char>>| id->0);
    assert(assembly::mounted(files, held).dom().subset_of(named)) by {
        assert forall|id: Seq<char>|
            #[trigger] assembly::mounted(files, held).dom().contains(id) implies named.contains(
            id,
        ) by {
            let claims = assembly::declaring(files, id);
            let pred = |f: SourceFileView| f.id() == Some(id);
            files.lemma_filter_pred(pred, 0);
            files.lemma_filter_contains_rev(pred, claims[0]);
            let k = files.index_of(claims[0]);
            assert(declared[k] == Some(id));
            assert(declared.to_set().contains(Some(id)));
        }
    }
    vstd::set_lib::lemma_set_subset_finite(named, assembly::mounted(files, held).dom());
}

/// The embedded entries are finitely many.
proof fn lemma_embedded_finite(builtins: Seq<BuiltinView>)
    ensures
        assembly::embedded(builtins).dom().finite(),
    decreases builtins.len(),
{
    if builtins.len() > 0 {
        lemma_embedded_finite(builtins.drop_last());
    }
}

/// What is offered to a store are finitely many entries.
proof fn lemma_offered_finite(
    config: ConfigView,
    builtins: Seq<BuiltinView>,
    files: Seq<SourceFileView>,
    held: EntryMap,
)
    ensures
        assembly::offered(config, builtins, files, held).dom().finite(),
{
    let base = assembly::enabled_builtins(config, builtins);
    let over = assembly::mounted(files, held);
    lemma_embedded_finite(builtins);
    lemma_mounted_finite(files, held);
    assert(base.union_prefer_right(over).dom() =~= base.dom().union(over.dom()));
}

/// Whether a store is one that scans can lead to: its entries are sound, and no more
/// than the limit allows.
pub open spec fn is_valid(s: DashboardsView) -> bool {
    &&& dashboards::is_sound(s.entries)
    &&& s.entries.dom().finite()
    &&& s.entries.dom().len() <= s.config.limits.max_dashboards
}

/// A scan keeps the store valid.
pub proof fn law_scan_keeps_valid(s: DashboardsView, scan: Option<CompiledScanView>)
    requires
        is_valid(s),
    ensures
        is_valid(s.after(scan)),
{
    if let Some(found) = scan {
        dashboards::lemma_assembled_sound(s.config, s.builtins, found.files, s.entries);
        law_limit_drops_last_ids(s.config, s.builtins, found.files, s.entries);
    }
}

/// The store after several scans.
pub open spec fn after_all(
    s: DashboardsView,
    scans: Seq<Option<CompiledScanView>>,
) -> DashboardsView
    decreases scans.len(),
{
    if scans.len() == 0 {
        s
    } else {
        after_all(s, scans.drop_last()).after(scans.last())
    }
}

/// Whatever scans find, a store that started empty has a tree to serve for each
/// dashboard that did not fail, and none for one that did; it holds no more dashboards
/// than the limit allows, and one that leaves errors out carries as many as it may.
pub proof fn law_every_store_is_valid(
    config: ConfigView,
    builtins: Seq<BuiltinView>,
    scans: Seq<Option<CompiledScanView>>,
)
    ensures
        is_valid(after_all(DashboardsView::start(config, builtins), scans)),
    decreases scans.len(),
{
    if scans.len() > 0 {
        law_every_store_is_valid(config, builtins, scans.drop_last());
        law_scan_keeps_valid(
            after_all(DashboardsView::start(config, builtins), scans.drop_last()),
            scans.last(),
        );
    }
}

/// A scan that was given up leaves the store as it was, and so does each scan of a
/// store that is switched off: a directory far larger than expected does not empty a
/// working inventory.
pub proof fn law_no_scan_no_change(s: DashboardsView, scan: Option<CompiledScanView>)
    requires
        scan is None || !s.config.enabled,
    ensures
        s.after(scan) == s,
        !s.changes(scan),
{
}

/// Maps with the same ids keep the same of them under a limit.
proof fn lemma_first_agrees(a: EntryMap, b: EntryMap, n: nat)
    requires
        a.dom() == b.dom(),
        forall|id: Seq<char>| #[trigger] catalog::first(a, n).contains_key(id) ==> a[id] == b[id],
    ensures
        catalog::first(a, n) == catalog::first(b, n),
{
    assert forall|id: Seq<char>| catalog::rank(a, id) == catalog::rank(b, id) by {}
    assert(catalog::first(a, n) =~= catalog::first(b, n));
}

/// A second scan that finds what the first one found changes nothing at all.
pub proof fn law_rescan_is_no_change(s: DashboardsView, scan: CompiledScanView)
    ensures
        !s.after(Some(scan)).changes(Some(scan)),
        s.after(Some(scan)).after(Some(scan)) == s.after(Some(scan)),
{
    if s.config.enabled {
        let t = s.after(Some(scan));
        let n = s.config.limits.max_dashboards as nat;
        let a = assembly::offered(s.config, s.builtins, scan.files, s.entries);
        let b = assembly::offered(s.config, s.builtins, scan.files, t.entries);
        assert(a.dom() =~= b.dom());
        assert forall|id: Seq<char>| #[trigger] catalog::first(a, n).contains_key(id) implies a[id]
            == b[id] by {
            if assembly::declaring(scan.files, id).len() > 0 {
                assert(assembly::mounted(scan.files, s.entries).contains_key(id));
                assert(assembly::mounted(scan.files, t.entries).contains_key(id));
                assert(t.entries[id] == a[id]);
                assert(a[id] == assembly::mounted_entry(scan.files, s.entries, id));
                assert(b[id] == assembly::mounted_entry(scan.files, t.entries, id));
                assert(a[id] =~= b[id]);
            } else {
                assert(!assembly::mounted(scan.files, s.entries).contains_key(id));
                assert(!assembly::mounted(scan.files, t.entries).contains_key(id));
            }
        }
        lemma_first_agrees(a, b, n);
        assert(t.rescanned(scan) == t.entries);
        assert(t.after(Some(scan)) =~= t);
    }
}

/// The generation moves, and subscribers are told, once for each scan that changes
/// the inventory and for no other.
pub proof fn law_generation_counts_changes(s: DashboardsView, scan: Option<CompiledScanView>)
    requires
        s.generation < u64::MAX,
    ensures
        s.after(scan).generation == s.generation + (if s.changes(scan) {
            1int
        } else {
            0
        }),
        s.after(scan).wakes == s.wakes + (if s.changes(scan) {
            1int
        } else {
            0
        }),
        s.changes(scan) <==> !catalog::same_inventory(s.entries, s.after(scan).entries),
{
    if s.after(scan).entries == s.entries {
        assert(catalog::same_inventory(s.entries, s.entries));
    }
}

/// The relay detects a change by comparing one integer: where the generation after
/// any number of scans is what it was, so is the inventory, and it never goes back.
pub proof fn law_generation_tells_change(
    s: DashboardsView,
    scans: Seq<Option<CompiledScanView>>,
)
    requires
        s.generation + scans.len() <= u64::MAX,
    ensures
        s.generation <= after_all(s, scans).generation <= s.generation + scans.len(),
        after_all(s, scans).generation == s.generation ==> catalog::same_inventory(
            s.entries,
            after_all(s, scans).entries,
        ),
        after_all(s, scans).generation - s.generation == after_all(s, scans).wakes - s.wakes,
    decreases scans.len(),
{
    if scans.len() > 0 {
        let t = after_all(s, scans.drop_last());
        law_generation_tells_change(s, scans.drop_last());
        law_generation_counts_changes(t, scans.last());
    }
}

/// Whether the limit on dashboards keeps an id.
pub open spec fn is_kept(s: DashboardsView, scan: CompiledScanView, id: Seq<char>) -> bool {
    catalog::rank(assembly::offered(s.config, s.builtins, scan.files, s.entries), id)
        < s.config.limits.max_dashboards
}

/// A dashboard that one file declares, and that compiles, is served as it compiled.
pub proof fn law_compiled_is_served(s: DashboardsView, scan: CompiledScanView, id: Seq<char>)
    requires
        s.config.enabled,
        assembly::declaring(scan.files, id).len() == 1,
        assembly::declaring(scan.files, id)[0].outcome.tree is Some,
        is_kept(s, scan, id),
    ensures
        ({
            let tree = assembly::declaring(scan.files, id)[0].outcome.tree->0;
            let t = s.after(Some(scan));
            &&& t.entries.contains_key(id)
            &&& t.entries[id] == compile::served(tree)
            &&& t.tree(id) == Ok::<pb::RenderTreeView, TreeError>(
                pb::RenderTreeView {
                    id,
                    hash: tree.hash,
                    schema: tree.schema,
                    json: vstd::utf8::encode_utf8(tree.json),
                },
            )
        }),
{
    assembly::lemma_declaring_id(scan.files, id, 0);
    assert(assembly::mounted(scan.files, s.entries).contains_key(id));
}

/// A bad merge does not take a working dashboard away: where the one file that
/// declares an id does not compile, the tree that was served is served on, as stale,
/// with the errors of the newest source.
pub proof fn law_last_good_tree_is_kept(s: DashboardsView, scan: CompiledScanView, id: Seq<char>)
    requires
        is_valid(s),
        s.config.enabled,
        s.tree(id) is Ok,
        assembly::declaring(scan.files, id).len() == 1,
        assembly::declaring(scan.files, id)[0].outcome.tree is None,
        is_kept(s, scan, id),
    ensures
        ({
            let t = s.after(Some(scan));
            let errors = compile::errors(
                assembly::declaring(scan.files, id)[0].outcome.diagnostics,
            );
            &&& t.tree(id) == s.tree(id)
            &&& t.entries[id].status == Status::Stale
            &&& t.entries[id].title == s.entries[id].title
            &&& t.entries[id].diagnostics == compile::carried(errors)
        }),
{
    assert(assembly::mounted(scan.files, s.entries).contains_key(id));
}

/// Whether a scan does not compile a dashboard: it was given up, or one file declares
/// the id and did not compile, and the limit keeps the id.
pub open spec fn fails(s: DashboardsView, scan: Option<CompiledScanView>, id: Seq<char>) -> bool {
    match scan {
        None => true,
        Some(found) => {
            &&& assembly::declaring(found.files, id).len() == 1
            &&& assembly::declaring(found.files, id)[0].outcome.tree is None
            &&& is_kept(s, found, id)
        },
    }
}

/// However often a dashboard fails after it compiled, its last good tree is served.
pub proof fn law_good_tree_outlives_failures(
    s: DashboardsView,
    scans: Seq<Option<CompiledScanView>>,
    id: Seq<char>,
)
    requires
        is_valid(s),
        s.tree(id) is Ok,
        forall|k: int|
            0 <= k < scans.len() ==> fails(
                after_all(s, #[trigger] scans.take(k)),
                scans[k],
                id,
            ),
    ensures
        after_all(s, scans).tree(id) == s.tree(id),
        is_valid(after_all(s, scans)),
    decreases scans.len(),
{
    if scans.len() > 0 {
        let before = scans.drop_last();
        let t = after_all(s, before);
        assert forall|k: int| 0 <= k < before.len() implies fails(
            after_all(s, #[trigger] before.take(k)),
            before[k],
            id,
        ) by {
            assert(before.take(k) =~= scans.take(k));
        }
        law_good_tree_outlives_failures(s, before, id);
        assert(scans.take(scans.len() - 1) =~= before);
        assert(fails(t, scans.last(), id));
        law_scan_keeps_valid(t, scans.last());
        if let Some(found) = scans.last() {
            if t.config.enabled {
                law_last_good_tree_is_kept(t, found, id);
            }
        }
    }
}

/// A dashboard of which nothing ever compiled is announced as failed, with its
/// errors, and asking for its tree is answered otherwise than asking for an unknown
/// one.
pub proof fn law_never_compiled_is_failed(s: DashboardsView, scan: CompiledScanView, id: Seq<char>)
    requires
        s.config.enabled,
        !(s.tree(id) is Ok),
        assembly::declaring(scan.files, id).len() == 1,
        assembly::declaring(scan.files, id)[0].outcome.tree is None,
        is_kept(s, scan, id),
    ensures
        ({
            let t = s.after(Some(scan));
            let errors = compile::errors(
                assembly::declaring(scan.files, id)[0].outcome.diagnostics,
            );
            &&& t.tree(id) == Err::<pb::RenderTreeView, TreeError>(TreeError::NeverCompiled)
            &&& t.entries[id].status == Status::Failed
            &&& t.entries[id].diagnostics == compile::carried(errors)
        }),
{
    assert(assembly::mounted(scan.files, s.entries).contains_key(id));
}

/// An id that neither a file nor an embedded dashboard has is unknown after a scan.
pub proof fn law_removed_is_unknown(s: DashboardsView, scan: CompiledScanView, id: Seq<char>)
    requires
        s.config.enabled,
        assembly::declaring(scan.files, id).len() == 0,
        !assembly::enabled_builtins(s.config, s.builtins).contains_key(id),
    ensures
        s.after(Some(scan)).tree(id) == Err::<pb::RenderTreeView, TreeError>(TreeError::Unknown),
{
    assert(!assembly::mounted(scan.files, s.entries).contains_key(id));
}

/// Of embedded dashboards with one id the last one counts.
pub open spec fn is_last_of_id(builtins: Seq<BuiltinView>, i: int) -> bool {
    &&& 0 <= i < builtins.len()
    &&& forall|j: int| i < j < builtins.len() ==> (#[trigger] builtins[j]).id != builtins[i].id
}

/// What is embedded under an id is the last embedded dashboard with that id.
proof fn lemma_embedded(builtins: Seq<BuiltinView>, i: int)
    requires
        is_last_of_id(builtins, i),
    ensures
        assembly::embedded(builtins).contains_key(builtins[i].id),
        assembly::embedded(builtins)[builtins[i].id] == assembly::builtin_view(builtins[i]),
    decreases builtins.len(),
{
    let last = builtins.len() - 1;
    if i < last {
        let shorter = builtins.drop_last();
        assert(builtins[last].id != builtins[i].id);
        assert(is_last_of_id(shorter, i));
        lemma_embedded(shorter, i);
    }
}

/// An embedded dashboard is served as it was embedded, with no YAML to be compiled,
/// unless a mounted file declares its id.
pub proof fn law_builtin_is_served(s: DashboardsView, scan: CompiledScanView, i: int)
    requires
        s.config.enabled,
        s.config.builtins,
        is_last_of_id(s.builtins, i),
        assembly::declaring(scan.files, s.builtins[i].id).len() == 0,
        is_kept(s, scan, s.builtins[i].id),
    ensures
        ({
            let b = s.builtins[i];
            let t = s.after(Some(scan));
            &&& t.entries.contains_key(b.id)
            &&& t.entries[b.id] == assembly::builtin_view(b)
            &&& t.tree(b.id) == Ok::<pb::RenderTreeView, TreeError>(
                pb::RenderTreeView {
                    id: b.id,
                    hash: b.hash,
                    schema: b.schema,
                    json: vstd::utf8::encode_utf8(b.json),
                },
            )
        }),
{
    lemma_embedded(s.builtins, i);
    assert(!assembly::mounted(scan.files, s.entries).contains_key(s.builtins[i].id));
}

/// A mounted dashboard takes the place of an embedded one with its id.
pub proof fn law_mounted_replaces_builtin(
    s: DashboardsView,
    scan: CompiledScanView,
    id: Seq<char>,
)
    requires
        s.config.enabled,
        assembly::declaring(scan.files, id).len() > 0,
        is_kept(s, scan, id),
    ensures
        s.after(Some(scan)).entries.contains_key(id),
        s.after(Some(scan)).entries[id].source == Source::Mounted,
{
    assert(assembly::mounted(scan.files, s.entries).contains_key(id));
}

/// With the embedded dashboards switched off, a scan leaves mounted ones alone.
pub proof fn law_builtins_can_be_off(s: DashboardsView, scan: CompiledScanView, id: Seq<char>)
    requires
        s.config.enabled,
        !s.config.builtins,
        s.after(Some(scan)).entries.contains_key(id),
    ensures
        assembly::declaring(scan.files, id).len() > 0,
        s.after(Some(scan)).entries[id].source == Source::Mounted,
{
    assert(assembly::mounted(scan.files, s.entries).contains_key(id));
}

/// Failure is per dashboard: what is offered under an id rests on the files that
/// declare that id, and on what is held under it, and on nothing else.
pub proof fn law_failure_is_per_dashboard(
    config: ConfigView,
    builtins: Seq<BuiltinView>,
    files: Seq<SourceFileView>,
    others: Seq<SourceFileView>,
    held: EntryMap,
    held_with_others: EntryMap,
    id: Seq<char>,
)
    requires
        assembly::declaring(files, id) == assembly::declaring(others, id),
        held.contains_key(id) == held_with_others.contains_key(id),
        held.contains_key(id) ==> held[id] == held_with_others[id],
    ensures
        ({
            let a = assembly::offered(config, builtins, files, held);
            let b = assembly::offered(config, builtins, others, held_with_others);
            &&& a.contains_key(id) == b.contains_key(id)
            &&& a.contains_key(id) ==> a[id] == b[id]
        }),
{
    assert(assembly::mounted(files, held).contains_key(id) == assembly::mounted(
        others,
        held_with_others,
    ).contains_key(id));
}

/// One bad file does not disturb the others: a dashboard that the limit keeps is
/// served the same, whatever becomes of the files that declare other ids.
pub proof fn law_bad_file_disturbs_no_other(
    s: DashboardsView,
    scan: CompiledScanView,
    other: CompiledScanView,
    id: Seq<char>,
)
    requires
        assembly::declaring(scan.files, id) == assembly::declaring(other.files, id),
        is_kept(s, scan, id),
        is_kept(s, other, id),
    ensures
        s.after(Some(scan)).entries.contains_key(id) == s.after(Some(other)).entries.contains_key(
            id,
        ),
        s.after(Some(scan)).entries.contains_key(id) ==> s.after(Some(scan)).entries[id]
            == s.after(Some(other)).entries[id],
        s.after(Some(scan)).tree(id) == s.after(Some(other)).tree(id),
{
    law_failure_is_per_dashboard(
        s.config,
        s.builtins,
        scan.files,
        other.files,
        s.entries,
        s.entries,
        id,
    );
}

/// Whether files declare the same ids as others.
pub open spec fn same_ids(files: Seq<SourceFileView>, others: Seq<SourceFileView>) -> bool {
    forall|id: Seq<char>|
        (#[trigger] assembly::declaring(files, id)).len() > 0 <==> assembly::declaring(
            others,
            id,
        ).len() > 0
}

/// A file that is broken, or mended, and still declares its id disturbs no other
/// dashboard, within the limit or beyond it: each other id is kept or dropped as before
/// and is served the same.
pub proof fn law_changed_file_disturbs_no_other(
    s: DashboardsView,
    scan: CompiledScanView,
    other: CompiledScanView,
    k: int,
    id: Seq<char>,
)
    requires
        0 <= k < scan.files.len(),
        other.files == scan.files.update(k, other.files[k]),
        other.files[k].id() == scan.files[k].id(),
        scan.files[k].id() != Some(id),
    ensures
        s.after(Some(scan)).entries.dom() == s.after(Some(other)).entries.dom(),
        s.after(Some(scan)).entries.contains_key(id) ==> s.after(Some(scan)).entries[id]
            == s.after(Some(other)).entries[id],
        s.after(Some(scan)).tree(id) == s.after(Some(other)).tree(id),
{
    assert forall|o: Seq<char>|
        (#[trigger] assembly::declaring(scan.files, o)).len() > 0 <==> assembly::declaring(
            other.files,
            o,
        ).len() > 0 by {
        lemma_updated(scan.files, k, other.files[k], o);
    }
    lemma_same_ids(s.config, s.builtins, scan.files, other.files, s.entries);
    lemma_updated(scan.files, k, other.files[k], id);
    law_failure_is_per_dashboard(
        s.config,
        s.builtins,
        scan.files,
        other.files,
        s.entries,
        s.entries,
        id,
    );
    if s.config.enabled {
        let a = s.after(Some(scan)).entries;
        let b = s.after(Some(other)).entries;
        assert(a.contains_key(id) == a.dom().contains(id));
        assert(b.contains_key(id) == b.dom().contains(id));
    }
}

/// A file in the place of one with the same id leaves as many files to each id, and the
/// same files to each other id.
proof fn lemma_updated(files: Seq<SourceFileView>, k: int, f: SourceFileView, id: Seq<char>)
    requires
        0 <= k < files.len(),
        f.id() == files[k].id(),
    ensures
        assembly::declaring(files.update(k, f), id).len() == assembly::declaring(files, id).len(),
        f.id() != Some(id) ==> assembly::declaring(files.update(k, f), id) == assembly::declaring(
            files,
            id,
        ),
{
    let pred = |f: SourceFileView| f.id() == Some(id);
    let head = files.take(k);
    let tail = files.skip(k + 1);
    let one = seq![files[k]];
    let two = seq![f];
    assert(files =~= head + one + tail);
    assert(files.update(k, f) =~= head + two + tail);
    Seq::filter_distributes_over_add(head + one, tail, pred);
    Seq::filter_distributes_over_add(head, one, pred);
    Seq::filter_distributes_over_add(head + two, tail, pred);
    Seq::filter_distributes_over_add(head, two, pred);
    lemma_filter_one(files[k], pred);
    lemma_filter_one(f, pred);
}

/// A filter keeps one file, or leaves nothing of it.
pub proof fn lemma_filter_one(f: SourceFileView, pred: spec_fn(SourceFileView) -> bool)
    ensures
        seq![f].filter(pred) == (if pred(f) {
            seq![f]
        } else {
            Seq::empty()
        }),
{
    reveal(Seq::filter);
    let one = seq![f];
    assert(one.drop_last() =~= Seq::<SourceFileView>::empty());
    assert(one.drop_last().filter(pred) =~= Seq::<SourceFileView>::empty());
    assert(one.filter(pred) =~= if pred(f) {
        one
    } else {
        Seq::empty()
    });
}

/// A file that declares no id adds to the files of no id.
proof fn lemma_nameless(files: Seq<SourceFileView>, i: int, id: Seq<char>)
    requires
        0 <= i < files.len(),
        files[i].id() is None,
    ensures
        assembly::declaring(files.remove(i), id) == assembly::declaring(files, id),
{
    let pred = |f: SourceFileView| f.id() == Some(id);
    let head = files.take(i);
    let tail = files.skip(i + 1);
    let one = seq![files[i]];
    assert(files =~= head + one + tail);
    assert(files.remove(i) =~= head + tail);
    Seq::filter_distributes_over_add(head + one, tail, pred);
    Seq::filter_distributes_over_add(head, one, pred);
    Seq::filter_distributes_over_add(head, tail, pred);
    lemma_filter_one(files[i], pred);
}

/// A file too malformed to name itself is ignored rather than guessed at.
pub proof fn law_nameless_file_is_ignored(
    config: ConfigView,
    builtins: Seq<BuiltinView>,
    files: Seq<SourceFileView>,
    held: EntryMap,
    i: int,
)
    requires
        0 <= i < files.len(),
        files[i].id() is None,
    ensures
        assembly::assembled(config, builtins, files.remove(i), held) == assembly::assembled(
            config,
            builtins,
            files,
            held,
        ),
{
    assert forall|id: Seq<char>|
        assembly::declaring(files.remove(i), id) == #[trigger] assembly::declaring(files, id) by {
        lemma_nameless(files, i, id);
    }
    assert(assembly::mounted(files.remove(i), held) =~= assembly::mounted(files, held)) by {
        assert forall|id: Seq<char>|
            #[trigger] assembly::mounted(files.remove(i), held).contains_key(id)
                == assembly::mounted(files, held).contains_key(id) by {
            assert(assembly::declaring(files.remove(i), id) == assembly::declaring(files, id));
        }
        assert forall|id: Seq<char>|
            #[trigger] assembly::mounted(files, held).contains_key(id) implies assembly::mounted(
            files.remove(i),
            held,
        )[id] == assembly::mounted(files, held)[id] by {
            assert(assembly::declaring(files.remove(i), id) == assembly::declaring(files, id));
        }
    }
}

/// A document: its text, and the compiler's reply to it.
pub open spec fn document(f: SourceFileView) -> (Seq<char>, OutcomeView) {
    (f.text, f.outcome)
}

/// The documents of files, without the paths.
pub open spec fn documents(files: Seq<SourceFileView>) -> Seq<(Seq<char>, OutcomeView)> {
    files.map_values(|f: SourceFileView| document(f))
}

/// Whether two lists of files hold the same documents, under whatever paths and in
/// whatever order.
pub open spec fn same_documents(a: Seq<SourceFileView>, b: Seq<SourceFileView>) -> bool {
    documents(a).to_multiset() == documents(b).to_multiset()
}

/// Whether a document declares an id.
spec fn declares(d: (Seq<char>, OutcomeView), id: Seq<char>) -> bool {
    compile::compiled(d.0, d.1).id == Some(id)
}

/// The documents that declare an id, among those of files, are those of the files that
/// declare it.
proof fn lemma_declaring_documents(files: Seq<SourceFileView>, id: Seq<char>)
    ensures
        documents(assembly::declaring(files, id)).to_multiset() == documents(
            files,
        ).to_multiset().filter(|d: (Seq<char>, OutcomeView)| declares(d, id)),
    decreases files.len(),
{
    let pred = |d: (Seq<char>, OutcomeView)| declares(d, id);
    let kept = assembly::declaring(files, id);
    reveal(Seq::filter);
    broadcast use vstd::seq_lib::group_to_multiset_ensures;

    if files.len() == 0 {
        assert(documents(kept).to_multiset() =~= documents(files).to_multiset().filter(pred)) by {
            assert(documents(kept) =~= Seq::empty());
            assert(documents(files) =~= Seq::empty());
            assert(documents(files).to_multiset().len() == 0);
            assert(documents(kept).to_multiset() =~= Multiset::empty());
            assert(documents(files).to_multiset() =~= Multiset::empty());
        }
    } else {
        let before = files.drop_last();
        let last = files.last();
        let kept_before = assembly::declaring(before, id);
        lemma_declaring_documents(before, id);
        assert(documents(files) =~= documents(before).push(document(last)));
        if last.id() == Some(id) {
            assert(documents(kept) =~= documents(kept_before).push(document(last)));
        } else {
            assert(kept == kept_before);
        }
        assert(documents(kept).to_multiset() =~= documents(files).to_multiset().filter(pred));
    }
}

/// Lists with the same documents have as many that declare an id, and the same one
/// where there is but one.
proof fn lemma_same_documents(a: Seq<SourceFileView>, b: Seq<SourceFileView>, id: Seq<char>)
    requires
        same_documents(a, b),
    ensures
        assembly::declaring(a, id).len() == assembly::declaring(b, id).len(),
        assembly::declaring(a, id).len() == 1 ==> document(assembly::declaring(a, id)[0])
            == document(assembly::declaring(b, id)[0]),
{
    broadcast use vstd::seq_lib::group_to_multiset_ensures;

    let x = documents(assembly::declaring(a, id));
    let y = documents(assembly::declaring(b, id));
    lemma_declaring_documents(a, id);
    lemma_declaring_documents(b, id);
    assert(x.to_multiset() == y.to_multiset());
    assert(x.len() == x.to_multiset().len());
    assert(y.len() == y.to_multiset().len());
    if x.len() == 1 {
        assert(x.contains(x[0]));
        assert(y.to_multiset().count(x[0]) > 0);
        assert(y.contains(x[0]));
    }
}

/// The id comes from inside the document, never from the file name: under other
/// paths, and so read in another order, the same documents make an inventory of the
/// same ids, with the same entry under each that is declared once. One that is declared
/// more often fails under any paths.
pub proof fn law_file_name_is_no_identity(
    config: ConfigView,
    builtins: Seq<BuiltinView>,
    files: Seq<SourceFileView>,
    renamed: Seq<SourceFileView>,
    held: EntryMap,
    id: Seq<char>,
)
    requires
        same_documents(files, renamed),
    ensures
        ({
            let a = assembly::assembled(config, builtins, files, held);
            let b = assembly::assembled(config, builtins, renamed, held);
            &&& a.dom() == b.dom()
            &&& a.contains_key(id) && assembly::declaring(files, id).len() <= 1 ==> a[id] == b[id]
            &&& a.contains_key(id) && assembly::declaring(files, id).len() > 1 ==> a[id].status
                == Status::Failed && b[id].status == Status::Failed
        }),
{
    let a = assembly::offered(config, builtins, files, held);
    let b = assembly::offered(config, builtins, renamed, held);
    assert forall|other: Seq<char>| #[trigger] assembly::declaring(files, other).len()
        == assembly::declaring(renamed, other).len() by {
        lemma_same_documents(files, renamed, other);
    }
    lemma_same_ids(config, builtins, files, renamed, held);
    lemma_same_documents(files, renamed, id);
    if a.contains_key(id) {
        assert(assembly::mounted(files, held).contains_key(id) == assembly::mounted(
            renamed,
            held,
        ).contains_key(id));
    }
}

/// Files that declare the same ids offer the same ids, and the limit keeps the same of
/// them.
proof fn lemma_same_ids(
    config: ConfigView,
    builtins: Seq<BuiltinView>,
    files: Seq<SourceFileView>,
    others: Seq<SourceFileView>,
    held: EntryMap,
)
    requires
        same_ids(files, others),
    ensures
        ({
            let a = assembly::offered(config, builtins, files, held);
            let b = assembly::offered(config, builtins, others, held);
            &&& a.dom() == b.dom()
            &&& forall|id: Seq<char>| #[trigger] catalog::rank(a, id) == catalog::rank(b, id)
            &&& assembly::assembled(config, builtins, files, held).dom() == assembly::assembled(
                config,
                builtins,
                others,
                held,
            ).dom()
        }),
{
    let a = assembly::offered(config, builtins, files, held);
    let b = assembly::offered(config, builtins, others, held);
    assert forall|id: Seq<char>| #[trigger] a.dom().contains(id) == b.dom().contains(id) by {
        assert(assembly::declaring(files, id).len() > 0 <==> assembly::declaring(others, id).len()
            > 0);
    }
    assert(a.dom() =~= b.dom());
    assert(assembly::assembled(config, builtins, files, held).dom() =~= assembly::assembled(
        config,
        builtins,
        others,
        held,
    ).dom());
}

/// Whether a text holds another one.
pub open spec fn holds_text(s: Seq<char>, part: Seq<char>) -> bool {
    exists|a: int| 0 <= a <= s.len() - part.len() && #[trigger] s.subrange(a, a + part.len())
        == part
}

/// What is before and after a part does not hide it.
proof fn lemma_holds_text(before: Seq<char>, part: Seq<char>, after: Seq<char>)
    ensures
        holds_text(before + part + after, part),
{
    let s = before + part + after;
    let a = before.len() as int;
    assert(s.subrange(a, a + part.len()) =~= part);
}

/// A longer text holds what its parts hold.
proof fn lemma_holds_more(before: Seq<char>, s: Seq<char>, after: Seq<char>, part: Seq<char>)
    requires
        holds_text(s, part),
    ensures
        holds_text(before + s + after, part),
{
    let a = choose|a: int|
        0 <= a <= s.len() - part.len() && #[trigger] s.subrange(a, a + part.len()) == part;
    let t = before + s + after;
    let b: int = before.len() + a;
    assert(t.subrange(b, b + part.len()) =~= s.subrange(a, a + part.len()));
}

/// A joined list holds each of its names.
proof fn lemma_joined_holds(names: Seq<Seq<char>>, i: int)
    requires
        0 <= i < names.len(),
    ensures
        holds_text(text::joined(names, ", "@), names[i]),
    decreases names.len(),
{
    let none = Seq::<char>::empty();
    if names.len() == 1 {
        lemma_holds_text(none, names[0], none);
        assert(none + names[0] + none =~= names[0]);
    } else {
        let before = text::joined(names.drop_last(), ", "@);
        let all = text::joined(names, ", "@);
        if i == names.len() - 1 {
            lemma_holds_text(before + ", "@, names.last(), none);
            assert(before + ", "@ + names.last() + none =~= all);
        } else {
            lemma_joined_holds(names.drop_last(), i);
            lemma_holds_more(none, before, ", "@ + names.last(), names[i]);
            assert(none + before + (", "@ + names.last()) =~= all);
        }
    }
}

/// Files that declare one id admit none of them, and report all of them: the entry
/// failed, has no tree even where one was held, and its error names the id and the
/// path of each file.
pub proof fn law_contested_id_admits_none(
    s: DashboardsView,
    scan: CompiledScanView,
    id: Seq<char>,
    i: int,
)
    requires
        s.config.enabled,
        is_kept(s, scan, id),
        assembly::declaring(scan.files, id).len() > 1,
        0 <= i < assembly::declaring(scan.files, id).len(),
    ensures
        ({
            let t = s.after(Some(scan));
            let e = t.entries[id];
            &&& t.entries.contains_key(id)
            &&& e.status == Status::Failed
            &&& t.tree(id) == Err::<pb::RenderTreeView, TreeError>(TreeError::NeverCompiled)
            &&& e.diagnostics.len() == 1
            &&& e.diagnostics[0].code == "E-100"@
            &&& holds_text(e.diagnostics[0].message, id)
            &&& holds_text(
                e.diagnostics[0].message,
                assembly::declaring(scan.files, id)[i].path,
            )
        }),
{
    let names = assembly::paths(assembly::declaring(scan.files, id));
    let list = text::joined(names, ", "@);
    let head = "`"@ + id + "` is declared by more than one file: "@;
    assert(assembly::mounted(scan.files, s.entries).contains_key(id));
    let message = s.after(Some(scan)).entries[id].diagnostics[0].message;
    assert(message == head + list);
    lemma_joined_holds(names, i);
    lemma_holds_more(head, list, Seq::empty(), names[i]);
    assert(head + list + Seq::<char>::empty() =~= message);
    lemma_holds_text("`"@, id, "` is declared by more than one file: "@ + list);
    assert("`"@ + id + ("` is declared by more than one file: "@ + list) =~= message);
}

/// A scan leaves no more dashboards than the limit allows. Where something is
/// dropped, its id comes after each id that is kept, and the limit is used up; where
/// the limit is not passed nothing is dropped.
pub proof fn law_limit_drops_last_ids(
    config: ConfigView,
    builtins: Seq<BuiltinView>,
    files: Seq<SourceFileView>,
    held: EntryMap,
)
    requires
        dashboards::is_sound(held),
    ensures
        ({
            let all = assembly::offered(config, builtins, files, held);
            let kept = assembly::assembled(config, builtins, files, held);
            let limit = config.limits.max_dashboards as nat;
            &&& kept.submap_of(all)
            &&& kept.dom().finite()
            &&& kept.dom().len() == (if all.dom().len() < limit {
                all.dom().len()
            } else {
                limit
            })
            &&& all.dom().len() <= limit ==> kept == all
            &&& forall|k: Seq<char>, d: Seq<char>| #[trigger]
                kept.contains_key(k) && #[trigger] all.contains_key(d) && !kept.contains_key(d)
                    ==> text::str_before(k, d)
        }),
{
    let all = assembly::offered(config, builtins, files, held);
    let kept = assembly::assembled(config, builtins, files, held);
    let limit = config.limits.max_dashboards as nat;
    dashboards::lemma_assembled_sound(config, builtins, files, held);
    lemma_offered_finite(config, builtins, files, held);
    catalog::lemma_has_walk(all);
    let s = catalog::walk(all);
    catalog::lemma_walk(s, all, 0);
    catalog::lemma_first(s, all, limit);
    let n: int = if limit < s.len() {
        limit as int
    } else {
        s.len() as int
    };
    let t = s.take(n);
    catalog::lemma_walk(t, kept, 0);
    if all.dom().len() <= limit {
        assert(t =~= s);
        catalog::lemma_one_map(s, all);
        catalog::lemma_one_map(s, kept);
    }
    assert forall|k: Seq<char>, d: Seq<char>| #[trigger]
        kept.contains_key(k) && #[trigger] all.contains_key(d) && !kept.contains_key(
            d,
        ) implies text::str_before(k, d) by {
        let i = choose|i: int| 0 <= i < t.len() && (#[trigger] t[i]).id == k;
        let j = choose|j: int| 0 <= j < s.len() && (#[trigger] s[j]).id == d;
        if j < n {
            assert(t[j] == s[j]);
            assert(kept.contains_key(t[j].id));
        }
        assert(t[i] == s[i]);
        assert(text::str_before(s[i].id, s[j].id));
    }
}

/// The inventory and the trees agree: under each announced dashboard that did not
/// fail there is a tree with the announced hash and schema, one that failed is
/// answered as never compiled, and an id that is not announced as unknown.
pub proof fn law_inventory_agrees_with_trees(s: DashboardsView, id: Seq<char>)
    requires
        is_valid(s),
    ensures
        ({
            let announced = s.announcement().entries;
            &&& forall|i: int|
                0 <= i < announced.len() && (#[trigger] announced[i]).id == id ==> match s.tree(
                    id,
                ) {
                    Ok(tree) => announced[i].status != pb::DashboardStatus::Failed && tree.id == id
                        && tree.hash == announced[i].hash && tree.schema == announced[i].schema,
                    Err(e) => announced[i].status == pb::DashboardStatus::Failed && e
                        == TreeError::NeverCompiled,
                }
            &&& (forall|i: int| 0 <= i < announced.len() ==> (#[trigger] announced[i]).id != id)
                <==> s.tree(id) == Err::<pb::RenderTreeView, TreeError>(TreeError::Unknown)
        }),
{
    catalog::lemma_has_walk(s.entries);
    let w = catalog::walk(s.entries);
    let announced = s.announcement().entries;
    assert forall|i: int| 0 <= i < announced.len() implies (#[trigger] announced[i])
        == pb::announced(w[i]) && s.entries.contains_key(w[i].id) && s.entries[w[i].id]
        == w[i] by {}
    if s.entries.contains_key(id) {
        let i = choose|i: int| 0 <= i < w.len() && (#[trigger] w[i]).id == id;
        assert(announced[i].id == id);
    }
}

/// The inventory is announced in the order of the ids, no id twice.
pub proof fn law_inventory_is_sorted(s: DashboardsView, i: int, j: int)
    requires
        is_valid(s),
        0 <= i < j < s.announcement().entries.len(),
    ensures
        text::str_before(s.announcement().entries[i].id, s.announcement().entries[j].id),
{
    catalog::lemma_has_walk(s.entries);
    let w = catalog::walk(s.entries);
    assert(text::str_before(w[i].id, w[j].id));
}

/// A mount that delivered nothing shows: after each scan the inventory tells how many
/// files were read and how many sources are configured, whether or not the scan
/// changed anything else.
pub proof fn law_counters_tell_what_was_delivered(s: DashboardsView, scan: CompiledScanView)
    requires
        s.config.enabled,
        scan.files.len() <= u32::MAX,
        s.config.sources.len() <= u32::MAX,
    ensures
        s.after(Some(scan)).announcement().files_scanned == scan.files.len(),
        s.after(Some(scan)).announcement().mounted_sources_seen == s.config.sources.len(),
{
}

/// No error of a document that did not compile goes uncounted: an entry carries it,
/// or counts it among those it left out.
pub proof fn law_errors_are_counted(id: Seq<char>, compiled: CompiledView, held: EntryMap)
    requires
        compiled.tree is None,
        compiled.diagnostics.len() <= compile::MAX_DIAGNOSTICS + u32::MAX,
    ensures
        ({
            let e = compile::entry_of(id, compiled, held);
            &&& e.diagnostics.len() + e.diagnostics_truncated == compiled.diagnostics.len()
            &&& e.diagnostics.is_prefix_of(compiled.diagnostics)
        }),
{
}

/// With nothing set in the environment the settings are the defaults, and those are
/// no misconfiguration.
pub proof fn law_empty_environment_is_default(env: Environment)
    requires
        env.enabled is None,
        env.dir is None,
        env.poll_seconds is None,
        env.builtins is None,
        env.cluster_label is None,
        env.sources is None,
        env.max_dashboards is None,
        env.max_dashboard_bytes is None,
        env.max_directory_bytes is None,
    ensures
        config::configured(env) == config::default_config(),
        !config::configured(env).serves_nothing(),
{
}

/// Each wait ends in one scan, as the last thing done.
pub proof fn law_every_wait_ends_in_one_scan(wake: Wake)
    ensures
        ({
            let steps = watch::steps(wake);
            &&& steps.len() > 0
            &&& forall|i: int|
                0 <= i < steps.len() ==> (#[trigger] steps[i] == Step::Scan <==> i == steps.len()
                    - 1)
        }),
{
}

/// A dashboard that changed is scanned in time, whether or not an event tells of it:
/// from the start of a wait no more than one poll and the time that events are gathered
/// pass before the scan. The one wait in which the watching itself ends adds what had
/// been waited until then.
pub proof fn law_next_scan_comes_in_time(wake: Wake, waited_millis: nat, poll_millis: nat)
    requires
        watch::is_wait(wake, waited_millis, poll_millis),
    ensures
        ({
            let total = waited_millis + watch::slept_millis(watch::steps(wake), poll_millis);
            let bound = poll_millis + watch::DEBOUNCE_MILLIS as nat;
            &&& wake != Wake::Unwatched || waited_millis == 0 ==> total <= bound
            &&& wake == Wake::Unwatched ==> total == bound + waited_millis
        }),
{
    lemma_slept(wake, poll_millis);
}

/// No poll is slept after an event, or after a poll: a scan follows an event within the
/// time that events are gathered, and a poll at once.
pub proof fn law_event_is_not_kept_waiting(wake: Wake, poll_millis: nat)
    requires
        wake != Wake::Unwatched,
    ensures
        !watch::steps(wake).contains(Step::SleepPoll),
        watch::slept_millis(watch::steps(wake), poll_millis) == (if wake == Wake::Event {
            watch::DEBOUNCE_MILLIS as nat
        } else {
            0
        }),
{
    lemma_slept(wake, poll_millis);
}

/// Events are gathered before they are forgotten, and forgotten before the scan, so that
/// none that comes in during the scan is lost; after a poll no event is forgotten.
pub proof fn law_events_are_gathered_then_forgotten(wake: Wake, i: int, j: int)
    requires
        0 <= i < watch::steps(wake).len(),
        0 <= j < watch::steps(wake).len(),
    ensures
        watch::steps(wake)[i] == Step::SleepDebounce && watch::steps(wake)[j]
            == Step::DrainEvents ==> i < j,
        watch::steps(wake)[i] == Step::SleepPoll && watch::steps(wake)[j]
            == Step::SleepDebounce ==> i < j,
        watch::steps(wake)[i] == Step::DrainEvents && watch::steps(wake)[j] == Step::Scan ==> i
            < j,
        wake == Wake::PollElapsed ==> watch::steps(wake)[i] == Step::Scan,
        wake != Wake::PollElapsed ==> watch::steps(wake).contains(Step::SleepDebounce)
            && watch::steps(wake).contains(Step::DrainEvents),
{
    let all = watch::steps(wake);
    match wake {
        Wake::PollElapsed => {},
        Wake::Event => {
            assert(all[0] == Step::SleepDebounce && all[1] == Step::DrainEvents);
        },
        Wake::Unwatched => {
            assert(all[1] == Step::SleepDebounce && all[2] == Step::DrainEvents);
        },
    }
}

/// How long the steps after a wait sleep together.
proof fn lemma_slept(wake: Wake, poll_millis: nat)
    ensures
        watch::slept_millis(watch::steps(wake), poll_millis) == match wake {
            Wake::PollElapsed => 0,
            Wake::Event => watch::DEBOUNCE_MILLIS as nat,
            Wake::Unwatched => poll_millis + watch::DEBOUNCE_MILLIS as nat,
        },
{
    reveal_with_fuel(watch::slept_millis, 5);
    let all = watch::steps(wake);
    assert(all.len() <= 4);
    match wake {
        Wake::PollElapsed => {
            assert(all.drop_last().len() == 0);
        },
        Wake::Event => {
            assert(all.drop_last() =~= seq![Step::SleepDebounce, Step::DrainEvents]);
        },
        Wake::Unwatched => {
            assert(all.drop_last() =~= seq![
                Step::SleepPoll,
                Step::SleepDebounce,
                Step::DrainEvents,
            ]);
        },
    }
}

/// Whether a store is what a scan has made of another.
pub open spec fn is_scanned(
    store: Dashboards,
    scan: Option<CompiledScanView>,
    later: Dashboards,
) -> bool {
    &&& later@ == store@.after(scan)
    &&& later.backlog() == store.backlog()
    &&& store.tells(
        later,
        if store@.changes(scan) {
            1
        } else {
            0
        },
    )
}

/// How many of several scans change the inventory.
pub open spec fn changes_made(s: DashboardsView, scans: Seq<Option<CompiledScanView>>) -> nat
    decreases scans.len(),
{
    if scans.len() == 0 {
        0
    } else {
        changes_made(s, scans.drop_last()) + if after_all(s, scans.drop_last()).changes(
            scans.last(),
        ) {
            1nat
        } else {
            0
        }
    }
}

/// Each subscriber is told of each change that follows, and of nothing else: whatever
/// was scanned before, a receiver with nothing to read has as many values to read after
/// more scans as those have changed the inventory.
pub proof fn law_subscriber_is_told_of_each_change(
    stores: Seq<Dashboards>,
    scans: Seq<Option<CompiledScanView>>,
    receiver: Receiver<()>,
)
    requires
        stores.len() == scans.len() + 1,
        forall|i: int|
            0 <= i < scans.len() ==> is_scanned(#[trigger] stores[i], scans[i], stores[i + 1]),
        stores[0].has_subscriber(receiver),
        stores[0].delivered(receiver).len() == 0,
    ensures
        stores.last()@ == after_all(stores[0]@, scans),
        stores.last().backlog() == stores[0].backlog(),
        stores.last().has_subscriber(receiver),
        stores.last().delivered(receiver) == Seq::new(
            changes_made(stores[0]@, scans),
            |i: int| (),
        ),
    decreases scans.len(),
{
    let n = changes_made(stores[0]@, scans);
    if scans.len() > 0 {
        let k = scans.len() - 1;
        let before = stores.drop_last();
        let fewer = scans.drop_last();
        assert forall|i: int| 0 <= i < fewer.len() implies is_scanned(
            #[trigger] before[i],
            fewer[i],
            before[i + 1],
        ) by {
            assert(is_scanned(stores[i], scans[i], stores[i + 1]));
        }
        law_subscriber_is_told_of_each_change(before, fewer, receiver);
        assert(before.last() == stores[k]);
        assert(is_scanned(stores[k], scans[k], stores[k + 1]));
        assert(stores[k].has_subscriber(receiver));
    }
    assert(stores.last().delivered(receiver).len() == n);
    assert(stores.last().delivered(receiver) =~= Seq::new(n, |i: int| ()));
}

/// What the file system says of a listed file: its size, the time of its last change
/// and its text, each if it is to be had.
pub struct Seen {
    pub path: Seq<char>,
    pub len: Option<u64>,
    pub modified: Option<i128>,
    pub text: Option<Seq<char>>,
}

/// The reading of a directory file by file: each is measured and, if it is to be
/// read, its text is taken. It ends with nothing where the scan is given up.
pub open spec fn reading(limits: Limits, seen: Seq<Seen>) -> Option<ReaderView>
    decreases seen.len(),
{
    if seen.len() == 0 {
        Some(ReaderView::start(limits))
    } else {
        match reading(limits, seen.drop_last()) {
            None => None,
            Some(r) => {
                let f = seen.last();
                let m = r.measured(f.path, f.len);
                match r.verdict(f.len) {
                    Verdict::Abort => None,
                    Verdict::PassOver => Some(m),
                    Verdict::Read => Some(m.accepted(f.path, f.text, f.modified, f.len->0)),
                }
            },
        }
    }
}

/// The bytes of files together, of those whose size is to be had.
pub open spec fn total_bytes(seen: Seq<Seen>) -> nat
    decreases seen.len(),
{
    if seen.len() == 0 {
        0
    } else {
        total_bytes(seen.drop_last()) + match seen.last().len {
            Some(n) => n as nat,
            None => 0,
        }
    }
}

/// The same, as 64 bits count it.
pub open spec fn counted_bytes(seen: Seq<Seen>) -> u64 {
    if total_bytes(seen) > u64::MAX {
        u64::MAX
    } else {
        total_bytes(seen) as u64
    }
}

/// Whether a scan takes a file: it is within the limit for one file and can be read.
pub open spec fn is_taken(limits: Limits, f: Seen) -> bool {
    f.len is Some && f.len->0 <= limits.max_dashboard_bytes && f.text is Some
}

/// The files that a scan takes.
pub open spec fn taken(limits: Limits, seen: Seq<Seen>) -> Seq<Seen> {
    seen.filter(|f: Seen| is_taken(limits, f))
}

/// The files that a scan passes over because of their size.
pub open spec fn oversized(limits: Limits, seen: Seq<Seen>) -> Seq<Seen> {
    seen.filter(|f: Seen| f.len is Some && f.len->0 > limits.max_dashboard_bytes)
}

/// The text of a file that was taken.
pub open spec fn text_of(f: Seen) -> FileTextView {
    FileTextView { path: f.path, text: f.text->0 }
}

/// The mark of a file that was taken.
pub open spec fn stamp_of(f: Seen) -> StampView {
    StampView {
        path: f.path,
        modified: match f.modified {
            Some(m) => m,
            None => 0,
        },
        len: f.len->0,
    }
}

/// A scan is given up if and only if the files of the directory, counted together,
/// are over the directory's limit. If it is not, it holds the text and the mark of
/// each file that is within the limit for one file and can be read, in the order in
/// which they were read, and the paths of those over that limit.
pub proof fn law_reading(limits: Limits, seen: Seq<Seen>)
    ensures
        reading(limits, seen) is Some <==> counted_bytes(seen) <= limits.max_directory_bytes,
        reading(limits, seen) matches Some(r) ==> {
            &&& r.limits == limits
            &&& r.total == counted_bytes(seen)
            &&& r.scan.files == taken(limits, seen).map_values(|f: Seen| text_of(f))
            &&& r.scan.fingerprint == taken(limits, seen).map_values(|f: Seen| stamp_of(f))
            &&& r.scan.oversized == oversized(limits, seen).map_values(|f: Seen| f.path)
        },
    decreases seen.len(),
{
    reveal(Seq::filter);
    let none = Seq::<Seen>::empty();
    if seen.len() == 0 {
        assert(taken(limits, seen) =~= none);
        assert(oversized(limits, seen) =~= none);
        assert(none.map_values(|f: Seen| text_of(f)) =~= Seq::<FileTextView>::empty());
        assert(none.map_values(|f: Seen| stamp_of(f)) =~= Seq::<StampView>::empty());
        assert(none.map_values(|f: Seen| f.path) =~= Seq::<Seq<char>>::empty());
    } else {
        let f = seen.last();
        law_reading(limits, seen.drop_last());
        let old_files = taken(limits, seen.drop_last());
        let old_over = oversized(limits, seen.drop_last());
        assert(old_files.push(f).map_values(|f: Seen| text_of(f)) =~= old_files.map_values(
            |f: Seen| text_of(f),
        ).push(text_of(f)));
        assert(old_files.push(f).map_values(|f: Seen| stamp_of(f)) =~= old_files.map_values(
            |f: Seen| stamp_of(f),
        ).push(stamp_of(f)));
        assert(old_over.push(f).map_values(|f: Seen| f.path) =~= old_over.map_values(
            |f: Seen| f.path,
        ).push(f.path));
    }
}

/// A scan never takes more bytes than the limit of the directory.
pub proof fn law_taken_bytes_are_bounded(limits: Limits, seen: Seq<Seen>)
    requires
        reading(limits, seen) is Some,
        limits.max_directory_bytes < u64::MAX || total_bytes(taken(limits, seen)) <= u64::MAX,
    ensures
        total_bytes(taken(limits, seen)) <= limits.max_directory_bytes,
{
    law_reading(limits, seen);
    lemma_taken_bytes(limits, seen);
}

/// Some of the files have no more bytes than all of them.
proof fn lemma_taken_bytes(limits: Limits, seen: Seq<Seen>)
    ensures
        total_bytes(taken(limits, seen)) <= total_bytes(seen),
    decreases seen.len(),
{
    reveal(Seq::filter);
    if seen.len() > 0 {
        let before = seen.drop_last();
        lemma_taken_bytes(limits, before);
        let kept = taken(limits, before);
        assert(kept.push(seen.last()).drop_last() =~= kept);
    }
}

/// Of two files that are both listed, one is read before the other, and not the
/// other way round.
proof fn lemma_reads_before_asymmetric(names: Seq<Seq<u8>>, a: int, b: int)
    requires
        reader::reads_before(names, a, b),
    ensures
        !reader::reads_before(names, b, a),
{
    text::lemma_bytes_before_irreflexive(names[a]);
    if text::bytes_before(names[a], names[b]) && text::bytes_before(names[b], names[a]) {
        text::lemma_bytes_before_transitive(names[a], names[b], names[a]);
    }
}

/// The names in a directory leave no choice of the order in which its files are
/// read.
pub proof fn law_one_reading_order(
    kind: Kind,
    names: Seq<Seq<u8>>,
    a: Seq<usize>,
    b: Seq<usize>,
)
    requires
        names.len() <= usize::MAX,
        reader::is_reading_order(kind, names, a),
        reader::is_reading_order(kind, names, b),
    ensures
        a == b,
{
    lemma_orders_agree(kind, names, a, b, a.len());
    lemma_orders_agree(kind, names, b, a, b.len());
    assert(a.take(a.len() as int) =~= a);
    assert(b.take(b.len() as int) =~= b);
}

/// Two reading orders agree on their first steps.
proof fn lemma_orders_agree(
    kind: Kind,
    names: Seq<Seq<u8>>,
    a: Seq<usize>,
    b: Seq<usize>,
    n: nat,
)
    requires
        names.len() <= usize::MAX,
        n <= a.len(),
        reader::is_reading_order(kind, names, a),
        reader::is_reading_order(kind, names, b),
    ensures
        n <= b.len(),
        a.take(n as int) == b.take(n as int),
    decreases n,
{
    if n > 0 {
        let k = n - 1;
        lemma_orders_agree(kind, names, a, b, k as nat);
        assert(kind.admits(names[a[k] as int]));
        assert(b.contains(a[k]));
        let j = choose|j: int| 0 <= j < b.len() && b[j] == a[k];
        if j < k {
            assert(a.take(k)[j] == b.take(k)[j]);
            assert(reader::reads_before(names, a[j] as int, a[k] as int));
            lemma_reads_before_asymmetric(names, a[j] as int, a[k] as int);
        }
        if j > k {
            assert(kind.admits(names[b[k] as int]));
            assert(a.contains(b[k]));
            let i = choose|i: int| 0 <= i < a.len() && a[i] == b[k];
            assert(reader::reads_before(names, b[k] as int, b[j] as int));
            lemma_reads_before_asymmetric(names, b[k] as int, b[j] as int);
            if i < k {
                assert(a.take(k)[i] == b.take(k)[i]);
                assert(reader::reads_before(names, b[i] as int, b[k] as int));
                lemma_reads_before_asymmetric(names, b[i] as int, b[k] as int);
            }
            if i > k {
                assert(reader::reads_before(names, a[k] as int, a[i] as int));
            }
        }
        assert(a.take(n as int) =~= a.take(k).push(a[k]));
        assert(b.take(n as int) =~= b.take(k).push(b[k]));
    } else {
        assert(a.take(0) =~= b.take(0));
    }
}

} // verus!
