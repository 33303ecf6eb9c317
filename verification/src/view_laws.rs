//! What the views of the library's types show: each field as it is, and nothing else.

use crate::assembly::{Builtin, SourceFile};
use crate::builtins;
use crate::builtins::BuiltinSource;
use crate::compile;
use crate::compile::{Compiled, Outcome, Tree};
use crate::config::Config;
use crate::dashboards;
use crate::dashboards::{CompiledScan, TreeError};
use crate::entry;
use crate::entry::{Diagnostic, Entry};
use crate::pb;
use crate::reader::{FileText, Scan, Stamp};
use crate::text;
use vstd::prelude::*;

verus! {

/// A list stands for what its items stand for, one by one.
pub proof fn law_a_list_shows_each_item<T: View>(s: Seq<T>, i: int)
    ensures
        text::views(s).len() == s.len(),
        0 <= i < s.len() ==> text::views(s)[i] == s[i]@,
{
}

/// What may be missing stands for nothing where it is, and for itself where it is not.
pub proof fn law_what_may_be_missing(
    s: Option<String>,
    tree: Option<Tree>,
    scan: Option<CompiledScan>,
    served: Result<pb::RenderTree, TreeError>,
    embedded: Result<Vec<Builtin>, String>,
)
    ensures
        entry::optional(s) is Some <==> s is Some,
        s is Some ==> entry::optional(s)->0 == s->0@,
        compile::optional_tree(tree) is Some <==> tree is Some,
        tree is Some ==> compile::optional_tree(tree)->0 == tree->0@,
        dashboards::optional_scan(scan) is Some <==> scan is Some,
        scan is Some ==> dashboards::optional_scan(scan)->0 == scan->0@,
        dashboards::served_tree(served) is Ok <==> served is Ok,
        served is Ok ==> dashboards::served_tree(served)->Ok_0 == served->Ok_0@,
        served is Err ==> dashboards::served_tree(served)->Err_0 == served->Err_0,
        builtins::embedding_view(embedded) is Ok <==> embedded is Ok,
        embedded is Ok ==> builtins::embedding_view(embedded)->Ok_0 == text::views(
            embedded->Ok_0@,
        ),
        embedded is Err ==> builtins::embedding_view(embedded)->Err_0 == embedded->Err_0@,
{
}

/// The settings show each of their fields.
pub proof fn law_settings_show_their_fields(c: Config)
    ensures
        c@.enabled == c.enabled,
        c@.path == c.path@,
        c@.poll == c.poll,
        c@.builtins == c.builtins,
        c@.cluster_label == c.cluster_label@,
        c@.sources == text::views(c.sources@),
        c@.limits == c.limits,
{
}

/// A remark and an entry show each of their fields.
pub proof fn law_entries_show_their_fields(d: Diagnostic, e: Entry)
    ensures
        d@.code == d.code@,
        d@.path == d.path@,
        d@.message == d.message@,
        d@.error == d.error,
        e@.id == e.id@,
        e@.title == e.title@,
        e@.hash == e.hash@,
        e@.schema == e.schema,
        e@.source == e.source,
        e@.status == e.status,
        e@.tree_json == entry::optional(e.tree_json),
        e@.diagnostics == text::views(e.diagnostics@),
        e@.diagnostics_truncated == e.diagnostics_truncated,
{
}

/// What the compiler replies, and what is made of it, shows each of its fields.
pub proof fn law_replies_show_their_fields(t: Tree, o: Outcome, c: Compiled)
    ensures
        t@.id == t.id@,
        t@.title == t.title@,
        t@.hash == t.hash@,
        t@.schema == t.schema,
        t@.json == t.json@,
        o@.tree == compile::optional_tree(o.tree),
        o@.diagnostics == text::views(o.diagnostics@),
        c@.id == entry::optional(c.id),
        c@.tree == compile::optional_tree(c.tree),
        c@.diagnostics == text::views(c.diagnostics@),
{
}

/// Embedded dashboards and their sources show each of their fields.
pub proof fn law_builtins_show_their_fields(b: Builtin, s: BuiltinSource)
    ensures
        b@.id == b.id@,
        b@.title == b.title@,
        b@.hash == b.hash@,
        b@.schema == b.schema,
        b@.json == b.json@,
        s@.path == s.path@,
        s@.reply is Ok <==> s.reply is Ok,
        s.reply is Ok ==> s@.reply->Ok_0 == s.reply->Ok_0@,
        s.reply is Err ==> s@.reply->Err_0 == text::views(s.reply->Err_0@),
{
}

/// What is read of a directory shows each of its fields.
pub proof fn law_scans_show_their_fields(
    file: FileText,
    stamp: Stamp,
    scan: Scan,
    source: SourceFile,
    compiled: CompiledScan,
)
    ensures
        file@.path == file.path@,
        file@.text == file.text@,
        stamp@.path == stamp.path@,
        stamp@.modified == stamp.modified,
        stamp@.len == stamp.len,
        scan@.files == text::views(scan.files@),
        scan@.fingerprint == text::views(scan.fingerprint@),
        scan@.oversized == text::views(scan.oversized@),
        source@.path == source.path@,
        source@.text == source.text@,
        source@.outcome == source.outcome@,
        compiled@.files == text::views(compiled.files@),
        compiled@.fingerprint == text::views(compiled.fingerprint@),
{
}

/// The messages to the relay show each of their fields.
pub proof fn law_messages_show_their_fields(
    d: pb::DashboardDiagnostic,
    e: pb::DashboardEntry,
    inventory: pb::DashboardInventory,
    tree: pb::RenderTree,
)
    ensures
        d@.code == d.code@,
        d@.message == d.message@,
        d@.path == d.path@,
        e@.id == e.id@,
        e@.title == e.title@,
        e@.hash == e.hash@,
        e@.source == e.source,
        e@.schema == e.schema,
        e@.status == e.status,
        e@.diagnostics == text::views(e.diagnostics@),
        e@.diagnostics_truncated == e.diagnostics_truncated,
        inventory@.generation == inventory.generation,
        inventory@.cluster_label == inventory.cluster_label@,
        inventory@.entries == text::views(inventory.entries@),
        inventory@.mounted_sources_seen == inventory.mounted_sources_seen,
        inventory@.files_scanned == inventory.files_scanned,
        tree@.id == tree.id@,
        tree@.hash == tree.hash@,
        tree@.schema == tree.schema,
        tree@.json == tree.json@,
{
}

} // verus!
