//! The messages that the relay receives.

use crate::entry;
use crate::entry::{Entry, EntryView, Source, Status};
use crate::text;
use vstd::prelude::*;

verus! {

/// Where a dashboard comes from.
#[derive(Debug, Clone, Copy, PartialEq, Eq, Structural)]
pub enum DashboardSource {
    Builtin,
    Mounted,
}

/// How a dashboard stands.
#[derive(Debug, Clone, Copy, PartialEq, Eq, Structural)]
pub enum DashboardStatus {
    Okay,
    Stale,
    Failed,
}

/// One error in a dashboard's source.
#[derive(Debug, Clone, PartialEq, Eq)]
pub struct DashboardDiagnostic {
    pub code: String,
    pub message: String,
    pub path: String,
}

/// What a [`DashboardDiagnostic`] stands for.
#[verifier::ext_equal]
pub struct DashboardDiagnosticView {
    pub code: Seq<char>,
    pub message: Seq<char>,
    pub path: Seq<char>,
}

impl View for DashboardDiagnostic {
    type V = DashboardDiagnosticView;

    open spec fn view(&self) -> DashboardDiagnosticView {
        DashboardDiagnosticView { code: self.code@, message: self.message@, path: self.path@ }
    }
}

/// One dashboard, as it is announced.
#[derive(Debug, Clone, PartialEq, Eq)]
pub struct DashboardEntry {
    pub id: String,
    pub title: String,
    pub hash: String,
    pub source: DashboardSource,
    pub schema: u32,
    pub status: DashboardStatus,
    pub diagnostics: Vec<DashboardDiagnostic>,
    pub diagnostics_truncated: u32,
}

/// What a [`DashboardEntry`] stands for.
#[verifier::ext_equal]
pub struct DashboardEntryView {
    pub id: Seq<char>,
    pub title: Seq<char>,
    pub hash: Seq<char>,
    pub source: DashboardSource,
    pub schema: u32,
    pub status: DashboardStatus,
    pub diagnostics: Seq<DashboardDiagnosticView>,
    pub diagnostics_truncated: u32,
}

impl View for DashboardEntry {
    type V = DashboardEntryView;

    open spec fn view(&self) -> DashboardEntryView {
        DashboardEntryView {
            id: self.id@,
            title: self.title@,
            hash: self.hash@,
            source: self.source,
            schema: self.schema,
            status: self.status,
            diagnostics: text::views(self.diagnostics@),
            diagnostics_truncated: self.diagnostics_truncated,
        }
    }
}

/// All dashboards, as they are announced.
#[derive(Debug, Clone, PartialEq, Eq)]
pub struct DashboardInventory {
    /// Advances when the inventory changes.
    pub generation: u64,
    pub cluster_label: String,
    pub entries: Vec<DashboardEntry>,
    pub mounted_sources_seen: u32,
    pub files_scanned: u32,
}

/// What a [`DashboardInventory`] stands for.
#[verifier::ext_equal]
pub struct DashboardInventoryView {
    pub generation: u64,
    pub cluster_label: Seq<char>,
    pub entries: Seq<DashboardEntryView>,
    pub mounted_sources_seen: u32,
    pub files_scanned: u32,
}

impl View for DashboardInventory {
    type V = DashboardInventoryView;

    open spec fn view(&self) -> DashboardInventoryView {
        DashboardInventoryView {
            generation: self.generation,
            cluster_label: self.cluster_label@,
            entries: text::views(self.entries@),
            mounted_sources_seen: self.mounted_sources_seen,
            files_scanned: self.files_scanned,
        }
    }
}

/// One compiled dashboard.
#[derive(Debug, Clone, PartialEq, Eq)]
pub struct RenderTree {
    pub id: String,
    pub hash: String,
    pub schema: u32,
    /// The tree in JSON, in UTF-8.
    pub json: Vec<u8>,
}

/// What a [`RenderTree`] stands for.
#[verifier::ext_equal]
pub struct RenderTreeView {
    pub id: Seq<char>,
    pub hash: Seq<char>,
    pub schema: u32,
    pub json: Seq<u8>,
}

impl View for RenderTree {
    type V = RenderTreeView;

    open spec fn view(&self) -> RenderTreeView {
        RenderTreeView { id: self.id@, hash: self.hash@, schema: self.schema, json: self.json@ }
    }
}

/// A source, as it is announced.
pub open spec fn announced_source(source: Source) -> DashboardSource {
    match source {
        Source::Builtin => DashboardSource::Builtin,
        Source::Mounted => DashboardSource::Mounted,
    }
}

/// A status, as it is announced.
pub open spec fn announced_status(status: Status) -> DashboardStatus {
    match status {
        Status::Okay => DashboardStatus::Okay,
        Status::Stale => DashboardStatus::Stale,
        Status::Failed => DashboardStatus::Failed,
    }
}

/// An error, as it is announced.
pub open spec fn announced_diagnostic(d: entry::DiagnosticView) -> DashboardDiagnosticView {
    DashboardDiagnosticView { code: d.code, message: d.message, path: d.path }
}

/// An entry, as it is announced: all of it but the tree.
pub open spec fn announced(e: EntryView) -> DashboardEntryView {
    DashboardEntryView {
        id: e.id,
        title: e.title,
        hash: e.hash,
        source: announced_source(e.source),
        schema: e.schema,
        status: announced_status(e.status),
        diagnostics: e.diagnostics.map_values(|d: entry::DiagnosticView| announced_diagnostic(d)),
        diagnostics_truncated: e.diagnostics_truncated,
    }
}

/// An entry, as it is announced.
pub fn entry_to_pb(entry: &Entry) -> (r: DashboardEntry)
    ensures
        r@ == announced(entry@),
{
    let mut diagnostics: Vec<DashboardDiagnostic> = Vec::new();
    let mut i: usize = 0;
    while i < entry.diagnostics.len()
        invariant
            i <= entry.diagnostics.len(),
            diagnostics.len() == i,
            forall|k: int|
                0 <= k < i ==> (#[trigger] diagnostics@[k])@ == announced_diagnostic(
                    entry.diagnostics@[k]@,
                ),
        decreases entry.diagnostics.len() - i,
    {
        let d = &entry.diagnostics[i];
        diagnostics.push(
            DashboardDiagnostic {
                code: d.code.clone(),
                message: d.message.clone(),
                path: d.path.clone(),
            },
        );
        i = i + 1;
    }
    assert(text::views(diagnostics@) =~= announced(entry@).diagnostics);
    DashboardEntry {
        id: entry.id.clone(),
        title: entry.title.clone(),
        hash: entry.hash.clone(),
        source: match entry.source {
            Source::Builtin => DashboardSource::Builtin,
            Source::Mounted => DashboardSource::Mounted,
        },
        schema: entry.schema,
        status: match entry.status {
            Status::Okay => DashboardStatus::Okay,
            Status::Stale => DashboardStatus::Stale,
            Status::Failed => DashboardStatus::Failed,
        },
        diagnostics,
        diagnostics_truncated: entry.diagnostics_truncated,
    }
}

} // verus!
