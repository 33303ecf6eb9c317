//! Dashboards read from a mounted directory, compiled and held in memory.

pub use crate::assembly::{Builtin, SourceFile};
pub use crate::config::{Config, Environment, Limits};
pub use crate::entry::{Diagnostic, Entry, Source, Status};

use crate::assembly;
use crate::assembly::{BuiltinView, SourceFileView};
use crate::catalog;
use crate::catalog::{Entries, EntryMap};
use crate::compile;
use crate::config::ConfigView;
use crate::entry::{DiagnosticView, EntryView};
use crate::pb;
use crate::reader::{Stamp, StampView};
use crate::signal;
use crate::text;
use tokio::sync::broadcast::{Receiver, Sender};
use vstd::prelude::*;
use vstd::string::*;

verus! {

/// How many changes are kept for a slow subscriber.
pub const CHANGES_KEPT: usize = 4;

/// What a scan found: the files that were read, each with the compiler's reply.
#[derive(Debug, PartialEq, Eq)]
pub struct CompiledScan {
    pub files: Vec<SourceFile>,
    pub fingerprint: Vec<Stamp>,
}

/// What a [`CompiledScan`] stands for.
#[verifier::ext_equal]
pub struct CompiledScanView {
    pub files: Seq<SourceFileView>,
    pub fingerprint: Seq<StampView>,
}

impl View for CompiledScan {
    type V = CompiledScanView;

    open spec fn view(&self) -> CompiledScanView {
        CompiledScanView {
            files: text::views(self.files@),
            fingerprint: text::views(self.fingerprint@),
        }
    }
}

/// What a scan that may have been given up stands for.
pub open spec fn optional_scan(scan: Option<CompiledScan>) -> Option<CompiledScanView> {
    match scan {
        Some(scan) => Some(scan@),
        None => None,
    }
}

/// Why a dashboard's tree is not served.
#[derive(Debug, Clone, Copy, PartialEq, Eq, Structural)]
pub enum TreeError {
    /// There is no such dashboard.
    Unknown,
    /// The dashboard never compiled.
    NeverCompiled,
}

/// Whether an entry is one that a scan can leave: there is a tree to serve unless it
/// failed, a failed or stale one is mounted, one whose newest source compiled
/// carries no errors, none carries more errors than it may, or a warning, and one that
/// leaves errors out carries as many as it may.
pub open spec fn is_sound_entry(e: EntryView) -> bool {
    &&& e.tree_json is None <==> e.status == Status::Failed
    &&& e.status != Status::Okay ==> e.source == Source::Mounted
    &&& e.status == Status::Okay ==> e.diagnostics.len() == 0 && e.diagnostics_truncated == 0
    &&& e.status == Status::Failed ==> e.title.len() == 0 && e.hash.len() == 0 && e.schema == 0
    &&& e.diagnostics.len() <= compile::MAX_DIAGNOSTICS
    &&& e.diagnostics_truncated > 0 ==> e.diagnostics.len() == compile::MAX_DIAGNOSTICS
    &&& forall|i: int| 0 <= i < e.diagnostics.len() ==> (#[trigger] e.diagnostics[i]).error
}

/// Whether each entry stands under its id and is one that a scan can leave.
pub open spec fn is_sound(m: EntryMap) -> bool {
    &&& catalog::is_keyed(m)
    &&& forall|id: Seq<char>| #[trigger] m.contains_key(id) ==> is_sound_entry(m[id])
}

/// The embedded entries are sound.
proof fn lemma_embedded_sound(builtins: Seq<BuiltinView>)
    ensures
        is_sound(assembly::embedded(builtins)),
    decreases builtins.len(),
{
    if builtins.len() > 0 {
        lemma_embedded_sound(builtins.drop_last());
    }
}

/// The entry of an id that mounted files declare is sound.
proof fn lemma_mounted_sound(files: Seq<SourceFileView>, held: EntryMap, id: Seq<char>)
    requires
        is_sound(held),
        assembly::declaring(files, id).len() > 0,
    ensures
        is_sound_entry(assembly::mounted_entry(files, held, id)),
{
    let e = assembly::mounted_entry(files, held, id);
    let all = assembly::declaring(files, id)[0].outcome.diagnostics;
    assert forall|i: int| 0 <= i < e.diagnostics.len() implies (
    #[trigger] e.diagnostics[i]).error by {
        if assembly::declaring(files, id).len() == 1 {
            all.lemma_filter_pred(|d: DiagnosticView| d.error, i);
        }
    }
}

/// A scan leaves sound entries where it found such.
pub proof fn lemma_assembled_sound(
    config: ConfigView,
    builtins: Seq<BuiltinView>,
    files: Seq<SourceFileView>,
    held: EntryMap,
)
    requires
        is_sound(held),
    ensures
        is_sound(assembly::offered(config, builtins, files, held)),
        is_sound(assembly::assembled(config, builtins, files, held)),
{
    let m = assembly::offered(config, builtins, files, held);
    lemma_embedded_sound(builtins);
    assert forall|id: Seq<char>| #[trigger] m.contains_key(id) implies m[id].id == id
        && is_sound_entry(m[id]) by {
        if assembly::declaring(files, id).len() > 0 {
            assert(assembly::mounted(files, held).contains_key(id));
            assembly::lemma_mounted_entry_id(files, held, id);
            lemma_mounted_sound(files, held, id);
            assert(m[id] == assembly::mounted_entry(files, held, id));
        } else {
            assert(!assembly::mounted(files, held).contains_key(id));
            assert(assembly::enabled_builtins(config, builtins).contains_key(id));
        }
    }
    let kept = assembly::assembled(config, builtins, files, held);
    assert forall|id: Seq<char>| #[trigger] kept.contains_key(id) implies kept[id].id == id
        && is_sound_entry(kept[id]) by {
        assert(m.contains_key(id));
    }
}

/// What changes from scan to scan.
#[derive(Debug)]
struct State {
    generation: u64,
    entries: Entries,
    fingerprint: Vec<Stamp>,
    files_scanned: u32,
    fallback_label: String,
}

impl State {
    #[verifier::type_invariant]
    spec fn inv(self) -> bool {
        is_sound(self.entries@)
    }
}

/// The dashboards that a connector serves.
#[derive(Debug)]
pub struct Dashboards {
    config: Config,
    builtins: Vec<Builtin>,
    state: State,
    changed: Sender<()>,
}

/// What a [`Dashboards`] stands for.
#[verifier::ext_equal]
pub struct DashboardsView {
    pub config: ConfigView,
    pub builtins: Seq<BuiltinView>,
    /// How often the inventory has changed.
    pub generation: u64,
    pub entries: EntryMap,
    pub fingerprint: Seq<StampView>,
    pub files_scanned: u32,
    pub fallback_label: Seq<char>,
    /// How often subscribers were told of a change.
    pub wakes: nat,
}

impl View for Dashboards {
    type V = DashboardsView;

    closed spec fn view(&self) -> DashboardsView {
        DashboardsView {
            config: self.config@,
            builtins: text::views(self.builtins@),
            generation: self.state.generation,
            entries: self.state.entries@,
            fingerprint: text::views(self.state.fingerprint@),
            files_scanned: self.state.files_scanned,
            fallback_label: self.state.fallback_label@,
            wakes: signal::sent(self.changed).len(),
        }
    }
}

impl DashboardsView {
    /// A store that has not scanned yet.
    pub open spec fn start(config: ConfigView, builtins: Seq<BuiltinView>) -> DashboardsView {
        DashboardsView {
            config,
            builtins,
            generation: 0,
            entries: Map::empty(),
            fingerprint: Seq::empty(),
            files_scanned: 0,
            fallback_label: Seq::empty(),
            wakes: 0,
        }
    }

    /// The entries that a scan leaves.
    pub open spec fn rescanned(self, scan: CompiledScanView) -> EntryMap {
        assembly::assembled(self.config, self.builtins, scan.files, self.entries)
    }

    /// Whether a scan changes the inventory. One that was given up, or of a store
    /// that is switched off, does not.
    pub open spec fn changes(self, scan: Option<CompiledScanView>) -> bool {
        match scan {
            Some(scan) => self.config.enabled && !catalog::same_inventory(
                self.entries,
                self.rescanned(scan),
            ),
            None => false,
        }
    }

    /// The store after a scan. One that was given up leaves it as it was, and so
    /// does each scan of a store that is switched off.
    pub open spec fn after(self, scan: Option<CompiledScanView>) -> DashboardsView {
        match scan {
            Some(found) if self.config.enabled => DashboardsView {
                generation: if self.changes(scan) {
                    (self.generation + 1) as u64
                } else {
                    self.generation
                },
                entries: self.rescanned(found),
                fingerprint: found.fingerprint,
                files_scanned: found.files.len() as u32,
                wakes: if self.changes(scan) {
                    self.wakes + 1
                } else {
                    self.wakes
                },
                ..self
            },
            _ => self,
        }
    }

    /// The name of the cluster: the one in the settings or, where that is empty, the
    /// fallback.
    pub open spec fn label(self) -> Seq<char> {
        if self.config.cluster_label.len() == 0 {
            self.fallback_label
        } else {
            self.config.cluster_label
        }
    }

    /// The inventory, as it is announced: the dashboards in the order of their ids.
    pub open spec fn announcement(self) -> pb::DashboardInventoryView {
        pb::DashboardInventoryView {
            generation: self.generation,
            cluster_label: self.label(),
            entries: catalog::walk(self.entries).map_values(|e: EntryView| pb::announced(e)),
            mounted_sources_seen: self.config.sources.len() as u32,
            files_scanned: self.files_scanned,
        }
    }

    /// The tree that is served under an id.
    pub open spec fn tree(self, id: Seq<char>) -> Result<pb::RenderTreeView, TreeError> {
        if !self.entries.contains_key(id) {
            Err(TreeError::Unknown)
        } else {
            let e = self.entries[id];
            match e.tree_json {
                None => Err(TreeError::NeverCompiled),
                Some(json) => Ok(
                    pb::RenderTreeView {
                        id: e.id,
                        hash: e.hash,
                        schema: e.schema,
                        json: vstd::utf8::encode_utf8(json),
                    },
                ),
            }
        }
    }
}

/// What a tree that may be missing stands for.
pub open spec fn served_tree(
    r: Result<pb::RenderTree, TreeError>,
) -> Result<pb::RenderTreeView, TreeError> {
    match r {
        Ok(tree) => Ok(tree@),
        Err(e) => Err(e),
    }
}

impl Dashboards {
    /// How many changes the store keeps for a slow subscriber.
    pub closed spec fn backlog(self) -> nat {
        signal::backlog(self.changed)
    }

    /// Whether a receiver is one that the store has handed out.
    pub closed spec fn has_subscriber(self, receiver: Receiver<()>) -> bool {
        signal::is_subscribed(self.changed, receiver) && signal::missed(receiver).len()
            <= signal::sent(self.changed).len()
    }

    /// What there is for a receiver of the store to read, if it has not been read since
    /// it subscribed and that is no more than the store keeps.
    pub closed spec fn delivered(self, receiver: Receiver<()>) -> Seq<()> {
        signal::delivered(self.changed, receiver)
    }

    /// Whether each receiver that the store has handed out is one of the later store too,
    /// with the given number of values more for it to read.
    pub open spec fn tells(self, later: Dashboards, more: nat) -> bool {
        forall|receiver: Receiver<()>| #[trigger]
            self.has_subscriber(receiver) ==> later.has_subscriber(receiver) && later.delivered(
                receiver,
            ).len() == self.delivered(receiver).len() + more
    }

    /// A store that has not scanned yet.
    pub fn new(config: Config, builtins: Vec<Builtin>) -> (r: Self)
        ensures
            r@ == DashboardsView::start(config@, text::views(builtins@)),
            r.backlog() == CHANGES_KEPT,
    {
        let changed = signal::channel(CHANGES_KEPT);
        let state = State {
            generation: 0,
            entries: Entries::new(),
            fingerprint: Vec::new(),
            files_scanned: 0,
            fallback_label: String::new(),
        };
        let r = Dashboards { config, builtins, state, changed };
        assert(r@ =~= DashboardsView::start(config@, text::views(builtins@)));
        r
    }

    /// The settings.
    pub fn config(&self) -> (r: &Config)
        ensures
            r@ == self@.config,
    {
        &self.config
    }

    /// The directory that dashboards are mounted in.
    pub fn path(&self) -> (r: &str)
        ensures
            r@ == self@.config.path,
    {
        self.config.path.as_str()
    }

    /// How often the inventory has changed.
    pub fn generation(&self) -> (r: u64)
        ensures
            r == self@.generation,
    {
        self.state.generation
    }

    /// A receiver that is told of each change from now on.
    pub fn subscribe(&self) -> (r: Receiver<()>)
        ensures
            self.has_subscriber(r),
            self.delivered(r).len() == 0,
            signal::missed(r).len() == self@.wakes,
    {
        signal::subscribe(&self.changed)
    }

    /// The app cannot invent a name for a cluster.
    pub fn set_fallback_label(&mut self, label: &str)
        ensures
            final(self)@ == (DashboardsView { fallback_label: label@, ..old(self)@ }),
            final(self).backlog() == old(self).backlog(),
            old(self).tells(*final(self), 0),
    {
        proof {
            use_type_invariant(&self.state);
        }
        self.state.fallback_label = label.to_owned();
    }

    /// The inventory, as it is announced.
    pub fn inventory(&self) -> (r: pb::DashboardInventory)
        ensures
            r@ == self@.announcement(),
            catalog::lists(catalog::walk(self@.entries), self@.entries),
    {
        let label = if self.config.cluster_label.as_str().is_empty() {
            self.state.fallback_label.clone()
        } else {
            self.config.cluster_label.clone()
        };
        let n: usize = self.state.entries.len();
        let ghost s = self.state.entries.ordered();
        let ghost goal = s.map_values(|e: EntryView| pb::announced(e));
        let mut entries: Vec<pb::DashboardEntry> = Vec::new();
        let mut i: usize = 0;
        while i < n
            invariant
                i <= n,
                n == s.len(),
                s == self.state.entries.ordered(),
                goal == s.map_values(|e: EntryView| pb::announced(e)),
                text::views(entries@) == goal.take(i as int),
            decreases n - i,
        {
            let ghost before = text::views(entries@);
            let e = pb::entry_to_pb(self.state.entries.at(i));
            entries.push(e);
            assert(text::views(entries@) =~= before.push(e@));
            assert(goal.take(i + 1) =~= goal.take(i as int).push(goal[i as int]));
            i = i + 1;
        }
        proof {
            assert(goal.take(i as int) =~= goal);
            assert(catalog::lists(s, self@.entries));
            catalog::lemma_one_walk(s, catalog::walk(self@.entries), self@.entries);
        }
        pb::DashboardInventory {
            generation: self.state.generation,
            cluster_label: label,
            entries,
            mounted_sources_seen: self.config.sources.len() as u32,
            files_scanned: self.state.files_scanned,
        }
    }

    /// The tree that is served under an id.
    pub fn render_tree(&self, id: &str) -> (r: Result<pb::RenderTree, TreeError>)
        ensures
            served_tree(r) == self@.tree(id@),
            r is Ok <==> self@.entries.contains_key(id@) && self@.entries[id@].status
                != Status::Failed,
            r matches Ok(tree) ==> tree@.id == id@,
    {
        proof {
            use_type_invariant(&self.state);
        }
        let e = match self.state.entries.get(id) {
            Some(e) => e,
            None => {
                return Err(TreeError::Unknown);
            },
        };
        match &e.tree_json {
            Some(json) => Ok(
                pb::RenderTree {
                    id: e.id.clone(),
                    hash: e.hash.clone(),
                    schema: e.schema,
                    json: json.as_str().as_bytes_vec(),
                },
            ),
            None => Err(TreeError::NeverCompiled),
        }
    }

    /// The entries that a scan finds, before the limit on dashboards.
    pub fn offered(&self, found: &CompiledScan) -> (r: Entries)
        ensures
            r@ == assembly::offered(
                self@.config,
                self@.builtins,
                found@.files,
                self@.entries,
            ),
    {
        assembly::offer(&self.config, &self.builtins, &found.files, &self.state.entries)
    }

    /// Whether a scan would change the inventory.
    pub fn would_change(&self, read: &Option<CompiledScan>) -> (r: bool)
        ensures
            r == self@.changes(optional_scan(*read)),
    {
        match read {
            Some(found) => self.config.enabled && !self.state.entries.same_as(
                &self.offered(found).keep_first(self.config.limits.max_dashboards),
            ),
            None => false,
        }
    }

    /// Takes what a scan of the directory found, or that it was given up because the
    /// directory is over its limit, and says whether the inventory changed.
    ///
    /// `generation` advances, and subscribers are told, only when the result differs.
    pub fn scan(&mut self, read: Option<CompiledScan>) -> (r: bool)
        requires
            old(self)@.changes(optional_scan(read)) ==> old(self)@.generation < u64::MAX,
        ensures
            r == old(self)@.changes(optional_scan(read)),
            final(self)@ == old(self)@.after(optional_scan(read)),
            final(self).backlog() == old(self).backlog(),
            old(self).tells(
                *final(self),
                if r {
                    1
                } else {
                    0
                },
            ),
    {
        let ghost before = self@;
        if !self.config.enabled {
            return false;
        }
        let read = match read {
            Some(read) => read,
            None => {
                return false;
            },
        };
        let ghost found = read@;
        proof {
            use_type_invariant(&self.state);
            lemma_assembled_sound(self.config@, before.builtins, found.files, before.entries);
        }
        let files_scanned: u32 = read.files.len() as u32;
        let entries = assembly::assemble(
            &self.config,
            &self.builtins,
            &read.files,
            &self.state.entries,
        );
        let same = self.state.entries.same_as(&entries);
        let generation: u64 = if same {
            self.state.generation
        } else {
            self.state.generation + 1
        };
        self.state = State {
            generation,
            entries,
            fingerprint: read.fingerprint,
            files_scanned,
            fallback_label: self.state.fallback_label.clone(),
        };
        if same {
            return false;
        }
        signal::send(&mut self.changed);
        true
    }
}

} // verus!
