//! The inventory that a scan makes: the embedded dashboards, those of the mounted
//! files over them, and of all of these as many as the limit allows.

use crate::catalog;
use crate::catalog::{Entries, EntryMap};
use crate::compile;
use crate::compile::{Compiled, CompiledView, Outcome, OutcomeView};
use crate::config::{Config, ConfigView};
use crate::entry::{Diagnostic, DiagnosticView, Entry, EntryView, Source, Status};
use crate::text;
use vstd::prelude::*;

verus! {

/// A dashboard that is embedded in the program, already compiled.
#[derive(Debug, PartialEq, Eq)]
pub struct Builtin {
    pub id: String,
    pub title: String,
    pub hash: String,
    pub schema: u32,
    pub json: String,
}

/// What a [`Builtin`] stands for.
#[verifier::ext_equal]
pub struct BuiltinView {
    pub id: Seq<char>,
    pub title: Seq<char>,
    pub hash: Seq<char>,
    pub schema: u32,
    pub json: Seq<char>,
}

impl View for Builtin {
    type V = BuiltinView;

    open spec fn view(&self) -> BuiltinView {
        BuiltinView {
            id: self.id@,
            title: self.title@,
            hash: self.hash@,
            schema: self.schema,
            json: self.json@,
        }
    }
}

/// A file of the mounted directory, with the compiler's reply to it.
#[derive(Debug, PartialEq, Eq)]
pub struct SourceFile {
    pub path: String,
    pub text: String,
    pub outcome: Outcome,
}

/// What a [`SourceFile`] stands for.
#[verifier::ext_equal]
pub struct SourceFileView {
    pub path: Seq<char>,
    pub text: Seq<char>,
    pub outcome: OutcomeView,
}

impl View for SourceFile {
    type V = SourceFileView;

    open spec fn view(&self) -> SourceFileView {
        SourceFileView { path: self.path@, text: self.text@, outcome: self.outcome@ }
    }
}

impl SourceFileView {
    /// What compilation makes of the file.
    pub open spec fn compiled(self) -> CompiledView {
        compile::compiled(self.text, self.outcome)
    }

    /// The id that the file declares.
    pub open spec fn id(self) -> Option<Seq<char>> {
        self.compiled().id
    }
}

/// The entry of an embedded dashboard.
pub open spec fn builtin_view(b: BuiltinView) -> EntryView {
    EntryView {
        id: b.id,
        title: b.title,
        hash: b.hash,
        schema: b.schema,
        source: Source::Builtin,
        status: Status::Okay,
        tree_json: Some(b.json),
        diagnostics: Seq::empty(),
        diagnostics_truncated: 0,
    }
}

/// The entries of the embedded dashboards; of two with one id the later counts.
pub open spec fn embedded(builtins: Seq<BuiltinView>) -> EntryMap
    decreases builtins.len(),
{
    if builtins.len() == 0 {
        Map::empty()
    } else {
        embedded(builtins.drop_last()).insert(builtins.last().id, builtin_view(builtins.last()))
    }
}

/// The files that declare an id.
pub open spec fn declaring(files: Seq<SourceFileView>, id: Seq<char>) -> Seq<SourceFileView> {
    files.filter(|f: SourceFileView| f.id() == Some(id))
}

/// The paths of files.
pub open spec fn paths(files: Seq<SourceFileView>) -> Seq<Seq<char>> {
    files.map_values(|f: SourceFileView| f.path)
}

/// The entry of an id that mounted files declare. Where there are several, file
/// names are no identity, so none of them wins.
pub open spec fn mounted_entry(
    files: Seq<SourceFileView>,
    held: EntryMap,
    id: Seq<char>,
) -> EntryView {
    let claims = declaring(files, id);
    if claims.len() > 1 {
        compile::contested(id, paths(claims))
    } else {
        compile::entry_of(id, claims[0].compiled(), held)
    }
}

/// The entries of the mounted files: one for each id that a file declares.
pub open spec fn mounted(files: Seq<SourceFileView>, held: EntryMap) -> EntryMap {
    Map::new(
        |id: Seq<char>| declaring(files, id).len() > 0,
        |id: Seq<char>| mounted_entry(files, held, id),
    )
}

/// The embedded entries that the settings ask for.
pub open spec fn enabled_builtins(config: ConfigView, builtins: Seq<BuiltinView>) -> EntryMap {
    if config.builtins {
        embedded(builtins)
    } else {
        Map::empty()
    }
}

/// The entries before the limit: a mounted dashboard takes the place of an embedded
/// one with its id.
pub open spec fn offered(
    config: ConfigView,
    builtins: Seq<BuiltinView>,
    files: Seq<SourceFileView>,
    held: EntryMap,
) -> EntryMap {
    enabled_builtins(config, builtins).union_prefer_right(mounted(files, held))
}

/// The entries that a scan makes. Where there are more than the limit allows, those
/// with the first ids stay.
pub open spec fn assembled(
    config: ConfigView,
    builtins: Seq<BuiltinView>,
    files: Seq<SourceFileView>,
    held: EntryMap,
) -> EntryMap {
    catalog::first(
        offered(config, builtins, files, held),
        config.limits.max_dashboards as nat,
    )
}

/// The entry of an embedded dashboard.
fn builtin_entry(b: &Builtin) -> (r: Entry)
    ensures
        r@ == builtin_view(b@),
{
    let none: Vec<Diagnostic> = Vec::new();
    assert(text::views(none@) =~= Seq::<DiagnosticView>::empty());
    Entry {
        id: b.id.clone(),
        title: b.title.clone(),
        hash: b.hash.clone(),
        schema: b.schema,
        source: Source::Builtin,
        status: Status::Okay,
        tree_json: Some(b.json.clone()),
        diagnostics: none,
        diagnostics_truncated: 0,
    }
}

/// The entries of the embedded dashboards.
fn embedded_entries(builtins: &Vec<Builtin>) -> (r: Entries)
    ensures
        r@ == embedded(text::views(builtins@)),
{
    let ghost all = text::views(builtins@);
    let mut r = Entries::new();
    let mut i: usize = 0;
    while i < builtins.len()
        invariant
            i <= builtins.len(),
            all == text::views(builtins@),
            r@ == embedded(all.take(i as int)),
        decreases builtins.len() - i,
    {
        assert(all.take(i + 1).drop_last() =~= all.take(i as int));
        r = r.insert(builtin_entry(&builtins[i]));
        i = i + 1;
    }
    assert(all.take(i as int) =~= all);
    r
}

/// An id, and the files that declare it.
struct Claim {
    id: String,
    paths: Vec<String>,
    /// What compilation made of the first of the files.
    compiled: Compiled,
}

impl Claim {
    /// Whether this is what the given files say of the id.
    spec fn agrees(self, files: Seq<SourceFileView>) -> bool {
        let claims = declaring(files, self.id@);
        &&& claims.len() > 0
        &&& text::views(self.paths@) == paths(claims)
        &&& self.compiled@ == claims[0].compiled()
    }
}

/// Whether an id is that of one of the claims.
spec fn claimed(claims: Seq<Claim>, id: Seq<char>) -> bool {
    exists|i: int| 0 <= i < claims.len() && (#[trigger] claims[i]).id@ == id
}

/// Whether claims are what the given files say: one for each id.
spec fn covers(claims: Seq<Claim>, files: Seq<SourceFileView>) -> bool {
    &&& forall|i: int, j: int|
        0 <= i < j < claims.len() ==> (#[trigger] claims[i]).id@ != (#[trigger] claims[j]).id@
    &&& forall|i: int| 0 <= i < claims.len() ==> (#[trigger] claims[i]).agrees(files)
    &&& forall|id: Seq<char>|
        (#[trigger] declaring(files, id)).len() > 0 ==> claimed(claims, id)
}

/// One more file adds itself to the files that declare its id, and to no others.
proof fn lemma_declaring_push(files: Seq<SourceFileView>, file: SourceFileView, id: Seq<char>)
    ensures
        declaring(files.push(file), id) == (if file.id() == Some(id) {
            declaring(files, id).push(file)
        } else {
            declaring(files, id)
        }),
{
    reveal(Seq::filter);
    assert(files.push(file).drop_last() =~= files);
}

/// A file that declares an id does declare it.
pub proof fn lemma_declaring_id(files: Seq<SourceFileView>, id: Seq<char>, i: int)
    requires
        0 <= i < declaring(files, id).len(),
    ensures
        declaring(files, id)[i].id() == Some(id),
{
    files.lemma_filter_pred(|f: SourceFileView| f.id() == Some(id), i);
}

/// The entry of an id has that id.
pub proof fn lemma_mounted_entry_id(files: Seq<SourceFileView>, held: EntryMap, id: Seq<char>)
    requires
        catalog::is_keyed(held),
        declaring(files, id).len() > 0,
    ensures
        mounted_entry(files, held, id).id == id,
{
    lemma_declaring_id(files, id, 0);
}

/// The claim on an id.
fn find_claim(claims: &Vec<Claim>, id: &str) -> (r: Option<usize>)
    ensures
        match r {
            Some(i) => i < claims.len() && claims@[i as int].id@ == id@,
            None => !claimed(claims@, id@),
        },
{
    let mut i: usize = 0;
    while i < claims.len()
        invariant
            i <= claims.len(),
            forall|k: int| 0 <= k < i ==> (#[trigger] claims@[k]).id@ != id@,
        decreases claims.len() - i,
    {
        if text::is_same(claims[i].id.as_str(), id) {
            return Some(i);
        }
        i = i + 1;
    }
    None
}

/// What files say of the ids that they declare.
fn claims_of(files: &Vec<SourceFile>) -> (r: Vec<Claim>)
    ensures
        covers(r@, text::views(files@)),
{
    let ghost all = text::views(files@);
    let mut claims: Vec<Claim> = Vec::new();
    let mut i: usize = 0;
    proof {
        reveal(Seq::filter);
        assert(all.take(0) =~= Seq::<SourceFileView>::empty());
    }
    while i < files.len()
        invariant
            i <= files.len(),
            all == text::views(files@),
            covers(claims@, all.take(i as int)),
        decreases files.len() - i,
    {
        let file = &files[i];
        let ghost seen = all.take(i as int);
        let ghost before = claims@;
        let compiled = compile::compile(file.text.as_str(), &file.outcome);
        let ghost view = compiled@;
        proof {
            assert(all.take(i + 1) =~= seen.push(file@));
            assert forall|id: Seq<char>| #[trigger] declaring(seen.push(file@), id) == (if file@.id()
                == Some(id) {
                declaring(seen, id).push(file@)
            } else {
                declaring(seen, id)
            }) by {
                lemma_declaring_push(seen, file@, id);
            }
        }
        // A file with no id is passed over.
        if let Some(id) = &compiled.id {
            let id = id.clone();
            match find_claim(&claims, id.as_str()) {
                Some(j) => {
                    claims[j].paths.push(file.path.clone());
                    proof {
                        let old_claim = before[j as int];
                        let new_claim = claims@[j as int];
                        assert(old_claim.agrees(seen));
                        assert(text::views(new_claim.paths@) =~= text::views(
                            old_claim.paths@,
                        ).push(file.path@));
                        assert(paths(declaring(seen, id@).push(file@)) =~= paths(
                            declaring(seen, id@),
                        ).push(file@.path));
                        assert forall|k: int| 0 <= k < claims.len() implies (
                        #[trigger] claims@[k]).agrees(seen.push(file@)) by {
                            assert(before[k].agrees(seen));
                            if k != j {
                                assert(claims@[k] == before[k]);
                            }
                        }
                        assert forall|other: Seq<char>|
                            (#[trigger] declaring(seen.push(file@), other)).len()
                                > 0 implies claimed(claims@, other) by {
                            if other == id@ {
                                assert(claims@[j as int].id@ == other);
                            } else {
                                assert(claimed(before, other));
                                let k = choose|k: int|
                                    0 <= k < before.len() && (#[trigger] before[k]).id@ == other;
                                assert(claims@[k].id@ == other);
                            }
                        }
                    }
                },
                None => {
                    let ghost gid = id@;
                    claims.push(Claim { id, paths: vec![file.path.clone()], compiled });
                    proof {
                        let new_claim = claims@[before.len() as int];
                        assert(declaring(seen, gid).len() == 0);
                        assert(declaring(seen.push(file@), gid)[0] == file@);
                        assert(text::views(new_claim.paths@) =~= paths(
                            declaring(seen.push(file@), gid),
                        ));
                        assert forall|k: int| 0 <= k < claims.len() implies (
                        #[trigger] claims@[k]).agrees(seen.push(file@)) by {
                            if k < before.len() {
                                assert(before[k].agrees(seen));
                                assert(claims@[k] == before[k]);
                                assert(before[k].id@ != gid);
                            }
                        }
                        assert forall|other: Seq<char>|
                            (#[trigger] declaring(seen.push(file@), other)).len()
                                > 0 implies claimed(claims@, other) by {
                            if other == gid {
                                assert(new_claim.id@ == other);
                            } else {
                                assert(claimed(before, other));
                                let k = choose|k: int|
                                    0 <= k < before.len() && (#[trigger] before[k]).id@ == other;
                                assert(claims@[k].id@ == other);
                            }
                        }
                    }
                },
            }
        } else {
            proof {
                assert forall|k: int| 0 <= k < claims.len() implies (
                #[trigger] claims@[k]).agrees(seen.push(file@)) by {
                    assert(before[k].agrees(seen));
                }
            }
        }
        i = i + 1;
    }
    assert(all.take(i as int) =~= all);
    claims
}

/// The entry that a claim leads to.
fn claim_entry(claim: Claim, held: &Entries, Ghost(files): Ghost<Seq<SourceFileView>>) -> (r: Entry)
    requires
        claim.agrees(files),
    ensures
        r@ == mounted_entry(files, held@, claim.id@),
{
    assert(text::views(claim.paths@).len() == declaring(files, claim.id@).len());
    if claim.paths.len() > 1 {
        // File name order is not identity, so neither file wins.
        compile::contested_entry(claim.id, &claim.paths)
    } else {
        compile::entry_from(claim.id, claim.compiled, held)
    }
}

/// The entries before the limit, of the mounted files beside those that are held.
pub fn offer(
    config: &Config,
    builtins: &Vec<Builtin>,
    files: &Vec<SourceFile>,
    held: &Entries,
) -> (r: Entries)
    ensures
        r@ == offered(config@, text::views(builtins@), text::views(files@), held@),
{
    let ghost all = text::views(files@);
    let mut out = if config.builtins {
        embedded_entries(builtins)
    } else {
        Entries::new()
    };
    let ghost base = out@;
    let mut claims = claims_of(files);
    let ghost listed = claims@;
    proof {
        held.lemma_keyed();
    }
    while claims.len() > 0
        invariant
            all == text::views(files@),
            covers(listed, all),
            catalog::is_keyed(held@),
            claims.len() <= listed.len(),
            claims@ == listed.take(claims.len() as int),
            forall|k: int|
                claims.len() <= k < listed.len() ==> out@.contains_key((#[trigger] listed[k]).id@)
                    && out@[listed[k].id@] == mounted_entry(all, held@, listed[k].id@),
            forall|id: Seq<char>|
                !claimed(listed.skip(claims.len() as int), id) ==> (#[trigger] out@.contains_key(
                    id,
                ) == base.contains_key(id) && (base.contains_key(id) ==> out@[id] == base[id])),
        decreases claims.len(),
    {
        let ghost n = claims.len() - 1;
        let ghost before = out@;
        let claim = claims.pop().unwrap();
        let ghost id = claim.id@;
        proof {
            assert(claim == listed[n]);
            assert(listed[n].agrees(all));
            lemma_mounted_entry_id(all, held@, id);
        }
        out = out.insert(claim_entry(claim, held, Ghost(all)));
        proof {
            assert(claims@ =~= listed.take(n));
            assert forall|other: Seq<char>| !claimed(listed.skip(n), other) implies (
            #[trigger] out@.contains_key(other) == base.contains_key(other) && (base.contains_key(
                other,
            ) ==> out@[other] == base[other])) by {
                assert(listed.skip(n)[0] == listed[n]);
                assert(other != id);
                if claimed(listed.skip(n + 1), other) {
                    let k = choose|k: int|
                        0 <= k < listed.skip(n + 1).len() && (#[trigger] listed.skip(n
                            + 1)[k]).id@ == other;
                    assert(listed.skip(n)[k + 1].id@ == other);
                }
                assert(before.contains_key(other) == base.contains_key(other));
            }
        }
    }
    proof {
        let goal = base.union_prefer_right(mounted(all, held@));
        assert(listed.skip(0) =~= listed);
        assert forall|id: Seq<char>| true implies #[trigger] out@.contains_key(id)
            == goal.contains_key(id) && (goal.contains_key(id) ==> out@[id] == goal[id]) by {
            if claimed(listed, id) {
                let k = choose|k: int| 0 <= k < listed.len() && (#[trigger] listed[k]).id@ == id;
                assert(listed[k].agrees(all));
            } else {
                assert(declaring(all, id).len() == 0);
                assert(out@.contains_key(id) == base.contains_key(id));
            }
        }
        assert(out@ =~= goal);
    }
    out
}

/// The entries that a scan makes of the mounted files, beside those that are held.
pub fn assemble(
    config: &Config,
    builtins: &Vec<Builtin>,
    files: &Vec<SourceFile>,
    held: &Entries,
) -> (r: Entries)
    ensures
        r@ == assembled(config@, text::views(builtins@), text::views(files@), held@),
{
    // Sorted ids make which dashboards are dropped deterministic.
    offer(config, builtins, files, held).keep_first(config.limits.max_dashboards)
}

} // verus!
