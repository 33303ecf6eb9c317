//! What is held of one dashboard.

use crate::text;
use vstd::prelude::*;

verus! {

/// Where a dashboard comes from.
#[derive(Debug, Clone, Copy, PartialEq, Eq, Structural)]
pub enum Source {
    Builtin,
    Mounted,
}

/// How a dashboard stands.
#[derive(Debug, Clone, Copy, PartialEq, Eq, Structural)]
pub enum Status {
    /// The newest source compiled.
    Okay,
    /// Serving the last tree that compiled; the newest source did not.
    Stale,
    /// Never compiled, so there is nothing to serve.
    Failed,
}

/// One remark of the compiler on a dashboard's source.
#[derive(Debug, PartialEq, Eq)]
pub struct Diagnostic {
    pub code: String,
    /// Where in the document the remark belongs.
    pub path: String,
    pub message: String,
    /// Whether the remark is an error, rather than a warning.
    pub error: bool,
}

/// What a [`Diagnostic`] stands for.
#[verifier::ext_equal]
pub struct DiagnosticView {
    pub code: Seq<char>,
    pub path: Seq<char>,
    pub message: Seq<char>,
    pub error: bool,
}

impl View for Diagnostic {
    type V = DiagnosticView;

    open spec fn view(&self) -> DiagnosticView {
        DiagnosticView {
            code: self.code@,
            path: self.path@,
            message: self.message@,
            error: self.error,
        }
    }
}

impl Clone for Diagnostic {
    fn clone(&self) -> (r: Self)
        ensures
            r@ == self@,
    {
        Diagnostic {
            code: self.code.clone(),
            path: self.path.clone(),
            message: self.message.clone(),
            error: self.error,
        }
    }
}

impl Diagnostic {
    /// An error with the given code, place and message.
    pub fn error(code: &str, path: &str, message: String) -> (r: Self)
        ensures
            r@ == (DiagnosticView { code: code@, path: path@, message: message@, error: true }),
    {
        Diagnostic { code: code.to_owned(), path: path.to_owned(), message, error: true }
    }

    /// Whether the remark is an error.
    pub fn is_error(&self) -> (r: bool)
        ensures
            r == self@.error,
    {
        self.error
    }
}

/// A copy of a list of remarks.
pub fn copy_diagnostics(diagnostics: &Vec<Diagnostic>) -> (r: Vec<Diagnostic>)
    ensures
        text::views(r@) == text::views(diagnostics@),
{
    let mut r: Vec<Diagnostic> = Vec::new();
    let mut i: usize = 0;
    while i < diagnostics.len()
        invariant
            i <= diagnostics.len(),
            r.len() == i,
            forall|k: int| 0 <= k < i ==> (#[trigger] r@[k])@ == diagnostics@[k]@,
        decreases diagnostics.len() - i,
    {
        r.push(diagnostics[i].clone());
        i = i + 1;
    }
    assert(text::views(r@) =~= text::views(diagnostics@));
    r
}

/// One dashboard of the inventory.
#[derive(Debug, PartialEq, Eq)]
pub struct Entry {
    pub id: String,
    pub title: String,
    pub hash: String,
    pub schema: u32,
    pub source: Source,
    pub status: Status,
    pub tree_json: Option<String>,
    pub diagnostics: Vec<Diagnostic>,
    pub diagnostics_truncated: u32,
}

/// What an [`Entry`] stands for.
#[verifier::ext_equal]
pub struct EntryView {
    pub id: Seq<char>,
    pub title: Seq<char>,
    pub hash: Seq<char>,
    pub schema: u32,
    pub source: Source,
    pub status: Status,
    pub tree_json: Option<Seq<char>>,
    pub diagnostics: Seq<DiagnosticView>,
    pub diagnostics_truncated: u32,
}

impl EntryView {
    /// What the relay compares, so an identical recompile is not a change.
    pub open spec fn identity(self) -> (Seq<char>, Seq<char>, Status, nat) {
        (self.id, self.hash, self.status, self.diagnostics.len())
    }
}

/// What a text that may be missing stands for.
pub open spec fn optional(s: Option<String>) -> Option<Seq<char>> {
    match s {
        Some(s) => Some(s@),
        None => None,
    }
}

impl View for Entry {
    type V = EntryView;

    open spec fn view(&self) -> EntryView {
        EntryView {
            id: self.id@,
            title: self.title@,
            hash: self.hash@,
            schema: self.schema,
            source: self.source,
            status: self.status,
            tree_json: optional(self.tree_json),
            diagnostics: text::views(self.diagnostics@),
            diagnostics_truncated: self.diagnostics_truncated,
        }
    }
}

impl Clone for Entry {
    fn clone(&self) -> (r: Self)
        ensures
            r@ == self@,
    {
        Entry {
            id: self.id.clone(),
            title: self.title.clone(),
            hash: self.hash.clone(),
            schema: self.schema,
            source: self.source,
            status: self.status,
            tree_json: match &self.tree_json {
                Some(json) => Some(json.clone()),
                None => None,
            },
            diagnostics: copy_diagnostics(&self.diagnostics),
            diagnostics_truncated: self.diagnostics_truncated,
        }
    }
}

impl Entry {
    /// What the relay compares, so an identical recompile is not a change.
    pub fn identity(&self) -> (r: (&str, &str, Status, usize))
        ensures
            (r.0@, r.1@, r.2, r.3 as nat) == self@.identity(),
    {
        (self.id.as_str(), self.hash.as_str(), self.status, self.diagnostics.len())
    }

    /// Whether the relay would take two entries for the same.
    pub fn same_identity(&self, other: &Entry) -> (r: bool)
        ensures
            r == (self@.identity() == other@.identity()),
    {
        let a = self.identity();
        let b = other.identity();
        text::is_same(a.0, b.0) && text::is_same(a.1, b.1) && a.2 == b.2 && a.3 == b.3
    }
}

} // verus!
