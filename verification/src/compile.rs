//! From a dashboard's source, and the compiler's reply to it, to the entry that is
//! held of it.

use crate::catalog::{Entries, EntryMap};
use crate::entry;
use crate::entry::{Diagnostic, DiagnosticView, Entry, EntryView, Source, Status};
use crate::text;
use crate::text::Class;
use vstd::prelude::*;
use vstd::string::*;

verus! {

/// How many of the compiler's errors an entry carries.
pub const MAX_DIAGNOSTICS: usize = 10;

/// A document that compiled.
#[derive(Debug, PartialEq, Eq)]
pub struct Tree {
    pub id: String,
    pub title: String,
    pub hash: String,
    pub schema: u32,
    /// The render tree in JSON.
    pub json: String,
}

/// What a [`Tree`] stands for.
#[verifier::ext_equal]
pub struct TreeView {
    pub id: Seq<char>,
    pub title: Seq<char>,
    pub hash: Seq<char>,
    pub schema: u32,
    pub json: Seq<char>,
}

impl View for Tree {
    type V = TreeView;

    open spec fn view(&self) -> TreeView {
        TreeView {
            id: self.id@,
            title: self.title@,
            hash: self.hash@,
            schema: self.schema,
            json: self.json@,
        }
    }
}

impl Clone for Tree {
    fn clone(&self) -> (r: Self)
        ensures
            r@ == self@,
    {
        Tree {
            id: self.id.clone(),
            title: self.title.clone(),
            hash: self.hash.clone(),
            schema: self.schema,
            json: self.json.clone(),
        }
    }
}

/// What a tree that may be missing stands for.
pub open spec fn optional_tree(t: Option<Tree>) -> Option<TreeView> {
    match t {
        Some(t) => Some(t@),
        None => None,
    }
}

/// The compiler's reply to a document.
#[derive(Debug, PartialEq, Eq)]
pub struct Outcome {
    /// The tree, if the document compiled.
    pub tree: Option<Tree>,
    pub diagnostics: Vec<Diagnostic>,
}

/// What an [`Outcome`] stands for.
#[verifier::ext_equal]
pub struct OutcomeView {
    pub tree: Option<TreeView>,
    pub diagnostics: Seq<DiagnosticView>,
}

impl View for Outcome {
    type V = OutcomeView;

    open spec fn view(&self) -> OutcomeView {
        OutcomeView {
            tree: optional_tree(self.tree),
            diagnostics: text::views(self.diagnostics@),
        }
    }
}

/// A document after compilation.
#[derive(Debug, PartialEq, Eq)]
pub struct Compiled {
    /// The id of the dashboard, if the document says one.
    pub id: Option<String>,
    pub tree: Option<Tree>,
    /// The errors; warnings are left out.
    pub diagnostics: Vec<Diagnostic>,
}

/// What a [`Compiled`] stands for.
#[verifier::ext_equal]
pub struct CompiledView {
    pub id: Option<Seq<char>>,
    pub tree: Option<TreeView>,
    pub diagnostics: Seq<DiagnosticView>,
}

impl View for Compiled {
    type V = CompiledView;

    open spec fn view(&self) -> CompiledView {
        CompiledView {
            id: entry::optional(self.id),
            tree: optional_tree(self.tree),
            diagnostics: text::views(self.diagnostics@),
        }
    }
}

/// Whether a line that starts with `id:` starts at position `p`.
pub open spec fn is_id_line(s: Seq<char>, p: int) -> bool {
    &&& 0 <= p <= s.len() - 3
    &&& p == 0 || s[p - 1] == '\n'
    &&& s[p] == 'i'
    &&& s[p + 1] == 'd'
    &&& s[p + 2] == ':'
}

/// Whether the first line that starts with `id:` starts at position `p`.
pub open spec fn is_first_id_line(s: Seq<char>, p: int) -> bool {
    &&& is_id_line(s, p)
    &&& forall|q: int| 0 <= q < p ==> !is_id_line(s, q)
}

/// Where the line that position `p` is on ends.
pub open spec fn line_end(s: Seq<char>, p: int) -> int
    decreases s.len() - p,
{
    if p < 0 || p >= s.len() || s[p] == '\n' {
        p
    } else {
        line_end(s, p + 1)
    }
}

/// Whether a comment starts at position `i` of what follows the key on its line: with
/// a number sign that a space or a tab comes before.
pub open spec fn is_comment_start(s: Seq<char>, i: int) -> bool {
    0 < i < s.len() && s[i] == '#' && Class::Blank.holds(s[i - 1])
}

/// Where the first comment that starts at `i` or later starts; the end of the text
/// where there is none.
pub open spec fn comment_start(s: Seq<char>, i: int) -> int
    decreases s.len() - i,
{
    if i >= s.len() || is_comment_start(s, i) {
        i
    } else {
        comment_start(s, i + 1)
    }
}

/// Whether a text is a comment, after the spaces and tabs that part it from a value.
pub open spec fn is_comment(s: Seq<char>) -> bool {
    let t = text::trimmed_start(s, Class::Blank);
    0 < t.len() < s.len() && t[0] == '#'
}

/// Where a character first stands, at `i` or later; the end of the text where it does
/// not.
pub open spec fn next_of(v: Seq<char>, c: char, i: int) -> int
    decreases v.len() - i,
{
    if i >= v.len() || v[i] == c {
        i
    } else {
        next_of(v, c, i + 1)
    }
}

/// Whether a value is in quotation marks: it starts with one, the next mark of the same
/// kind closes it, there is something between the two, and nothing but a comment comes
/// after them.
pub open spec fn is_quoted(v: Seq<char>) -> bool {
    v.len() > 0 && Class::Quote.holds(v[0]) && {
        let end = next_of(v, v[0], 1);
        1 < end < v.len() && (end + 1 == v.len() || is_comment(v.skip(end + 1)))
    }
}

/// The value that follows the key on its line. Of a value in quotation marks that is
/// what stands between the two marks. Of any other it is what comes before a comment,
/// without the white space around it, and then without the quotation marks at its ends.
pub open spec fn plain_value(s: Seq<char>) -> Seq<char> {
    let v = text::trimmed(s, Class::Space);
    if is_quoted(v) {
        v.subrange(1, next_of(v, v[0], 1))
    } else {
        text::trimmed(
            text::trimmed(s.take(comment_start(s, 0)), Class::Space),
            Class::Quote,
        )
    }
}

/// The id that a document gives on its first line that starts with `id:`.
pub open spec fn id_declared_in(s: Seq<char>) -> Option<Seq<char>> {
    if exists|p: int| is_first_id_line(s, p) {
        let p = choose|p: int| is_first_id_line(s, p);
        let value = plain_value(s.subrange(p + 3, line_end(s, p + 3)));
        if value.len() == 0 {
            None
        } else {
            Some(value)
        }
    } else {
        None
    }
}

/// Where the first line that starts with `id:` starts.
fn first_id_line(chars: &Vec<char>) -> (r: Option<usize>)
    ensures
        match r {
            Some(p) => is_first_id_line(chars@, p as int),
            None => forall|p: int| !is_id_line(chars@, p),
        },
{
    if chars.len() < 3 {
        return None;
    }
    let mut p: usize = 0;
    while p <= chars.len() - 3
        invariant
            3 <= chars.len(),
            p <= chars.len() - 2,
            forall|q: int| 0 <= q < p ==> !is_id_line(chars@, q),
        decreases chars.len() - p,
    {
        if (p == 0 || chars[p - 1] == '\n') && chars[p] == 'i' && chars[p + 1] == 'd' && chars[p
            + 2] == ':' {
            return Some(p);
        }
        p = p + 1;
    }
    None
}

/// Whether a stretch of text is a comment, after the spaces and tabs that part it from
/// a value.
fn is_comment_in(chars: &[char], from: usize, to: usize) -> (r: bool)
    requires
        from <= to <= chars.len(),
    ensures
        r == is_comment(chars@.subrange(from as int, to as int)),
{
    let ghost s = chars@.subrange(from as int, to as int);
    let mut start: usize = from;
    while start < to && Class::Blank.contains(chars[start])
        invariant
            from <= start <= to <= chars.len(),
            s == chars@.subrange(from as int, to as int),
            text::trimmed_start(s, Class::Blank) == text::trimmed_start(
                chars@.subrange(start as int, to as int),
                Class::Blank,
            ),
        decreases to - start,
    {
        assert(chars@.subrange(start as int, to as int).drop_first() =~= chars@.subrange(
            start + 1,
            to as int,
        ));
        start = start + 1;
    }
    from < start && start < to && chars[start] == '#'
}

/// Where the value that follows the key starts and ends, given the rest of its line.
fn value_range(chars: &[char], from: usize, to: usize) -> (r: (usize, usize))
    requires
        from <= to <= chars.len(),
    ensures
        from <= r.0 <= r.1 <= to,
        chars@.subrange(r.0 as int, r.1 as int) == plain_value(
            chars@.subrange(from as int, to as int),
        ),
{
    let ghost s = chars@.subrange(from as int, to as int);
    let (a, b) = text::trim_range(chars, from, to, Class::Space);
    let ghost v = chars@.subrange(a as int, b as int);
    if a < b && Class::Quote.contains(chars[a]) {
        let mut end: usize = a + 1;
        while end < b && chars[end] != chars[a]
            invariant
                a < end <= b <= chars.len(),
                v == chars@.subrange(a as int, b as int),
                next_of(v, v[0], 1) == next_of(v, v[0], end - a),
            decreases b - end,
        {
            end = end + 1;
        }
        if a + 1 < end && end < b {
            assert(v.skip(end - a + 1) =~= chars@.subrange(end + 1, b as int));
            if end + 1 == b || is_comment_in(chars, end + 1, b) {
                assert(v.subrange(1, end - a) =~= chars@.subrange(a + 1, end as int));
                return (a + 1, end);
            }
        }
    }
    let mut cut: usize = from;
    while cut < to && !(chars[cut] == '#' && cut > from && Class::Blank.contains(chars[cut - 1]))
        invariant
            from <= cut <= to <= chars.len(),
            s == chars@.subrange(from as int, to as int),
            comment_start(s, 0) == comment_start(s, cut - from),
        decreases to - cut,
    {
        cut = cut + 1;
    }
    assert(s.take(cut - from) =~= chars@.subrange(from as int, cut as int));
    let (c, d) = text::trim_range(chars, from, cut, Class::Space);
    text::trim_range(chars, c, d, Class::Quote)
}

/// The id that a document gives on its first line that starts with `id:`.
///
/// Read only to attribute a failure; a compiled document has an authoritative id. A
/// comment after the id, and quotation marks around it, are no part of it. A line whose
/// key is quoted or indented, has blanks before its colon, a byte order mark before it,
/// or stands in braces, is not taken for an id line. An anchor or a tag is taken for a
/// part of the id, and escapes are not read: each mark and each number sign counts.
pub fn declared_id(yaml: &str) -> (r: Option<String>)
    ensures
        entry::optional(r) == id_declared_in(yaml@),
{
    let chars = text::chars_of(yaml);
    let p: usize = match first_id_line(&chars) {
        Some(p) => p,
        None => {
            return None;
        },
    };
    assert(p <= chars.len() - 3);
    let start: usize = p + 3;
    let mut end: usize = start;
    while end < chars.len() && chars[end] != '\n'
        invariant
            start <= end <= chars.len(),
            line_end(chars@, start as int) == line_end(chars@, end as int),
        decreases chars.len() - end,
    {
        end = end + 1;
    }
    let (c, d) = value_range(&chars, start, end);
    proof {
        let q = choose|q: int| is_first_id_line(yaml@, q);
        assert(is_first_id_line(yaml@, p as int));
        assert(q == p);
    }
    if c == d {
        None
    } else {
        Some(yaml.substring_char(c, d).to_owned())
    }
}

/// The errors among the compiler's remarks.
pub open spec fn errors(diagnostics: Seq<DiagnosticView>) -> Seq<DiagnosticView> {
    diagnostics.filter(|d: DiagnosticView| d.error)
}

/// What compilation makes of a document: the id of its tree or, where it has none,
/// the id that it declares; the tree; and the errors.
pub open spec fn compiled(yaml: Seq<char>, outcome: OutcomeView) -> CompiledView {
    CompiledView {
        id: match outcome.tree {
            Some(tree) => Some(tree.id),
            None => id_declared_in(yaml),
        },
        tree: outcome.tree,
        diagnostics: errors(outcome.diagnostics),
    }
}

/// The errors among the compiler's remarks.
fn only_errors(diagnostics: &Vec<Diagnostic>) -> (r: Vec<Diagnostic>)
    ensures
        text::views(r@) == errors(text::views(diagnostics@)),
{
    let ghost all = text::views(diagnostics@);
    let ghost is_error = |d: DiagnosticView| d.error;
    let mut r: Vec<Diagnostic> = Vec::new();
    let mut i: usize = 0;
    proof {
        reveal(Seq::filter);
        assert(all.take(0).filter(is_error) =~= Seq::<DiagnosticView>::empty());
        assert(text::views(r@) =~= Seq::<DiagnosticView>::empty());
    }
    while i < diagnostics.len()
        invariant
            i <= diagnostics.len(),
            all == text::views(diagnostics@),
            is_error == (|d: DiagnosticView| d.error),
            text::views(r@) == all.take(i as int).filter(is_error),
        decreases diagnostics.len() - i,
    {
        let ghost before = text::views(r@);
        proof {
            reveal(Seq::filter);
            assert(all.take(i + 1).drop_last() =~= all.take(i as int));
            assert(all.take(i + 1).last() == diagnostics@[i as int]@);
        }
        if diagnostics[i].is_error() {
            let d = diagnostics[i].clone();
            r.push(d);
            assert(text::views(r@) =~= before.push(d@));
        }
        i = i + 1;
    }
    assert(all.take(i as int) =~= all);
    r
}

/// What compilation makes of a document, given the compiler's reply to it.
pub fn compile(yaml: &str, outcome: &Outcome) -> (r: Compiled)
    ensures
        r@ == compiled(yaml@, outcome@),
{
    let diagnostics = only_errors(&outcome.diagnostics);
    match &outcome.tree {
        Some(tree) => Compiled { id: Some(tree.id.clone()), tree: Some(tree.clone()), diagnostics },
        None => Compiled { id: declared_id(yaml), tree: None, diagnostics },
    }
}

/// The errors that an entry carries: the first few.
pub open spec fn carried(diagnostics: Seq<DiagnosticView>) -> Seq<DiagnosticView> {
    if diagnostics.len() > MAX_DIAGNOSTICS {
        diagnostics.take(MAX_DIAGNOSTICS as int)
    } else {
        diagnostics
    }
}

/// How many errors an entry leaves out, as 32 bits hold it.
pub open spec fn left_out(diagnostics: Seq<DiagnosticView>) -> u32 {
    if diagnostics.len() > MAX_DIAGNOSTICS {
        (diagnostics.len() - MAX_DIAGNOSTICS) as u32
    } else {
        0
    }
}

/// The entry of a dashboard with nothing to serve.
pub open spec fn failed(
    id: Seq<char>,
    diagnostics: Seq<DiagnosticView>,
    diagnostics_truncated: u32,
) -> EntryView {
    EntryView {
        id,
        title: Seq::empty(),
        hash: Seq::empty(),
        schema: 0,
        source: Source::Mounted,
        status: Status::Failed,
        tree_json: None,
        diagnostics,
        diagnostics_truncated,
    }
}

/// The entry of a mounted dashboard that compiled.
pub open spec fn served(tree: TreeView) -> EntryView {
    EntryView {
        id: tree.id,
        title: tree.title,
        hash: tree.hash,
        schema: tree.schema,
        source: Source::Mounted,
        status: Status::Okay,
        tree_json: Some(tree.json),
        diagnostics: Seq::empty(),
        diagnostics_truncated: 0,
    }
}

/// The entry of a dashboard whose newest source did not compile, beside the last
/// one that did.
pub open spec fn stale(good: EntryView, diagnostics: Seq<DiagnosticView>) -> EntryView {
    EntryView {
        status: Status::Stale,
        source: Source::Mounted,
        diagnostics: carried(diagnostics),
        diagnostics_truncated: left_out(diagnostics),
        ..good
    }
}

/// The entry that a document gives to the id it declares. A document that did not
/// compile does not take away a tree that is held under the id.
pub open spec fn entry_of(id: Seq<char>, compiled: CompiledView, held: EntryMap) -> EntryView {
    match compiled.tree {
        Some(tree) => served(tree),
        None => if held.contains_key(id) && held[id].tree_json is Some {
            stale(held[id], compiled.diagnostics)
        } else {
            failed(id, carried(compiled.diagnostics), left_out(compiled.diagnostics))
        },
    }
}

/// The entry that a document gives to the id it declares, beside the entries that
/// are held.
pub fn entry_from(id: String, compiled: Compiled, held: &Entries) -> (r: Entry)
    ensures
        r@ == entry_of(id@, compiled@, held@),
{
    let Compiled { id: _, tree, diagnostics: mut diagnostics } = compiled;
    let ghost all = text::views(diagnostics@);
    let count: usize = diagnostics.len();
    let truncated: u32 = if count > MAX_DIAGNOSTICS {
        (count - MAX_DIAGNOSTICS) as u32
    } else {
        0
    };
    if count > MAX_DIAGNOSTICS {
        diagnostics.truncate(MAX_DIAGNOSTICS);
    }
    assert(text::views(diagnostics@) =~= carried(all));

    if let Some(tree) = tree {
        let none: Vec<Diagnostic> = Vec::new();
        assert(text::views(none@) =~= Seq::<DiagnosticView>::empty());
        return Entry {
            id: tree.id,
            title: tree.title,
            hash: tree.hash,
            schema: tree.schema,
            source: Source::Mounted,
            status: Status::Okay,
            tree_json: Some(tree.json),
            diagnostics: none,
            diagnostics_truncated: 0,
        };
    }
    // A bad merge must not remove a working dashboard.
    if let Some(good) = held.get(id.as_str()) {
        if good.tree_json.is_some() {
            let good = good.clone();
            return Entry {
                status: Status::Stale,
                source: Source::Mounted,
                diagnostics,
                diagnostics_truncated: truncated,
                ..good
            };
        }
    }
    failed_entry(id, diagnostics, truncated)
}

/// The entry of a dashboard with nothing to serve.
fn failed_entry(id: String, diagnostics: Vec<Diagnostic>, diagnostics_truncated: u32) -> (r: Entry)
    ensures
        r@ == failed(id@, text::views(diagnostics@), diagnostics_truncated),
{
    Entry {
        id,
        title: String::new(),
        hash: String::new(),
        schema: 0,
        source: Source::Mounted,
        status: Status::Failed,
        tree_json: None,
        diagnostics,
        diagnostics_truncated,
    }
}

/// The entry of an id that several files declare: none of them wins, and the one
/// error names them all.
pub open spec fn contested(id: Seq<char>, paths: Seq<Seq<char>>) -> EntryView {
    failed(
        id,
        seq![
            DiagnosticView {
                code: "E-100"@,
                path: ""@,
                message: "`"@ + id + "` is declared by more than one file: "@ + text::joined(
                    paths,
                    ", "@,
                ),
                error: true,
            },
        ],
        0,
    )
}

/// The entry of an id that several files declare.
pub fn contested_entry(id: String, paths: &Vec<String>) -> (r: Entry)
    ensures
        r@ == contested(id@, text::views(paths@)),
{
    let mut head = "`".to_owned();
    head.append(id.as_str());
    head.append("` is declared by more than one file: ");
    let message = text::append_joined(head, paths, ", ");
    let diagnostic = Diagnostic::error("E-100", "", message);
    let ghost view = diagnostic@;
    let diagnostics = vec![diagnostic];
    assert(text::views(diagnostics@) =~= seq![view]);
    failed_entry(id, diagnostics, 0)
}

} // verus!
