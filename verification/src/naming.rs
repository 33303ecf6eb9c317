//! What holds of the ids that documents declare.

use crate::assembly;
use crate::assembly::SourceFileView;
use crate::compile;
use crate::compile::OutcomeView;
use crate::dashboards::{CompiledScanView, DashboardsView};
use crate::entry::{DiagnosticView, Status};
use crate::laws;
use crate::text;
use crate::text::Class;
use crate::text_laws;
use vstd::prelude::*;

verus! {

/// Whether an id needs no quotation marks: it neither starts nor ends with white space
/// or a quotation mark, does not start with a number sign, and no comment starts in it.
pub open spec fn is_plain(id: Seq<char>) -> bool {
    &&& id.len() > 0
    &&& !text::is_space(id[0]) && !Class::Quote.holds(id[0]) && id[0] != '#'
    &&& !text::is_space(id.last()) && !Class::Quote.holds(id.last())
    &&& !has_comment(id)
}

/// Whether a comment starts in what follows the key on its line.
pub open spec fn has_comment(rest: Seq<char>) -> bool {
    exists|i: int| #[trigger] compile::is_comment_start(rest, i)
}

/// Whether nothing but white space, or a comment, is left of a line.
pub open spec fn ends_line(after: Seq<char>) -> bool {
    text::is_all(after, Class::Space) || compile::is_comment(after)
}

/// Whether the rest of an id line holds a plain id, and after it nothing but white
/// space, or a comment.
pub open spec fn holds_plain(
    rest: Seq<char>,
    before: Seq<char>,
    id: Seq<char>,
    after: Seq<char>,
) -> bool {
    &&& rest == before + id + after
    &&& is_plain(id)
    &&& text::is_all(before, Class::Space)
    &&& ends_line(after)
}

/// Whether the rest of an id line holds an id in quotation marks, and after it nothing
/// but white space, or a comment.
pub open spec fn holds_quoted(
    rest: Seq<char>,
    before: Seq<char>,
    mark: char,
    id: Seq<char>,
    after: Seq<char>,
) -> bool {
    &&& rest == before + seq![mark] + id + seq![mark] + after
    &&& id.len() > 0
    &&& !id.contains(mark)
    &&& Class::Quote.holds(mark)
    &&& text::is_all(before, Class::Space)
    &&& ends_line(after)
}

/// A comment is some spaces and tabs, a number sign, and anything.
proof fn lemma_comment(s: Seq<char>) -> (n: int)
    requires
        compile::is_comment(s),
    ensures
        0 < n < s.len(),
        s[n] == '#',
        text::is_all(s.take(n), Class::Blank),
{
    let n = text::lemma_trimmed_start_rest(s, Class::Blank);
    assert(s.skip(n)[0] == s[n]);
    n
}

/// A comment is one still when the white space at its end is cut off.
proof fn lemma_comment_trimmed(s: Seq<char>)
    requires
        compile::is_comment(s),
    ensures
        compile::is_comment(text::trimmed_end(s, Class::Space)),
{
    let n = lemma_comment(s);
    let blank = s.take(n);
    let head = blank + seq!['#'];
    let tail = s.skip(n + 1);
    let short = seq!['#'] + text::trimmed_end(tail, Class::Space);
    assert(s =~= head + tail);
    text::lemma_trimmed_end_stops(head, tail, Class::Space);
    assert(text::trimmed_end(s, Class::Space) =~= blank + short);
    text::lemma_trimmed_start(blank, short, Class::Blank);
    assert(short[0] == '#');
}

/// The first comment is found where it starts.
proof fn lemma_comment_start(v: Seq<char>, i: int, n: int)
    requires
        0 <= i <= n <= v.len(),
        n == v.len() || compile::is_comment_start(v, n),
        forall|k: int| i <= k < n ==> !(#[trigger] compile::is_comment_start(v, k)),
    ensures
        compile::comment_start(v, i) == n,
    decreases n - i,
{
    if i < n {
        assert(!compile::is_comment_start(v, i));
        lemma_comment_start(v, i + 1, n);
    }
}

/// A character is found where it first stands.
proof fn lemma_next_of(v: Seq<char>, c: char, i: int, n: int)
    requires
        0 <= i <= n < v.len(),
        v[n] == c,
        forall|k: int| i <= k < n ==> #[trigger] v[k] != c,
    ensures
        compile::next_of(v, c, i) == n,
    decreases n - i,
{
    if i < n {
        lemma_next_of(v, c, i + 1, n);
    }
}

/// A plain id stays when the white space and the marks at its ends are trimmed.
proof fn lemma_plain_trimmed(before: Seq<char>, id: Seq<char>, after: Seq<char>)
    requires
        is_plain(id),
        text::is_all(before, Class::Space),
        text::is_all(after, Class::Space),
    ensures
        text::trimmed(text::trimmed(before + id + after, Class::Space), Class::Quote) == id,
{
    assert(before + id + after =~= before + (id + after));
    text::lemma_trimmed_start(before, id + after, Class::Space);
    assert((id + after)[0] == id[0]);
    text::lemma_trimmed_end(id, after, Class::Space);
}

/// The value on a line that holds a plain id is that id.
proof fn lemma_plain_value(rest: Seq<char>, before: Seq<char>, id: Seq<char>, after: Seq<char>)
    requires
        holds_plain(rest, before, id, after),
    ensures
        compile::plain_value(rest) == id,
{
    let v = text::trimmed(rest, Class::Space);
    assert(rest =~= before + (id + after));
    text::lemma_trimmed_start(before, id + after, Class::Space);
    assert((id + after)[0] == id[0]);
    text::lemma_trimmed_end_stops(id, after, Class::Space);
    assert(v[0] == id[0]);
    let n: int = if text::is_all(after, Class::Space) {
        after.len() as int
    } else {
        lemma_comment(after)
    };
    let blank = after.take(n);
    assert(text::is_all(blank, Class::Space)) by {
        assert forall|i: int| 0 <= i < n implies Class::Space.holds(#[trigger] blank[i]) by {
            if text::is_all(after, Class::Space) {
                assert(blank[i] == after[i]);
            } else {
                assert(Class::Blank.holds(blank[i]));
            }
        }
    }
    let start: int = before.len() + id.len() + n;
    if n < after.len() {
        assert(rest[start] == after[n]);
        assert(rest[start - 1] == blank[n - 1]);
        assert(compile::is_comment_start(rest, start));
    }
    assert forall|k: int| 0 <= k < start implies !(#[trigger] compile::is_comment_start(
        rest,
        k,
    )) by {
        let i = k - before.len();
        if i < 0 {
            assert(rest[k] == before[k]);
        } else if i < id.len() {
            assert(rest[k] == id[i]);
            assert(i > 0 ==> rest[k - 1] == id[i - 1]);
            assert(!compile::is_comment_start(id, i));
        } else {
            assert(rest[k] == blank[i - id.len()]);
        }
    }
    lemma_comment_start(rest, 0, start);
    assert(rest.take(start) =~= before + id + blank);
    lemma_plain_trimmed(before, id, blank);
}

/// The value on a line that holds an id in quotation marks is that id.
proof fn lemma_quoted_value(
    rest: Seq<char>,
    before: Seq<char>,
    mark: char,
    id: Seq<char>,
    after: Seq<char>,
)
    requires
        holds_quoted(rest, before, mark, id, after),
    ensures
        compile::plain_value(rest) == id,
{
    let v = text::trimmed(rest, Class::Space);
    let head = seq![mark] + id + seq![mark];
    assert(rest =~= before + (head + after));
    text::lemma_trimmed_start(before, head + after, Class::Space);
    assert((head + after)[0] == mark);
    text::lemma_trimmed_end_stops(head, after, Class::Space);
    assert(v == head + text::trimmed_end(after, Class::Space));
    let end: int = 1 + id.len() as int;
    assert(v[end] == mark);
    assert forall|k: int| 1 <= k < end implies #[trigger] v[k] != mark by {
        assert(v[k] == id[k - 1]);
    }
    lemma_next_of(v, mark, 1, end);
    assert(v.skip(end + 1) =~= text::trimmed_end(after, Class::Space));
    if text::is_all(after, Class::Space) {
        let none = Seq::<char>::empty();
        assert(none + after =~= after);
        text::lemma_trimmed_end(none, after, Class::Space);
    } else {
        lemma_comment_trimmed(after);
    }
    assert(v.subrange(1, end) =~= id);
}

/// The value on the first id line is what a document declares.
proof fn lemma_declared(s: Seq<char>, p: int, id: Seq<char>)
    requires
        compile::is_first_id_line(s, p),
        id.len() > 0,
        compile::plain_value(s.subrange(p + 3, compile::line_end(s, p + 3))) == id,
    ensures
        compile::id_declared_in(s) == Some(id),
{
    let q = choose|q: int| compile::is_first_id_line(s, q);
    assert(q == p);
}

/// A comment is no part of an id: what the first id line holds before the white space
/// and the comment at its end is the id, and a document that does not compile counts
/// for it.
pub proof fn law_comment_is_no_part_of_id(
    s: Seq<char>,
    p: int,
    before: Seq<char>,
    id: Seq<char>,
    after: Seq<char>,
    outcome: OutcomeView,
)
    requires
        compile::is_first_id_line(s, p),
        holds_plain(s.subrange(p + 3, compile::line_end(s, p + 3)), before, id, after),
        outcome.tree is None,
    ensures
        compile::id_declared_in(s) == Some(id),
        compile::compiled(s, outcome).id == Some(id),
{
    lemma_plain_value(s.subrange(p + 3, compile::line_end(s, p + 3)), before, id, after);
    lemma_declared(s, p, id);
}

/// The quotation marks around an id, and a comment after them, are no part of it.
pub proof fn law_quotes_are_no_part_of_id(
    s: Seq<char>,
    p: int,
    before: Seq<char>,
    mark: char,
    id: Seq<char>,
    after: Seq<char>,
    outcome: OutcomeView,
)
    requires
        compile::is_first_id_line(s, p),
        holds_quoted(s.subrange(p + 3, compile::line_end(s, p + 3)), before, mark, id, after),
        outcome.tree is None,
    ensures
        compile::id_declared_in(s) == Some(id),
        compile::compiled(s, outcome).id == Some(id),
{
    lemma_quoted_value(s.subrange(p + 3, compile::line_end(s, p + 3)), before, mark, id, after);
    lemma_declared(s, p, id);
}

/// The id is what is written: where the first id line holds neither a comment nor a
/// value in quotation marks, the id is what follows the key, without the white space
/// around it and without the quotation marks at its ends. Where nothing is left of it
/// there is none.
pub proof fn law_id_is_what_is_written(s: Seq<char>, p: int)
    requires
        compile::is_first_id_line(s, p),
        ({
            let rest = s.subrange(p + 3, compile::line_end(s, p + 3));
            !has_comment(rest) && !compile::is_quoted(text::trimmed(rest, Class::Space))
        }),
    ensures
        ({
            let rest = s.subrange(p + 3, compile::line_end(s, p + 3));
            let written = text::trimmed(text::trimmed(rest, Class::Space), Class::Quote);
            compile::id_declared_in(s) == (if written.len() == 0 {
                None
            } else {
                Some(written)
            })
        }),
{
    let rest = s.subrange(p + 3, compile::line_end(s, p + 3));
    let q = choose|q: int| compile::is_first_id_line(s, q);
    assert(q == p);
    lemma_line_end(s, p + 3);
    lemma_comment_start(rest, 0, rest.len() as int);
    assert(rest.take(rest.len() as int) =~= rest);
}

/// A line ends within its text.
proof fn lemma_line_end(s: Seq<char>, p: int)
    requires
        0 <= p <= s.len(),
    ensures
        p <= compile::line_end(s, p) <= s.len(),
    decreases s.len() - p,
{
    if p < s.len() && s[p] != '\n' {
        lemma_line_end(s, p + 1);
    }
}

/// Where there is no id line there is no id.
pub proof fn law_no_id_line_no_id(s: Seq<char>)
    requires
        forall|p: int| !(#[trigger] compile::is_id_line(s, p)),
    ensures
        compile::id_declared_in(s) is None,
{
}

/// An id that a document declares is never empty.
pub proof fn law_declared_id_is_not_empty(yaml: Seq<char>)
    ensures
        compile::id_declared_in(yaml) matches Some(id) ==> id.len() > 0,
{
}

/// Whether a document names an id, on its first id line: in quotation marks, or plain
/// with perhaps a comment after it.
pub open spec fn names(s: Seq<char>, id: Seq<char>) -> bool {
    exists|p: int| #[trigger]
        compile::is_first_id_line(s, p) && {
            let rest = s.subrange(p + 3, compile::line_end(s, p + 3));
            ||| exists|before: Seq<char>, after: Seq<char>| holds_plain(rest, before, id, after)
            ||| exists|before: Seq<char>, mark: char, after: Seq<char>|
                holds_quoted(rest, before, mark, id, after)
        }
}

/// Where one file alone declares an id, it is the only one that does.
pub proof fn lemma_only_declaring(files: Seq<SourceFileView>, k: int, id: Seq<char>)
    requires
        0 <= k < files.len(),
        files[k].id() == Some(id),
        forall|j: int| 0 <= j < files.len() && j != k ==> (#[trigger] files[j]).id() != Some(id),
    ensures
        assembly::declaring(files, id) == seq![files[k]],
{
    let pred = |f: SourceFileView| f.id() == Some(id);
    let head = files.take(k);
    let tail = files.skip(k + 1);
    let one = seq![files[k]];
    assert(files =~= head + one + tail);
    Seq::filter_distributes_over_add(head + one, tail, pred);
    Seq::filter_distributes_over_add(head, one, pred);
    assert forall|j: int| 0 <= j < head.len() implies !pred(#[trigger] head[j]) by {
        assert(head[j] == files[j]);
    }
    assert forall|j: int| 0 <= j < tail.len() implies !pred(#[trigger] tail[j]) by {
        assert(tail[j] == files[j + k + 1]);
    }
    lemma_none_filtered(head, pred);
    lemma_none_filtered(tail, pred);
    laws::lemma_filter_one(files[k], pred);
    assert(assembly::declaring(files, id) =~= one);
}

/// A filter that nothing passes leaves nothing.
proof fn lemma_none_filtered(files: Seq<SourceFileView>, pred: spec_fn(SourceFileView) -> bool)
    requires
        forall|j: int| 0 <= j < files.len() ==> !pred(#[trigger] files[j]),
    ensures
        files.filter(pred) == Seq::<SourceFileView>::empty(),
    decreases files.len(),
{
    reveal(Seq::filter);
    if files.len() > 0 {
        let shorter = files.drop_last();
        assert forall|j: int| 0 <= j < shorter.len() implies !pred(#[trigger] shorter[j]) by {
            assert(shorter[j] == files[j]);
        }
        lemma_none_filtered(shorter, pred);
        assert(!pred(files[files.len() - 1]));
    }
}

/// A dashboard that compiled before keeps its last good tree when the file that names
/// it fails, however the file spells the id: plain, with a comment after it, or in
/// quotation marks.
pub proof fn law_named_dashboard_keeps_its_tree(
    s: DashboardsView,
    scan: CompiledScanView,
    k: int,
    id: Seq<char>,
)
    requires
        laws::is_valid(s),
        s.config.enabled,
        s.tree(id) is Ok,
        0 <= k < scan.files.len(),
        scan.files[k].outcome.tree is None,
        names(scan.files[k].text, id),
        forall|j: int|
            0 <= j < scan.files.len() && j != k ==> (#[trigger] scan.files[j]).id() != Some(id),
        laws::is_kept(s, scan, id),
    ensures
        s.after(Some(scan)).tree(id) == s.tree(id),
        s.after(Some(scan)).entries[id].status == Status::Stale,
{
    let f = scan.files[k];
    let p = choose|p: int| #[trigger]
        compile::is_first_id_line(f.text, p) && {
            let rest = f.text.subrange(p + 3, compile::line_end(f.text, p + 3));
            ||| exists|before: Seq<char>, after: Seq<char>| holds_plain(rest, before, id, after)
            ||| exists|before: Seq<char>, mark: char, after: Seq<char>|
                holds_quoted(rest, before, mark, id, after)
        };
    let rest = f.text.subrange(p + 3, compile::line_end(f.text, p + 3));
    if exists|before: Seq<char>, after: Seq<char>| holds_plain(rest, before, id, after) {
        let (before, after) = choose|before: Seq<char>, after: Seq<char>|
            holds_plain(rest, before, id, after);
        law_comment_is_no_part_of_id(f.text, p, before, id, after, f.outcome);
    } else {
        let (before, mark, after) = choose|before: Seq<char>, mark: char, after: Seq<char>|
            holds_quoted(rest, before, mark, id, after);
        law_quotes_are_no_part_of_id(f.text, p, before, mark, id, after, f.outcome);
    }
    lemma_only_declaring(scan.files, k, id);
    laws::law_last_good_tree_is_kept(s, scan, id);
}

/// Whether a text is the given line of a document, with all before and after it: the
/// line starts with `id:`, no line before it does, and `rest` is what follows the key.
pub open spec fn is_id_text(
    s: Seq<char>,
    head: Seq<char>,
    rest: Seq<char>,
    tail: Seq<char>,
) -> bool {
    &&& s == head + "id:"@ + rest + tail
    &&& head.len() > 0 ==> head.last() == '\n'
    &&& forall|q: int|
        0 <= q < head.len() && (q == 0 || s[q - 1] == '\n') ==> #[trigger] s.subrange(q, q + 3)
            != "id:"@
    &&& !rest.contains('\n')
    &&& tail.len() > 0 ==> tail[0] == '\n'
}

/// Whether a text is white space and nothing else.
pub open spec fn is_white(s: Seq<char>) -> bool {
    forall|i: int| 0 <= i < s.len() ==> text::is_space(#[trigger] s[i])
}

/// Whether a text is spaces and tabs, at least one, a number sign, and anything.
pub open spec fn is_remark(s: Seq<char>) -> bool {
    exists|n: int|
        0 < n < s.len() && #[trigger] s[n] == '#' && forall|i: int|
            0 <= i < n ==> s[i] == ' ' || s[i] == '\t'
}

/// Whether a text is all marks of the two kinds.
pub open spec fn is_marks(s: Seq<char>) -> bool {
    forall|i: int| 0 <= i < s.len() ==> #[trigger] s[i] == '"' || s[i] == '\''
}

/// Whether the rest of an id line is an id in a pair of equal marks, with nothing but
/// white space or a remark after it.
pub open spec fn is_enclosed(
    rest: Seq<char>,
    before: Seq<char>,
    mark: char,
    id: Seq<char>,
    after: Seq<char>,
) -> bool {
    &&& rest == before + seq![mark] + id + seq![mark] + after
    &&& is_white(before)
    &&& mark == '"' || mark == '\''
    &&& id.len() > 0
    &&& !id.contains(mark)
    &&& is_white(after) || is_remark(after)
}

/// Whether a remark starts at a position of the rest of an id line.
pub open spec fn is_remark_at(rest: Seq<char>, i: int) -> bool {
    0 < i < rest.len() && rest[i] == '#' && (rest[i - 1] == ' ' || rest[i - 1] == '\t')
}

/// Whether the rest of an id line, up to its first remark, is an id with marks and white
/// space at its ends.
pub open spec fn is_bare(
    rest: Seq<char>,
    before: Seq<char>,
    left: Seq<char>,
    id: Seq<char>,
    right: Seq<char>,
    after: Seq<char>,
) -> bool {
    let value = left + id + right;
    let said = before + value + after;
    &&& said.is_prefix_of(rest)
    &&& said.len() < rest.len() ==> is_remark_at(rest, said.len() as int)
    &&& forall|i: int| 0 <= i < said.len() ==> !(#[trigger] is_remark_at(rest, i))
    &&& is_white(before) && is_white(after)
    &&& is_marks(left) && is_marks(right)
    &&& value.len() > 0 ==> !text::is_space(value[0]) && !text::is_space(value.last())
    &&& id.len() > 0 ==> !is_marks(seq![id[0]]) && !is_marks(seq![id.last()])
}

/// A document with an id line has it where the text has it.
proof fn lemma_id_text(s: Seq<char>, head: Seq<char>, rest: Seq<char>, tail: Seq<char>)
    requires
        is_id_text(s, head, rest, tail),
    ensures
        ({
            let p = head.len() as int;
            &&& compile::is_first_id_line(s, p)
            &&& s.subrange(p + 3, compile::line_end(s, p + 3)) == rest
        }),
{
    let p = head.len() as int;
    reveal_strlit("id:");
    assert(s.subrange(p, p + 3) =~= "id:"@);
    assert(s[p] == s.subrange(p, p + 3)[0]);
    assert(s[p + 1] == s.subrange(p, p + 3)[1]);
    assert(s[p + 2] == s.subrange(p, p + 3)[2]);
    assert(p > 0 ==> s[p - 1] == head.last());
    assert(compile::is_id_line(s, p));
    assert forall|q: int| 0 <= q < p implies !compile::is_id_line(s, q) by {
        if compile::is_id_line(s, q) {
            assert(s.subrange(q, q + 3) =~= "id:"@);
        }
    }
    assert forall|i: int| p + 3 <= i < p + 3 + rest.len() implies #[trigger] s[i] != '\n' by {
        assert(s[i] == rest[i - p - 3]);
    }
    if tail.len() > 0 {
        assert(s[p + 3 + rest.len()] == tail[0]);
    }
    lemma_line_ends(s, p + 3, p + 3 + rest.len());
    assert(s.subrange(p + 3, p + 3 + rest.len()) =~= rest);
}

/// A line ends at its first line feed.
proof fn lemma_line_ends(s: Seq<char>, p: int, end: int)
    requires
        0 <= p <= end <= s.len(),
        end < s.len() ==> s[end] == '\n',
        forall|i: int| p <= i < end ==> #[trigger] s[i] != '\n',
    ensures
        compile::line_end(s, p) == end,
    decreases end - p,
{
    if p < end {
        lemma_line_ends(s, p + 1, end);
    }
}

/// A remark is a comment.
proof fn lemma_remark(s: Seq<char>)
    ensures
        is_remark(s) <==> compile::is_comment(s),
{
    if is_remark(s) {
        let n = choose|n: int|
            0 < n < s.len() && #[trigger] s[n] == '#' && forall|i: int|
                0 <= i < n ==> s[i] == ' ' || s[i] == '\t';
        let blank = s.take(n);
        assert(s =~= blank + s.skip(n));
        assert forall|i: int| 0 <= i < blank.len() implies Class::Blank.holds(
            #[trigger] blank[i],
        ) by {
            assert(blank[i] == s[i]);
        }
        text::lemma_trimmed_start(blank, s.skip(n), Class::Blank);
        assert(s.skip(n)[0] == s[n]);
    }
    if compile::is_comment(s) {
        let n = lemma_comment(s);
        assert forall|i: int| 0 <= i < n implies s[i] == ' ' || s[i] == '\t' by {
            assert(s.take(n)[i] == s[i]);
            assert(Class::Blank.holds(s.take(n)[i]));
        }
    }
}

/// The id that a document declares is the one that stands in marks on the first line of
/// its text that starts with `id:`, wherever in the text that line is.
pub proof fn law_enclosed_id_is_declared(
    s: Seq<char>,
    head: Seq<char>,
    rest: Seq<char>,
    tail: Seq<char>,
    before: Seq<char>,
    mark: char,
    id: Seq<char>,
    after: Seq<char>,
)
    requires
        is_id_text(s, head, rest, tail),
        is_enclosed(rest, before, mark, id, after),
    ensures
        compile::id_declared_in(s) == Some(id),
{
    lemma_id_text(s, head, rest, tail);
    lemma_remark(after);
    assert(text::is_all(before, Class::Space));
    assert(is_white(after) ==> text::is_all(after, Class::Space));
    assert(holds_quoted(rest, before, mark, id, after));
    lemma_quoted_value(rest, before, mark, id, after);
    lemma_declared(s, head.len() as int, id);
}

/// Where a value counts as quoted, its line holds an id in a pair of equal marks.
proof fn lemma_quoted_is_enclosed(rest: Seq<char>)
    requires
        compile::is_quoted(text::trimmed(rest, Class::Space)),
    ensures
        exists|before: Seq<char>, mark: char, id: Seq<char>, after: Seq<char>|
            is_enclosed(rest, before, mark, id, after),
{
    let v = text::trimmed(rest, Class::Space);
    let n = text::lemma_trimmed_start_rest(rest, Class::Space);
    let before = rest.take(n);
    let m = lemma_trimmed_end_rest(rest.skip(n), Class::Space);
    let white = rest.skip(n).skip(m);
    assert(v == rest.skip(n).take(m));
    assert(rest =~= before + v + white);
    let mark = v[0];
    let end = compile::next_of(v, mark, 1);
    lemma_next_of_first(v, mark, 1);
    let id = v.subrange(1, end);
    let after = v.skip(end + 1) + white;
    assert(v =~= seq![mark] + id + seq![mark] + v.skip(end + 1));
    assert(rest =~= before + seq![mark] + id + seq![mark] + after);
    assert(!id.contains(mark)) by {
        if id.contains(mark) {
            let i = choose|i: int| 0 <= i < id.len() && id[i] == mark;
            assert(v[i + 1] == id[i]);
        }
    }
    assert(is_white(before)) by {
        assert(text::is_all(before, Class::Space));
    }
    if end + 1 == v.len() {
        assert(after =~= white);
        assert(is_white(after)) by {
            assert(text::is_all(white, Class::Space));
        }
    } else {
        let t = v.skip(end + 1);
        lemma_remark(t);
        let k = choose|k: int|
            0 < k < t.len() && #[trigger] t[k] == '#' && forall|i: int|
                0 <= i < k ==> t[i] == ' ' || t[i] == '\t';
        assert(after[k] == '#');
        assert forall|i: int| 0 <= i < k implies after[i] == ' ' || after[i] == '\t' by {
            assert(after[i] == t[i]);
        }
        assert(is_remark(after));
    }
    assert(is_enclosed(rest, before, mark, id, after));
}

/// A character is found where it first stands, if it does.
proof fn lemma_next_of_first(v: Seq<char>, c: char, i: int)
    requires
        0 <= i <= v.len(),
    ensures
        ({
            let n = compile::next_of(v, c, i);
            &&& i <= n <= v.len()
            &&& n < v.len() ==> v[n] == c
            &&& forall|k: int| i <= k < n ==> #[trigger] v[k] != c
        }),
    decreases v.len() - i,
{
    if i < v.len() && v[i] != c {
        lemma_next_of_first(v, c, i + 1);
    }
}

/// What is cut off the end of a text is all of a kind.
proof fn lemma_trimmed_end_rest(s: Seq<char>, class: Class) -> (n: int)
    ensures
        0 <= n <= s.len(),
        text::is_all(s.skip(n), class),
        text::trimmed_end(s, class) == s.take(n),
    decreases s.len(),
{
    if s.len() > 0 && class.holds(s.last()) {
        let n = lemma_trimmed_end_rest(s.drop_last(), class);
        assert(s.take(n) =~= s.drop_last().take(n));
        assert forall|i: int| 0 <= i < s.skip(n).len() implies class.holds(
            #[trigger] s.skip(n)[i],
        ) by {
            if i < s.len() - n - 1 {
                assert(s.skip(n)[i] == s.drop_last().skip(n)[i]);
            }
        }
        n
    } else {
        assert(s.take(s.len() as int) =~= s);
        s.len() as int
    }
}

/// The id that a document declares is what stands on the first line of its text that
/// starts with `id:`, wherever in the text that line is: up to a remark, and without the
/// white space and the marks at its ends. Where nothing is left the document declares
/// none.
pub proof fn law_bare_id_is_declared(
    s: Seq<char>,
    head: Seq<char>,
    rest: Seq<char>,
    tail: Seq<char>,
    before: Seq<char>,
    left: Seq<char>,
    id: Seq<char>,
    right: Seq<char>,
    after: Seq<char>,
)
    requires
        is_id_text(s, head, rest, tail),
        is_bare(rest, before, left, id, right, after),
        forall|b: Seq<char>, mark: char, other: Seq<char>, a: Seq<char>|
            !(#[trigger] is_enclosed(rest, b, mark, other, a)),
    ensures
        compile::id_declared_in(s) == (if id.len() == 0 {
            None
        } else {
            Some(id)
        }),
{
    let value = left + id + right;
    let said = before + value + after;
    let n = said.len() as int;
    lemma_id_text(s, head, rest, tail);
    if compile::is_quoted(text::trimmed(rest, Class::Space)) {
        lemma_quoted_is_enclosed(rest);
    }
    assert forall|k: int| 0 <= k < n implies !(#[trigger] compile::is_comment_start(rest, k)) by {
        assert(!is_remark_at(rest, k));
    }
    if n < rest.len() {
        assert(compile::is_comment_start(rest, n));
    }
    lemma_comment_start(rest, 0, n);
    assert(rest.take(n) =~= said);
    text_laws::law_trimming_takes_the_ends_off(before, value, after, Class::Space);
    if id.len() > 0 {
        assert(seq![id[0]][0] == id[0]);
        assert(seq![id.last()][0] == id.last());
    }
    text_laws::law_trimming_takes_the_ends_off(left, id, right, Class::Quote);
    let q = choose|q: int| compile::is_first_id_line(s, q);
    assert(q == head.len());
}

/// What is left of a text once its ends are trimmed, and what was before and after it.
proof fn lemma_ends(s: Seq<char>, class: Class) -> (r: (Seq<char>, Seq<char>))
    ensures
        s == r.0 + text::trimmed(s, class) + r.1,
        text::is_all(r.0, class),
        text::is_all(r.1, class),
        text::trimmed(s, class).len() > 0 ==> !class.holds(text::trimmed(s, class)[0])
            && !class.holds(text::trimmed(s, class).last()),
{
    let n = text::lemma_trimmed_start_rest(s, class);
    let rest = s.skip(n);
    let m = lemma_trimmed_end_rest(rest, class);
    lemma_start_is_clean(s, class);
    lemma_end_is_clean(rest, class);
    if m > 0 {
        assert(rest.take(m)[0] == rest[0]);
    }
    assert(s =~= s.take(n) + rest.take(m) + rest.skip(m));
    (s.take(n), rest.skip(m))
}

/// A text that was trimmed at its start does not start with what was cut off.
proof fn lemma_start_is_clean(s: Seq<char>, class: Class)
    ensures
        text::trimmed_start(s, class).len() > 0 ==> !class.holds(text::trimmed_start(s, class)[0]),
    decreases s.len(),
{
    if s.len() > 0 && class.holds(s[0]) {
        lemma_start_is_clean(s.drop_first(), class);
    }
}

/// A text that was trimmed at its end does not end with what was cut off.
proof fn lemma_end_is_clean(s: Seq<char>, class: Class)
    ensures
        text::trimmed_end(s, class).len() > 0 ==> !class.holds(
            text::trimmed_end(s, class).last(),
        ),
    decreases s.len(),
{
    if s.len() > 0 && class.holds(s.last()) {
        lemma_end_is_clean(s.drop_last(), class);
    }
}

/// The first comment is found, if there is one.
proof fn lemma_comment_start_first(s: Seq<char>, i: int)
    requires
        0 <= i <= s.len(),
    ensures
        ({
            let n = compile::comment_start(s, i);
            &&& i <= n <= s.len()
            &&& n < s.len() ==> compile::is_comment_start(s, n)
            &&& forall|k: int| i <= k < n ==> !(#[trigger] compile::is_comment_start(s, k))
        }),
    decreases s.len() - i,
{
    if i < s.len() && !compile::is_comment_start(s, i) {
        lemma_comment_start_first(s, i + 1);
    }
}

/// Whatever follows the key on an id line, it is an id, or nothing, with marks and white
/// space at its ends, up to a remark: no line is left undecided.
pub proof fn law_each_id_line_can_be_read(rest: Seq<char>)
    ensures
        exists|
            before: Seq<char>,
            left: Seq<char>,
            id: Seq<char>,
            right: Seq<char>,
            after: Seq<char>,
        |
            is_bare(rest, before, left, id, right, after),
{
    let n = compile::comment_start(rest, 0);
    lemma_comment_start_first(rest, 0);
    let said = rest.take(n);
    let (before, after) = lemma_ends(said, Class::Space);
    let value = text::trimmed(said, Class::Space);
    let (left, right) = lemma_ends(value, Class::Quote);
    let id = text::trimmed(value, Class::Quote);
    assert(before + (left + id + right) + after =~= said);
    assert forall|i: int| 0 <= i < said.len() implies !(#[trigger] is_remark_at(rest, i)) by {
        assert(!compile::is_comment_start(rest, i));
    }
    assert(is_white(before) && is_white(after));
    assert(is_marks(left) && is_marks(right)) by {
        assert forall|i: int| 0 <= i < left.len() implies #[trigger] left[i] == '"' || left[i]
            == '\'' by {
            assert(Class::Quote.holds(left[i]));
        }
        assert forall|i: int| 0 <= i < right.len() implies #[trigger] right[i] == '"' || right[i]
            == '\'' by {
            assert(Class::Quote.holds(right[i]));
        }
    }
    if id.len() > 0 {
        assert(seq![id[0]][0] == id[0]);
        assert(seq![id.last()][0] == id.last());
    }
    assert(is_bare(rest, before, left, id, right, after));
}

/// A text of which no line starts with `id:` declares no id.
pub proof fn law_no_line_no_id(s: Seq<char>)
    requires
        forall|p: int|
            0 <= p <= s.len() - 3 && (p == 0 || s[p - 1] == '\n') ==> #[trigger] s.subrange(
                p,
                p + 3,
            ) != "id:"@,
    ensures
        compile::id_declared_in(s) is None,
{
    reveal_strlit("id:");
    assert forall|p: int| !(#[trigger] compile::is_id_line(s, p)) by {
        if compile::is_id_line(s, p) {
            assert(s.subrange(p, p + 3) =~= "id:"@);
        }
    }
}

/// A file whose document compiled is named by its tree, whatever its text says and
/// whatever remarks stand beside the tree; one that did not is named by its text. The
/// tree is handed on as it is.
pub proof fn law_a_tree_names_its_file(f: SourceFileView)
    ensures
        f.outcome.tree is Some ==> f.id() == Some(f.outcome.tree->0.id),
        f.outcome.tree is None ==> f.id() == compile::id_declared_in(f.text),
        f.compiled().tree == f.outcome.tree,
{
}

/// The errors among remarks are those that are errors, each of them, in their order:
/// more remarks add their errors, a warning adds nothing.
pub proof fn law_errors_are_kept_one_by_one(
    a: Seq<DiagnosticView>,
    b: Seq<DiagnosticView>,
    d: DiagnosticView,
    yaml: Seq<char>,
    outcome: OutcomeView,
)
    ensures
        compile::errors(a + b) == compile::errors(a) + compile::errors(b),
        d.error ==> compile::errors(seq![d]) == seq![d],
        !d.error ==> compile::errors(seq![d]).len() == 0,
        compile::compiled(yaml, outcome).diagnostics == compile::errors(outcome.diagnostics),
{
    Seq::filter_distributes_over_add(a, b, |d: DiagnosticView| d.error);
    reveal(Seq::filter);
    let one = seq![d];
    assert(one.drop_last() =~= Seq::<DiagnosticView>::empty());
    assert(compile::errors(one.drop_last()) =~= Seq::<DiagnosticView>::empty());
    assert(compile::errors(one) =~= if d.error {
        one
    } else {
        Seq::empty()
    });
}

} // verus!
