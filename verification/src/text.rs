//! Text and names: their order, and the pieces that settings and documents are
//! cut into.

use vstd::prelude::*;
use vstd::string::*;

verus! {

/// The dictionary order of byte strings: the first byte in which two differ
/// decides, and a proper prefix comes before what it is a prefix of.
pub open spec fn bytes_before(a: Seq<u8>, b: Seq<u8>) -> bool
    decreases a.len(),
{
    if b.len() == 0 {
        false
    } else if a.len() == 0 {
        true
    } else if a[0] != b[0] {
        a[0] < b[0]
    } else {
        bytes_before(a.drop_first(), b.drop_first())
    }
}

/// The order of strings: that of their bytes in UTF-8.
pub open spec fn str_before(a: Seq<char>, b: Seq<char>) -> bool {
    bytes_before(vstd::utf8::encode_utf8(a), vstd::utf8::encode_utf8(b))
}

/// Nothing comes before itself.
pub proof fn lemma_bytes_before_irreflexive(a: Seq<u8>)
    ensures
        !bytes_before(a, a),
    decreases a.len(),
{
    if a.len() > 0 {
        lemma_bytes_before_irreflexive(a.drop_first());
    }
}

/// What comes before a thing comes before all that the thing comes before.
pub proof fn lemma_bytes_before_transitive(a: Seq<u8>, b: Seq<u8>, c: Seq<u8>)
    requires
        bytes_before(a, b),
        bytes_before(b, c),
    ensures
        bytes_before(a, c),
    decreases a.len(),
{
    if a.len() > 0 && a[0] == b[0] && b[0] == c[0] {
        lemma_bytes_before_transitive(a.drop_first(), b.drop_first(), c.drop_first());
    }
}

/// Of two different byte strings one comes before the other.
pub proof fn lemma_bytes_before_total(a: Seq<u8>, b: Seq<u8>)
    ensures
        a == b || bytes_before(a, b) || bytes_before(b, a),
    decreases a.len(),
{
    if a.len() > 0 && b.len() > 0 {
        if a[0] == b[0] {
            lemma_bytes_before_total(a.drop_first(), b.drop_first());
            if a.drop_first() == b.drop_first() {
                assert(a =~= seq![a[0]] + a.drop_first());
                assert(b =~= seq![b[0]] + b.drop_first());
            }
        }
    } else if a.len() == 0 && b.len() == 0 {
        assert(a =~= b);
    }
}

/// No string comes before itself.
pub proof fn lemma_str_before_irreflexive(a: Seq<char>)
    ensures
        !str_before(a, a),
{
    lemma_bytes_before_irreflexive(vstd::utf8::encode_utf8(a));
}

/// The order of strings is transitive.
pub proof fn lemma_str_before_transitive(a: Seq<char>, b: Seq<char>, c: Seq<char>)
    requires
        str_before(a, b),
        str_before(b, c),
    ensures
        str_before(a, c),
{
    lemma_bytes_before_transitive(
        vstd::utf8::encode_utf8(a),
        vstd::utf8::encode_utf8(b),
        vstd::utf8::encode_utf8(c),
    );
}

/// Of two different strings one comes before the other.
pub proof fn lemma_str_before_total(a: Seq<char>, b: Seq<char>)
    ensures
        a == b || str_before(a, b) || str_before(b, a),
{
    lemma_bytes_before_total(vstd::utf8::encode_utf8(a), vstd::utf8::encode_utf8(b));
    vstd::utf8::encode_utf8_decode_utf8(a);
    vstd::utf8::encode_utf8_decode_utf8(b);
}

/// Whether the first byte string comes before the second.
pub fn is_bytes_before(a: &[u8], b: &[u8]) -> (r: bool)
    ensures
        r == bytes_before(a@, b@),
{
    let mut i: usize = 0;
    assert(a@.skip(0) =~= a@);
    assert(b@.skip(0) =~= b@);
    while i < a.len() && i < b.len()
        invariant
            i <= a.len(),
            i <= b.len(),
            bytes_before(a@, b@) == bytes_before(a@.skip(i as int), b@.skip(i as int)),
        decreases a.len() - i,
    {
        if a[i] != b[i] {
            return a[i] < b[i];
        }
        assert(a@.skip(i as int).drop_first() =~= a@.skip(i + 1));
        assert(b@.skip(i as int).drop_first() =~= b@.skip(i + 1));
        i = i + 1;
    }
    i < b.len()
}

/// Whether the first string comes before the second.
pub fn is_str_before(a: &str, b: &str) -> (r: bool)
    ensures
        r == str_before(a@, b@),
{
    is_bytes_before(a.as_bytes(), b.as_bytes())
}

/// Whether two strings are the same.
pub fn is_same(a: &str, b: &str) -> (r: bool)
    ensures
        r == (a@ == b@),
{
    proof {
        vstd::utf8::encode_utf8_decode_utf8(a@);
        vstd::utf8::encode_utf8_decode_utf8(b@);
    }
    let x = a.as_bytes();
    let y = b.as_bytes();
    if x.len() != y.len() {
        return false;
    }
    let mut i: usize = 0;
    while i < x.len()
        invariant
            i <= x.len(),
            x.len() == y.len(),
            x@ == vstd::utf8::encode_utf8(a@),
            y@ == vstd::utf8::encode_utf8(b@),
            forall|k: int| 0 <= k < i ==> x@[k] == y@[k],
        decreases x.len() - i,
    {
        if x[i] != y[i] {
            return false;
        }
        i = i + 1;
    }
    assert(x@ =~= y@);
    true
}

/// The characters of a string.
pub fn chars_of(s: &str) -> (v: Vec<char>)
    ensures
        v@ == s@,
{
    let mut v: Vec<char> = Vec::new();
    for c in it: s.chars()
        invariant
            v@ == it.seq().take(it.index()),
            it.seq() == s@,
    {
        v.push(c);
    }
    v
}

/// A kind of character that is cut off the ends of a text.
#[derive(Debug, Clone, Copy, PartialEq, Eq, Structural)]
pub enum Class {
    /// White space, as Unicode has it.
    Space,
    /// The white space that may part a comment from a value: a space or a tab.
    Blank,
    /// A single or a double quotation mark.
    Quote,
}

/// Whether a character has Unicode's White_Space property.
pub open spec fn is_space(c: char) -> bool {
    ||| '\u{9}' <= c <= '\u{d}'
    ||| c == ' '
    ||| c == '\u{85}'
    ||| c == '\u{a0}'
    ||| c == '\u{1680}'
    ||| '\u{2000}' <= c <= '\u{200a}'
    ||| c == '\u{2028}'
    ||| c == '\u{2029}'
    ||| c == '\u{202f}'
    ||| c == '\u{205f}'
    ||| c == '\u{3000}'
}

impl Class {
    /// Whether a character is of this kind.
    pub open spec fn holds(self, c: char) -> bool {
        match self {
            Class::Space => is_space(c),
            Class::Blank => c == ' ' || c == '\t',
            Class::Quote => c == '"' || c == '\'',
        }
    }

    /// Whether a character is of this kind.
    pub fn contains(self, c: char) -> (r: bool)
        ensures
            r == self.holds(c),
    {
        match self {
            Class::Space => {
                ('\u{9}' <= c && c <= '\u{d}') || c == ' ' || c == '\u{85}' || c == '\u{a0}' || c
                    == '\u{1680}' || ('\u{2000}' <= c && c <= '\u{200a}') || c == '\u{2028}' || c
                    == '\u{2029}' || c == '\u{202f}' || c == '\u{205f}' || c == '\u{3000}'
            },
            Class::Blank => c == ' ' || c == '\t',
            Class::Quote => c == '"' || c == '\'',
        }
    }
}

/// A text without the characters of a kind that it starts with.
pub open spec fn trimmed_start(s: Seq<char>, class: Class) -> Seq<char>
    decreases s.len(),
{
    if s.len() > 0 && class.holds(s[0]) {
        trimmed_start(s.drop_first(), class)
    } else {
        s
    }
}

/// A text without the characters of a kind that it ends with.
pub open spec fn trimmed_end(s: Seq<char>, class: Class) -> Seq<char>
    decreases s.len(),
{
    if s.len() > 0 && class.holds(s.last()) {
        trimmed_end(s.drop_last(), class)
    } else {
        s
    }
}

/// A text without the characters of a kind at both of its ends.
pub open spec fn trimmed(s: Seq<char>, class: Class) -> Seq<char> {
    trimmed_end(trimmed_start(s, class), class)
}

/// Whether all of a text is of a kind.
pub open spec fn is_all(s: Seq<char>, class: Class) -> bool {
    forall|i: int| 0 <= i < s.len() ==> class.holds(#[trigger] s[i])
}

/// What is cut off the start of a text is all of a kind.
pub proof fn lemma_trimmed_start_rest(s: Seq<char>, class: Class) -> (n: int)
    ensures
        0 <= n <= s.len(),
        is_all(s.take(n), class),
        trimmed_start(s, class) == s.skip(n),
    decreases s.len(),
{
    if s.len() > 0 && class.holds(s[0]) {
        let n = 1 + lemma_trimmed_start_rest(s.drop_first(), class);
        assert(s.skip(n) =~= s.drop_first().skip(n - 1));
        assert forall|i: int| 0 <= i < n implies class.holds(#[trigger] s.take(n)[i]) by {
            if i > 0 {
                assert(s.take(n)[i] == s.drop_first().take(n - 1)[i - 1]);
            }
        }
        n
    } else {
        assert(s.skip(0) =~= s);
        0
    }
}

/// What is of a kind is cut off the start of a text.
pub proof fn lemma_trimmed_start(before: Seq<char>, s: Seq<char>, class: Class)
    requires
        is_all(before, class),
    ensures
        trimmed_start(before + s, class) == trimmed_start(s, class),
    decreases before.len(),
{
    if before.len() == 0 {
        assert(before + s =~= s);
    } else {
        assert((before + s)[0] == before[0]);
        assert((before + s).drop_first() =~= before.drop_first() + s);
        lemma_trimmed_start(before.drop_first(), s, class);
    }
}

/// What is of a kind is cut off the end of a text.
pub proof fn lemma_trimmed_end(s: Seq<char>, after: Seq<char>, class: Class)
    requires
        is_all(after, class),
    ensures
        trimmed_end(s + after, class) == trimmed_end(s, class),
    decreases after.len(),
{
    if after.len() == 0 {
        assert(s + after =~= s);
    } else {
        assert((s + after).last() == after[after.len() - 1]);
        assert((s + after).drop_last() =~= s + after.drop_last());
        lemma_trimmed_end(s, after.drop_last(), class);
    }
}

/// Nothing is cut off a text before the last character that is not of the kind.
pub proof fn lemma_trimmed_end_stops(s: Seq<char>, after: Seq<char>, class: Class)
    requires
        s.len() > 0,
        !class.holds(s.last()),
    ensures
        trimmed_end(s + after, class) == s + trimmed_end(after, class),
    decreases after.len(),
{
    if after.len() == 0 {
        assert(s + after =~= s);
        assert(s + trimmed_end(after, class) =~= s);
    } else {
        assert((s + after).last() == after.last());
        assert((s + after).drop_last() =~= s + after.drop_last());
        lemma_trimmed_end_stops(s, after.drop_last(), class);
    }
}

/// Where the stretch `from..to` of a text starts and ends once the characters of
/// a kind are cut off both of its ends.
pub fn trim_range(chars: &[char], from: usize, to: usize, class: Class) -> (r: (usize, usize))
    requires
        from <= to <= chars.len(),
    ensures
        from <= r.0 <= r.1 <= to,
        chars@.subrange(r.0 as int, r.1 as int) == trimmed(
            chars@.subrange(from as int, to as int),
            class,
        ),
{
    let ghost whole = chars@.subrange(from as int, to as int);
    let mut start: usize = from;
    while start < to && class.contains(chars[start])
        invariant
            from <= start <= to <= chars.len(),
            trimmed_start(whole, class) == trimmed_start(
                chars@.subrange(start as int, to as int),
                class,
            ),
        decreases to - start,
    {
        assert(chars@.subrange(start as int, to as int).drop_first() =~= chars@.subrange(
            start + 1,
            to as int,
        ));
        start = start + 1;
    }
    let mut end: usize = to;
    while start < end && class.contains(chars[end - 1])
        invariant
            from <= start <= end <= to <= chars.len(),
            trimmed(whole, class) == trimmed_end(
                chars@.subrange(start as int, end as int),
                class,
            ),
        decreases end - start,
    {
        assert(chars@.subrange(start as int, end as int).drop_last() =~= chars@.subrange(
            start as int,
            end - 1,
        ));
        end = end - 1;
    }
    (start, end)
}

/// The fields of a list whose separator is a comma. A list with no comma is one
/// field.
pub open spec fn fields(s: Seq<char>) -> Seq<Seq<char>>
    decreases s.len(),
{
    if s.len() == 0 {
        seq![Seq::<char>::empty()]
    } else {
        let before = fields(s.drop_last());
        if s.last() == ',' {
            before.push(Seq::<char>::empty())
        } else {
            before.drop_last().push(before.last().push(s.last()))
        }
    }
}

/// The names in a comma-separated list: its fields without the white space around
/// them, and without those that are then empty.
pub open spec fn listed_names(s: Seq<char>) -> Seq<Seq<char>> {
    names_in(fields(s))
}

/// The fields that hold more than white space, without the white space around them.
pub open spec fn names_in(f: Seq<Seq<char>>) -> Seq<Seq<char>>
    decreases f.len(),
{
    if f.len() == 0 {
        Seq::empty()
    } else {
        let before = names_in(f.drop_last());
        let name = trimmed(f.last(), Class::Space);
        if name.len() == 0 {
            before
        } else {
            before.push(name)
        }
    }
}

/// What each item of a sequence stands for.
pub open spec fn views<T: View>(s: Seq<T>) -> Seq<T::V> {
    Seq::new(s.len(), |i: int| s[i]@)
}

/// The names in a comma-separated list.
pub fn names(list: &str) -> (r: Vec<String>)
    ensures
        views(r@) == listed_names(list@),
{
    let chars = chars_of(list);
    let mut r: Vec<String> = Vec::new();
    let mut start: usize = 0;
    let mut i: usize = 0;
    let ghost mut done: Seq<Seq<char>> = Seq::empty();
    proof {
        assert(list@.take(0) =~= Seq::<char>::empty());
        assert(done.push(list@.subrange(0, 0)) =~= seq![Seq::<char>::empty()]);
        assert(views(r@) =~= names_in(done));
    }
    while i < chars.len()
        invariant
            chars@ == list@,
            start <= i <= chars.len(),
            fields(list@.take(i as int)) == done.push(list@.subrange(start as int, i as int)),
            views(r@) == names_in(done),
        decreases chars.len() - i,
    {
        let ghost before = fields(list@.take(i as int));
        let ghost field = list@.subrange(start as int, i as int);
        assert(list@.take(i + 1).drop_last() =~= list@.take(i as int));
        assert(before.drop_last() =~= done);
        if chars[i] == ',' {
            push_name(&mut r, list, &chars, start, i);
            proof {
                done = done.push(field);
                assert(done.drop_last() =~= before.drop_last());
                assert(list@.subrange(i + 1, i + 1) =~= Seq::<char>::empty());
            }
            start = i + 1;
        } else {
            assert(field.push(chars@[i as int]) =~= list@.subrange(start as int, i + 1));
        }
        i = i + 1;
    }
    assert(list@.take(i as int) =~= list@);
    push_name(&mut r, list, &chars, start, i);
    assert(done.push(list@.subrange(start as int, i as int)).drop_last() =~= done);
    r
}

/// Appends the name that a field holds, if it holds one.
fn push_name(r: &mut Vec<String>, list: &str, chars: &[char], start: usize, end: usize)
    requires
        chars@ == list@,
        start <= end <= chars.len(),
    ensures
        ({
            let name = trimmed(list@.subrange(start as int, end as int), Class::Space);
            views(final(r)@) == (if name.len() == 0 {
                views(old(r)@)
            } else {
                views(old(r)@).push(name)
            })
        }),
{
    let (from, to) = trim_range(chars, start, end, Class::Space);
    if from < to {
        let name = list.substring_char(from, to).to_owned();
        r.push(name);
        assert(views(r@) =~= views(old(r)@).push(name@));
    }
}

/// Names one after the other, a separator between them.
pub open spec fn joined(names: Seq<Seq<char>>, separator: Seq<char>) -> Seq<char>
    decreases names.len(),
{
    if names.len() == 0 {
        Seq::empty()
    } else if names.len() == 1 {
        names[0]
    } else {
        joined(names.drop_last(), separator) + separator + names.last()
    }
}

/// Appends names to a text, a separator between them.
pub fn append_joined(text: String, names: &Vec<String>, separator: &str) -> (r: String)
    ensures
        r@ == text@ + joined(views(names@), separator@),
{
    let ghost all = views(names@);
    let mut r = text;
    let mut i: usize = 0;
    assert(all.take(0) =~= Seq::<Seq<char>>::empty());
    assert(text@ + Seq::<char>::empty() =~= text@);
    while i < names.len()
        invariant
            i <= names.len(),
            all == views(names@),
            r@ == text@ + joined(all.take(i as int), separator@),
        decreases names.len() - i,
    {
        let ghost longer = all.take(i + 1);
        assert(longer.drop_last() =~= all.take(i as int));
        if i > 0 {
            r.append(separator);
        }
        r.append(names[i].as_str());
        assert(r@ =~= text@ + joined(longer, separator@));
        i = i + 1;
    }
    assert(all.take(i as int) =~= all);
    r
}

/// Whether a text is one or more decimal digits.
pub open spec fn is_number(s: Seq<char>) -> bool {
    &&& s.len() > 0
    &&& forall|i: int| 0 <= i < s.len() ==> '0' <= #[trigger] s[i] <= '9'
}

/// The number that decimal digits write.
pub open spec fn number(s: Seq<char>) -> nat
    decreases s.len(),
{
    if s.len() == 0 {
        0
    } else {
        10 * number(s.drop_last()) + (s.last() as nat - '0' as nat) as nat
    }
}

/// A text without one plus sign before it.
pub open spec fn unsigned_part(s: Seq<char>) -> Seq<char> {
    if s.len() > 0 && s[0] == '+' {
        s.drop_first()
    } else {
        s
    }
}

/// The unsigned 64-bit number that a text writes: decimal digits, perhaps after a
/// plus sign. Anything else, and a number that does not fit, is no such number.
pub open spec fn parsed_u64(s: Seq<char>) -> Option<u64> {
    let digits = unsigned_part(s);
    if is_number(digits) && number(digits) <= u64::MAX {
        Some(number(digits) as u64)
    } else {
        None
    }
}

/// More digits never write a smaller number.
proof fn lemma_number_grows(s: Seq<char>, n: int)
    requires
        0 <= n <= s.len(),
        forall|i: int| 0 <= i < s.len() ==> '0' <= #[trigger] s[i] <= '9',
    ensures
        number(s.take(n)) <= number(s),
    decreases s.len(),
{
    if n < s.len() {
        let shorter = s.drop_last();
        assert(shorter.take(n) =~= s.take(n));
        lemma_number_grows(shorter, n);
    } else {
        assert(s.take(n) =~= s);
    }
}

/// The unsigned 64-bit number that a text writes, if it writes one.
pub fn parse_u64(s: &str) -> (r: Option<u64>)
    ensures
        r == parsed_u64(s@),
{
    let chars = chars_of(s);
    let start: usize = if chars.len() > 0 && chars[0] == '+' {
        1
    } else {
        0
    };
    let ghost digits = unsigned_part(s@);
    assert(digits =~= s@.skip(start as int));
    if start == chars.len() {
        return None;
    }
    let mut value: u64 = 0;
    let mut i: usize = start;
    assert(digits.take(0) =~= Seq::<char>::empty());
    while i < chars.len()
        invariant
            start <= i <= chars.len(),
            chars@ == s@,
            digits == unsigned_part(s@),
            digits == s@.skip(start as int),
            value == number(digits.take(i - start)),
            forall|k: int| 0 <= k < i - start ==> '0' <= #[trigger] digits[k] <= '9',
        decreases chars.len() - i,
    {
        let c = chars[i];
        assert(digits[i - start] == c);
        if c < '0' || c > '9' {
            return None;
        }
        let digit: u64 = c as u64 - '0' as u64;
        let ghost longer = digits.take(i - start + 1);
        assert(longer.drop_last() =~= digits.take(i - start));
        assert(number(longer) == 10 * value + digit);
        if value > u64::MAX / 10 || value * 10 > u64::MAX - digit {
            proof {
                if is_number(digits) {
                    lemma_number_grows(digits, i - start + 1);
                }
            }
            return None;
        }
        value = value * 10 + digit;
        i = i + 1;
    }
    assert(digits.take(i - start) =~= digits);
    Some(value)
}

} // verus!
