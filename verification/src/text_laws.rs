//! What holds of order, lists and numbers in text.

use crate::text;
use crate::text::Class;
use vstd::prelude::*;

verus! {

/// Of two byte strings that agree in their first `n` bytes, the one that ends there, or
/// has the smaller byte there, comes first.
pub proof fn law_first_difference_decides(a: Seq<u8>, b: Seq<u8>, n: int)
    requires
        0 <= n <= a.len(),
        n <= b.len(),
        a.take(n) == b.take(n),
        n < b.len() && (n == a.len() || a[n] < b[n]),
    ensures
        text::bytes_before(a, b),
        !text::bytes_before(b, a),
    decreases n,
{
    if n > 0 {
        assert(a[0] == a.take(n)[0]);
        assert(b[0] == b.take(n)[0]);
        assert(a.drop_first().take(n - 1) =~= a.take(n).drop_first());
        assert(b.drop_first().take(n - 1) =~= b.take(n).drop_first());
        law_first_difference_decides(a.drop_first(), b.drop_first(), n - 1);
    }
}

/// Strings are ordered by the first difference of their bytes in UTF-8.
pub proof fn law_strings_are_ordered_by_bytes(a: Seq<char>, b: Seq<char>, n: int)
    requires
        ({
            let x = vstd::utf8::encode_utf8(a);
            let y = vstd::utf8::encode_utf8(b);
            &&& 0 <= n <= x.len()
            &&& n < y.len()
            &&& x.take(n) == y.take(n)
            &&& n == x.len() || x[n] < y[n]
        }),
    ensures
        text::str_before(a, b),
        !text::str_before(b, a),
{
    law_first_difference_decides(vstd::utf8::encode_utf8(a), vstd::utf8::encode_utf8(b), n);
}

/// Nothing comes before itself.
pub proof fn law_nothing_comes_before_itself(a: Seq<char>, b: Seq<u8>)
    ensures
        !text::str_before(a, a),
        !text::bytes_before(b, b),
{
    text::lemma_str_before_irreflexive(a);
    text::lemma_bytes_before_irreflexive(b);
}

/// Trimming takes off all that is of the kind at both ends, and nothing else.
pub proof fn law_trimming_takes_the_ends_off(
    before: Seq<char>,
    s: Seq<char>,
    after: Seq<char>,
    class: Class,
)
    requires
        forall|i: int| 0 <= i < before.len() ==> class.holds(#[trigger] before[i]),
        forall|i: int| 0 <= i < after.len() ==> class.holds(#[trigger] after[i]),
        s.len() > 0 ==> !class.holds(s[0]) && !class.holds(s.last()),
    ensures
        text::trimmed(before + s + after, class) == s,
{
    if s.len() > 0 {
        assert(before + s + after =~= before + (s + after));
        text::lemma_trimmed_start(before, s + after, class);
        assert((s + after)[0] == s[0]);
        text::lemma_trimmed_end(s, after, class);
    } else {
        let none = Seq::<char>::empty();
        assert(before + s + after =~= (before + after) + none);
        assert(text::is_all(before + after, class)) by {
            assert forall|i: int| 0 <= i < (before + after).len() implies class.holds(
                #[trigger] (before + after)[i],
            ) by {
                if i < before.len() {
                    assert((before + after)[i] == before[i]);
                } else {
                    assert((before + after)[i] == after[i - before.len()]);
                }
            }
        }
        text::lemma_trimmed_start(before + after, none, class);
    }
}

/// What the kinds of characters are: white space holds what ends a line, blanks are
/// white space, and marks are not.
pub proof fn law_kinds_of_characters(c: char)
    ensures
        Class::Blank.holds(c) <==> c == ' ' || c == '\t',
        Class::Quote.holds(c) <==> c == '"' || c == '\'',
        Class::Blank.holds(c) ==> Class::Space.holds(c),
        c == '\n' || c == '\r' ==> Class::Space.holds(c),
        Class::Space.holds(c) ==> !Class::Quote.holds(c) && c != '#' && c != ',',
{
}

/// A list falls apart at each of its commas.
pub proof fn law_a_comma_parts_names(a: Seq<char>, b: Seq<char>)
    ensures
        text::listed_names(a + seq![','] + b) == text::listed_names(a) + text::listed_names(b),
{
    lemma_fields(a, b);
    lemma_names_in(text::fields(a), text::fields(b));
}

/// The fields of two lists with a comma between them are those of both.
proof fn lemma_fields(a: Seq<char>, b: Seq<char>)
    ensures
        text::fields(a + seq![','] + b) == text::fields(a) + text::fields(b),
        text::fields(b).len() > 0,
    decreases b.len(),
{
    let s = a + seq![','] + b;
    let empty = Seq::<char>::empty();
    if b.len() == 0 {
        assert(s.drop_last() =~= a);
        assert(s.last() == ',');
        assert(text::fields(a) + seq![empty] =~= text::fields(a).push(empty));
        assert(b =~= empty);
    } else {
        lemma_fields(a, b.drop_last());
        assert(s.drop_last() =~= a + seq![','] + b.drop_last());
        assert(s.last() == b.last());
        let x = text::fields(a);
        let y = text::fields(b.drop_last());
        assert((x + y).last() == y.last());
        assert((x + y).push(empty) =~= x + y.push(empty));
        assert((x + y).drop_last().push(y.last().push(b.last())) =~= x + y.drop_last().push(
            y.last().push(b.last()),
        ));
    }
}

/// The names in two lists of fields are those of both.
proof fn lemma_names_in(a: Seq<Seq<char>>, b: Seq<Seq<char>>)
    ensures
        text::names_in(a + b) == text::names_in(a) + text::names_in(b),
    decreases b.len(),
{
    let none = Seq::<Seq<char>>::empty();
    if b.len() == 0 {
        assert(a + b =~= a);
        assert(text::names_in(a) + none =~= text::names_in(a));
    } else {
        lemma_names_in(a, b.drop_last());
        assert((a + b).drop_last() =~= a + b.drop_last());
        assert((a + b).last() == b.last());
        let name = text::trimmed(b.last(), Class::Space);
        let x = text::names_in(a);
        let y = text::names_in(b.drop_last());
        assert((x + y).push(name) =~= x + y.push(name));
    }
}

/// A list with no comma holds the one name that is in it, without the white space
/// around it, or none where there is nothing but white space.
pub proof fn law_one_field_is_one_name(before: Seq<char>, name: Seq<char>, after: Seq<char>)
    requires
        forall|i: int| 0 <= i < before.len() ==> text::is_space(#[trigger] before[i]),
        forall|i: int| 0 <= i < after.len() ==> text::is_space(#[trigger] after[i]),
        name.len() > 0 ==> !text::is_space(name[0]) && !text::is_space(name.last()),
        !name.contains(','),
    ensures
        text::listed_names(before + name + after) == (if name.len() == 0 {
            Seq::<Seq<char>>::empty()
        } else {
            seq![name]
        }),
{
    let s = before + name + after;
    assert forall|i: int| 0 <= i < s.len() implies #[trigger] s[i] != ',' by {
        if i < before.len() {
            assert(s[i] == before[i]);
        } else if i < before.len() + name.len() {
            assert(s[i] == name[i - before.len()]);
        } else {
            assert(s[i] == after[i - before.len() - name.len()]);
        }
    }
    lemma_one_field(s);
    law_trimming_takes_the_ends_off(before, name, after, Class::Space);
    let f = seq![s];
    let none = Seq::<Seq<char>>::empty();
    assert(f.drop_last() =~= none);
    assert(f.last() == s);
    assert(text::names_in(none) =~= none);
    assert(none.push(name) =~= seq![name]);
}

/// A list with no comma is one field.
proof fn lemma_one_field(s: Seq<char>)
    requires
        forall|i: int| 0 <= i < s.len() ==> #[trigger] s[i] != ',',
    ensures
        text::fields(s) == seq![s],
    decreases s.len(),
{
    if s.len() == 0 {
        assert(s =~= Seq::<char>::empty());
    } else {
        let shorter = s.drop_last();
        assert forall|i: int| 0 <= i < shorter.len() implies #[trigger] shorter[i] != ',' by {
            assert(shorter[i] == s[i]);
        }
        lemma_one_field(shorter);
        assert(s.last() == s[s.len() - 1]);
        assert(shorter.push(s.last()) =~= s);
        assert(seq![shorter].drop_last().push(s) =~= seq![s]);
    }
}

/// Joined names fall apart at their separators, and one name alone has none.
pub proof fn law_joined_names_part_at_separators(
    a: Seq<Seq<char>>,
    b: Seq<Seq<char>>,
    name: Seq<char>,
    separator: Seq<char>,
)
    ensures
        text::joined(seq![name], separator) == name,
        text::joined(Seq::<Seq<char>>::empty(), separator).len() == 0,
        a.len() > 0 && b.len() > 0 ==> text::joined(a + b, separator) == text::joined(a, separator)
            + separator + text::joined(b, separator),
    decreases b.len(),
{
    if a.len() > 0 && b.len() > 0 {
        let shorter = b.drop_last();
        let x = text::joined(a, separator);
        assert((a + b).drop_last() =~= a + shorter);
        assert((a + b).last() == b.last());
        if b.len() == 1 {
            assert(a + shorter =~= a);
            assert(b.last() == b[0]);
        } else {
            law_joined_names_part_at_separators(a, shorter, name, separator);
            let y = text::joined(shorter, separator);
            assert(x + separator + y + separator + b.last() =~= x + separator + (y + separator
                + b.last()));
        }
    }
}

/// The decimal digit of a number below ten.
pub open spec fn digit(n: nat) -> char {
    (n + '0' as nat) as char
}

/// A number in decimal digits, with no zeros before it.
pub open spec fn decimal(n: nat) -> Seq<char>
    decreases n,
{
    if n < 10 {
        seq![digit(n)]
    } else {
        decimal(n / 10).push(digit(n % 10))
    }
}

/// A number as it may be written: perhaps a plus sign, perhaps zeros, and its digits.
pub open spec fn written(n: nat, zeros: nat, plus: bool) -> Seq<char> {
    let digits = Seq::new(zeros, |i: int| '0') + decimal(n);
    if plus {
        seq!['+'] + digits
    } else {
        digits
    }
}

/// Whether a text writes a number.
pub open spec fn is_written(s: Seq<char>, n: nat) -> bool {
    exists|zeros: nat, plus: bool| s == #[trigger] written(n, zeros, plus)
}

/// What decimal digits write is the number that they are of.
proof fn lemma_decimal(n: nat)
    ensures
        text::is_number(decimal(n)),
        text::number(decimal(n)) == n,
    decreases n,
{
    if n < 10 {
        assert(decimal(n).drop_last() =~= Seq::<char>::empty());
        assert(text::number(Seq::<char>::empty()) == 0);
    } else {
        lemma_decimal(n / 10);
        let s = decimal(n / 10);
        assert(s.push(digit(n % 10)).drop_last() =~= s);
        assert forall|i: int| 0 <= i < decimal(n).len() implies '0' <= #[trigger] decimal(n)[i]
            <= '9' by {
            if i < s.len() {
                assert(decimal(n)[i] == s[i]);
            }
        }
    }
}

/// Zeros before digits do not count.
proof fn lemma_zeros(zeros: nat, s: Seq<char>)
    requires
        text::is_number(s),
    ensures
        text::is_number(Seq::new(zeros, |i: int| '0') + s),
        text::number(Seq::new(zeros, |i: int| '0') + s) == text::number(s),
    decreases s.len(),
{
    let z = Seq::new(zeros, |i: int| '0');
    assert forall|i: int| 0 <= i < (z + s).len() implies '0' <= #[trigger] (z + s)[i] <= '9' by {
        if i >= zeros {
            assert((z + s)[i] == s[i - zeros]);
        }
    }
    assert((z + s).drop_last() =~= z + s.drop_last());
    assert((z + s).last() == s.last());
    if s.len() == 1 {
        assert(z + s.drop_last() =~= z);
        lemma_only_zeros(zeros);
        assert(s.drop_last() =~= Seq::<char>::empty());
        assert(text::number(Seq::<char>::empty()) == 0);
    } else {
        let shorter = s.drop_last();
        assert forall|i: int| 0 <= i < shorter.len() implies '0' <= #[trigger] shorter[i]
            <= '9' by {
            assert(shorter[i] == s[i]);
        }
        lemma_zeros(zeros, shorter);
    }
}

/// Zeros write zero.
proof fn lemma_only_zeros(zeros: nat)
    ensures
        text::number(Seq::new(zeros, |i: int| '0')) == 0,
    decreases zeros,
{
    if zeros > 0 {
        let z = Seq::new(zeros, |i: int| '0');
        let shorter = Seq::new((zeros - 1) as nat, |i: int| '0');
        assert(z.drop_last() =~= shorter);
        lemma_only_zeros((zeros - 1) as nat);
    }
}

/// Digits are zeros and the digits of the number that they write.
proof fn lemma_digits(s: Seq<char>) -> (zeros: nat)
    requires
        text::is_number(s),
    ensures
        s == Seq::new(zeros, |i: int| '0') + decimal(text::number(s)),
    decreases s.len(),
{
    let n = text::number(s);
    let shorter = s.drop_last();
    let d = (s.last() as nat - '0' as nat) as nat;
    assert(s.last() == s[s.len() - 1]);
    assert(digit(d) == s.last());
    if s.len() == 1 {
        assert(shorter =~= Seq::<char>::empty());
        assert(text::number(Seq::<char>::empty()) == 0);
        assert(s =~= Seq::new(0, |i: int| '0') + decimal(n));
        0
    } else {
        assert forall|i: int| 0 <= i < shorter.len() implies '0' <= #[trigger] shorter[i]
            <= '9' by {
            assert(shorter[i] == s[i]);
        }
        let m = text::number(shorter);
        let zeros = lemma_digits(shorter);
        let z = Seq::new(zeros, |i: int| '0');
        assert(s =~= shorter.push(s.last()));
        if m == 0 {
            let more = Seq::new(zeros + 1, |i: int| '0');
            assert(shorter =~= more);
            assert(s =~= more + decimal(n));
            zeros + 1
        } else {
            assert(n / 10 == m && n % 10 == d);
            assert(s =~= z + decimal(n));
            zeros
        }
    }
}

/// A number that 64 bits hold is read from each of its writings, and a larger one from
/// none.
pub proof fn law_a_written_number_is_read(n: nat, zeros: nat, plus: bool)
    ensures
        text::parsed_u64(written(n, zeros, plus)) == (if n <= u64::MAX {
            Some(n as u64)
        } else {
            None
        }),
{
    let digits = Seq::new(zeros, |i: int| '0') + decimal(n);
    lemma_decimal(n);
    lemma_zeros(zeros, decimal(n));
    assert('0' <= digits[0] <= '9');
    if plus {
        assert(written(n, zeros, plus).drop_first() =~= digits);
    }
}

/// Nothing but a writing of a number is read as that number.
pub proof fn law_only_a_written_number_is_read(s: Seq<char>)
    ensures
        text::parsed_u64(s) matches Some(n) ==> is_written(s, n as nat),
{
    if let Some(n) = text::parsed_u64(s) {
        let plus = s.len() > 0 && s[0] == '+';
        let zeros = lemma_digits(text::unsigned_part(s));
        if plus {
            assert(s =~= seq!['+'] + s.drop_first());
        }
        assert(s == written(n as nat, zeros, plus));
    }
}

} // verus!
