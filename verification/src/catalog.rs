//! The entries of an inventory: at most one for each id, held in the order of
//! their ids.

use crate::entry::{Entry, EntryView};
use crate::text;
use vstd::prelude::*;

verus! {

/// The entries of an inventory by their ids.
pub type EntryMap = Map<Seq<char>, EntryView>;

/// Whether entries stand in the order of their ids, no id twice.
pub open spec fn is_sorted(s: Seq<EntryView>) -> bool {
    forall|i: int, j: int|
        0 <= i < j < s.len() ==> text::str_before((#[trigger] s[i]).id, (#[trigger] s[j]).id)
}

/// Whether an id is that of one of the entries.
pub open spec fn has_id(s: Seq<EntryView>, id: Seq<char>) -> bool {
    exists|i: int| 0 <= i < s.len() && (#[trigger] s[i]).id == id
}

/// Whether a sequence is the walk through a map in the order of the ids.
pub open spec fn lists(s: Seq<EntryView>, m: EntryMap) -> bool {
    &&& is_sorted(s)
    &&& forall|i: int|
        0 <= i < s.len() ==> m.contains_key((#[trigger] s[i]).id) && m[s[i].id] == s[i]
    &&& forall|id: Seq<char>| #[trigger] m.contains_key(id) ==> has_id(s, id)
}

/// The map that holds the given entries, each under its id.
pub open spec fn to_map(s: Seq<EntryView>) -> EntryMap {
    Map::new(
        |id: Seq<char>| has_id(s, id),
        |id: Seq<char>| s[choose|i: int| 0 <= i < s.len() && (#[trigger] s[i]).id == id],
    )
}

/// Whether each entry of a map stands under its own id.
pub open spec fn is_keyed(m: EntryMap) -> bool {
    forall|id: Seq<char>| #[trigger] m.contains_key(id) ==> m[id].id == id
}

/// How many ids of a map come before the given one.
pub open spec fn rank(m: EntryMap, id: Seq<char>) -> nat {
    m.dom().filter(|other: Seq<char>| text::str_before(other, id)).len()
}

/// The part of a map that holds its first `n` ids.
pub open spec fn first(m: EntryMap, n: nat) -> EntryMap {
    m.restrict(Set::new(|id: Seq<char>| rank(m, id) < n))
}

/// The ids of entries, one after the other.
pub open spec fn ids(s: Seq<EntryView>) -> Seq<Seq<char>> {
    s.map_values(|e: EntryView| e.id)
}

/// Sorted entries are the walk through the map that they make.
pub proof fn lemma_to_map_lists(s: Seq<EntryView>)
    requires
        is_sorted(s),
    ensures
        lists(s, to_map(s)),
{
    assert forall|i: int| 0 <= i < s.len() implies to_map(s).contains_key((#[trigger] s[i]).id)
        && to_map(s)[s[i].id] == s[i] by {
        let id = s[i].id;
        assert(has_id(s, id));
        let j = choose|j: int| 0 <= j < s.len() && (#[trigger] s[j]).id == id;
        text::lemma_str_before_irreflexive(id);
    }
}

/// A walk through a map has as many steps as the map has ids, and in its first
/// `n` steps meets as many ids.
pub proof fn lemma_walk(s: Seq<EntryView>, m: EntryMap, n: int)
    requires
        lists(s, m),
        0 <= n <= s.len(),
    ensures
        ids(s.take(n)).to_set().finite(),
        ids(s.take(n)).to_set().len() == n,
        m.dom() == ids(s).to_set(),
        m.dom().finite(),
        m.dom().len() == s.len(),
{
    assert forall|i: int, j: int| 0 <= i < s.len() && 0 <= j < s.len() && i != j implies ids(s)[i]
        != ids(s)[j] by {
        text::lemma_str_before_irreflexive(s[i].id);
        if i < j {
            assert(text::str_before(s[i].id, s[j].id));
        } else {
            assert(text::str_before(s[j].id, s[i].id));
        }
    }
    assert forall|i: int, j: int| 0 <= i < n && 0 <= j < n && i != j implies ids(s.take(n))[i]
        != ids(s.take(n))[j] by {
        assert(ids(s.take(n))[i] == ids(s)[i]);
        assert(ids(s.take(n))[j] == ids(s)[j]);
    }
    ids(s.take(n)).unique_seq_to_set();
    ids(s).unique_seq_to_set();
    assert forall|id: Seq<char>| m.dom().contains(id) == ids(s).to_set().contains(id) by {
        if m.contains_key(id) {
            let i = choose|i: int| 0 <= i < s.len() && (#[trigger] s[i]).id == id;
            assert(ids(s)[i] == id);
        }
        if ids(s).contains(id) {
            let i = choose|i: int| 0 <= i < ids(s).len() && ids(s)[i] == id;
            assert(s[i].id == id);
        }
    }
    assert(m.dom() =~= ids(s).to_set());
}

/// The entry that a walk meets after `i` others has `i` ids before its own.
pub proof fn lemma_rank(s: Seq<EntryView>, m: EntryMap, i: int)
    requires
        lists(s, m),
        0 <= i < s.len(),
    ensures
        rank(m, s[i].id) == i,
{
    let id = s[i].id;
    let smaller = m.dom().filter(|other: Seq<char>| text::str_before(other, id));
    lemma_walk(s, m, i);
    assert forall|other: Seq<char>|
        smaller.contains(other) == ids(s.take(i)).to_set().contains(other) by {
        if smaller.contains(other) {
            let j = choose|j: int| 0 <= j < s.len() && (#[trigger] s[j]).id == other;
            text::lemma_str_before_irreflexive(id);
            if j > i {
                assert(text::str_before(s[i].id, s[j].id));
                text::lemma_str_before_transitive(id, other, id);
            }
            assert(ids(s.take(i))[j] == other);
        }
        if ids(s.take(i)).contains(other) {
            let j = choose|j: int| 0 <= j < i && ids(s.take(i))[j] == other;
            assert(s[j].id == other);
            assert(text::str_before(s[j].id, s[i].id));
        }
    }
    assert(smaller =~= ids(s.take(i)).to_set());
}

/// The first `n` steps of a walk are the walk through the first `n` ids.
pub proof fn lemma_first(s: Seq<EntryView>, m: EntryMap, n: nat)
    requires
        lists(s, m),
    ensures
        lists(s.take(if n < s.len() { n as int } else { s.len() as int }), first(m, n)),
{
    let k: int = if n < s.len() {
        n as int
    } else {
        s.len() as int
    };
    let t = s.take(k);
    assert forall|i: int| 0 <= i < t.len() implies first(m, n).contains_key((#[trigger] t[i]).id)
        && first(m, n)[t[i].id] == t[i] by {
        assert(t[i] == s[i]);
        lemma_rank(s, m, i);
    }
    assert forall|id: Seq<char>| #[trigger] first(m, n).contains_key(id) implies has_id(t, id) by {
        assert(m.contains_key(id));
        let i = choose|i: int| 0 <= i < s.len() && (#[trigger] s[i]).id == id;
        lemma_rank(s, m, i);
        assert(t[i].id == id);
    }
}

/// There is but one walk through a map.
pub proof fn lemma_one_walk(s: Seq<EntryView>, t: Seq<EntryView>, m: EntryMap)
    requires
        lists(s, m),
        lists(t, m),
    ensures
        s == t,
{
    lemma_walk(s, m, 0);
    lemma_walk(t, m, 0);
    assert forall|i: int| 0 <= i < s.len() implies s[i] == t[i] by {
        assert(m.contains_key(s[i].id));
        let j = choose|j: int| 0 <= j < t.len() && (#[trigger] t[j]).id == s[i].id;
        lemma_rank(s, m, i);
        lemma_rank(t, m, j);
    }
    assert(s =~= t);
}

/// A walk belongs to but one map.
pub proof fn lemma_one_map(s: Seq<EntryView>, m: EntryMap)
    requires
        lists(s, m),
    ensures
        m == to_map(s),
{
    lemma_to_map_lists(s);
    assert forall|id: Seq<char>| m.contains_key(id) implies m[id] == to_map(s)[id] by {
        let i = choose|i: int| 0 <= i < s.len() && (#[trigger] s[i]).id == id;
        assert(m[s[i].id] == s[i]);
        assert(to_map(s)[s[i].id] == s[i]);
    }
    assert forall|id: Seq<char>| m.contains_key(id) == to_map(s).contains_key(id) by {
        if to_map(s).contains_key(id) {
            let i = choose|i: int| 0 <= i < s.len() && (#[trigger] s[i]).id == id;
            assert(m.contains_key(s[i].id));
        }
    }
    assert(m =~= to_map(s));
}

/// The entries of a map in the order of their ids.
pub open spec fn walk(m: EntryMap) -> Seq<EntryView> {
    choose|s: Seq<EntryView>| lists(s, m)
}

/// The walk through a map with one more entry. The entry goes where the ids before
/// its own end, in the place of the entry that has its id if there is one.
pub open spec fn with_entry(s: Seq<EntryView>, p: int, e: EntryView) -> Seq<EntryView> {
    if p < s.len() && s[p].id == e.id {
        s.update(p, e)
    } else {
        s.insert(p, e)
    }
}

/// Whether the ids that come before the given one end at `p`.
pub open spec fn is_place(s: Seq<EntryView>, id: Seq<char>, p: int) -> bool {
    &&& 0 <= p <= s.len()
    &&& forall|i: int| 0 <= i < p ==> text::str_before((#[trigger] s[i]).id, id)
    &&& forall|i: int| p <= i < s.len() ==> !text::str_before((#[trigger] s[i]).id, id)
}

/// One more entry in its place makes the walk through the map with that entry.
pub proof fn lemma_with_entry(s: Seq<EntryView>, m: EntryMap, p: int, e: EntryView)
    requires
        lists(s, m),
        is_place(s, e.id, p),
    ensures
        lists(with_entry(s, p, e), m.insert(e.id, e)),
{
    let known = p < s.len() && s[p].id == e.id;
    let t = with_entry(s, p, e);
    assert forall|j: int, k: int| 0 <= j < k < t.len() implies text::str_before(
        (#[trigger] t[j]).id,
        (#[trigger] t[k]).id,
    ) by {
        if !known && k == p {
            assert(t[j] == s[j]);
        } else if !known && j == p {
            assert(t[k] == s[k - 1]);
            text::lemma_str_before_total(s[k - 1].id, e.id);
            if s[k - 1].id == e.id {
                text::lemma_str_before_irreflexive(e.id);
                if k - 1 > p {
                    assert(text::str_before(s[p].id, s[k - 1].id));
                }
            }
        }
    }
    let n = m.insert(e.id, e);
    assert forall|k: int| 0 <= k < t.len() implies n.contains_key((#[trigger] t[k]).id)
        && n[t[k].id] == t[k] by {
        if k != p {
            let old_k: int = if known || k < p {
                k
            } else {
                k - 1
            };
            assert(t[k] == s[old_k]);
            text::lemma_str_before_irreflexive(e.id);
            if k < p {
                assert(text::str_before(t[k].id, t[p].id));
            } else {
                assert(text::str_before(t[p].id, t[k].id));
            }
        }
    }
    assert forall|id: Seq<char>| #[trigger] n.contains_key(id) implies has_id(t, id) by {
        if id == e.id {
            assert(t[p].id == id);
        } else {
            let k = choose|k: int| 0 <= k < s.len() && (#[trigger] s[k]).id == id;
            if known || k < p {
                assert(t[k] == s[k]);
            } else {
                assert(t[k + 1] == s[k]);
            }
        }
    }
}

/// In sorted entries each id has its place.
proof fn lemma_has_place(s: Seq<EntryView>, id: Seq<char>) -> (p: int)
    requires
        is_sorted(s),
    ensures
        is_place(s, id, p),
    decreases s.len(),
{
    if s.len() == 0 {
        0
    } else {
        let shorter = s.drop_last();
        let p = lemma_has_place(shorter, id);
        let last = s.len() - 1;
        assert(forall|i: int| 0 <= i < last ==> s[i] == #[trigger] shorter[i]);
        if text::str_before(s[last].id, id) {
            assert forall|i: int| 0 <= i < last implies text::str_before(
                (#[trigger] s[i]).id,
                id,
            ) by {
                text::lemma_str_before_transitive(s[i].id, s[last].id, id);
            }
            s.len() as int
        } else {
            assert forall|i: int| 0 <= i < p implies text::str_before((#[trigger] s[i]).id, id) by {
                assert(s[i] == shorter[i]);
            }
            assert forall|i: int| p <= i < s.len() implies !text::str_before(
                (#[trigger] s[i]).id,
                id,
            ) by {
                if i < last {
                    assert(s[i] == shorter[i]);
                }
            }
            p
        }
    }
}

/// Through each map of finitely many entries that stand under their ids there is a
/// walk.
pub proof fn lemma_has_walk(m: EntryMap)
    requires
        is_keyed(m),
        m.dom().finite(),
    ensures
        lists(walk(m), m),
    decreases m.dom().len(),
{
    if m.dom().len() == 0 {
        let none = Seq::<EntryView>::empty();
        assert(lists(none, m));
    } else {
        let id = m.dom().choose();
        let rest = m.remove(id);
        assert(rest.dom() =~= m.dom().remove(id));
        lemma_has_walk(rest);
        let s = walk(rest);
        let p = lemma_has_place(s, id);
        lemma_with_entry(s, rest, p, m[id]);
        assert(rest.insert(id, m[id]) =~= m);
        assert(lists(with_entry(s, p, m[id]), m));
    }
}

/// Whether two maps hold the same ids, and under each the relay would take the two
/// entries for the same.
pub open spec fn same_inventory(a: EntryMap, b: EntryMap) -> bool {
    &&& a.dom() == b.dom()
    &&& forall|id: Seq<char>|
        #[trigger] a.contains_key(id) ==> a[id].identity() == b[id].identity()
}

/// Walks through maps that are the same to the relay go step by step together.
proof fn lemma_same_inventory(s: Seq<EntryView>, a: EntryMap, t: Seq<EntryView>, b: EntryMap)
    requires
        lists(s, a),
        lists(t, b),
    ensures
        same_inventory(a, b) <==> {
            &&& s.len() == t.len()
            &&& forall|i: int|
                0 <= i < s.len() ==> (#[trigger] s[i]).identity() == t[i].identity()
        },
{
    lemma_walk(s, a, 0);
    lemma_walk(t, b, 0);
    if same_inventory(a, b) {
        assert forall|i: int| 0 <= i < s.len() implies (#[trigger] s[i]).identity()
            == t[i].identity() by {
            assert(b.contains_key(s[i].id));
            let j = choose|j: int| 0 <= j < t.len() && (#[trigger] t[j]).id == s[i].id;
            lemma_rank(s, a, i);
            lemma_rank(t, b, j);
            assert(rank(a, s[i].id) == rank(b, s[i].id));
        }
    }
    if s.len() == t.len() && (forall|i: int|
        0 <= i < s.len() ==> (#[trigger] s[i]).identity() == t[i].identity()) {
        assert forall|i: int| 0 <= i < s.len() implies ids(s)[i] == ids(t)[i] by {
            assert(s[i].identity() == t[i].identity());
        }
        assert(ids(s) =~= ids(t));
        assert forall|id: Seq<char>| #[trigger] a.contains_key(id) implies a[id].identity()
            == b[id].identity() by {
            let i = choose|i: int| 0 <= i < s.len() && (#[trigger] s[i]).id == id;
            assert(s[i].identity() == t[i].identity());
            assert(b[t[i].id] == t[i]);
        }
    }
}

/// Entries by their ids.
#[derive(Debug)]
pub struct Entries {
    list: Vec<Entry>,
}

impl View for Entries {
    type V = EntryMap;

    closed spec fn view(&self) -> EntryMap {
        to_map(text::views(self.list@))
    }
}

impl Entries {
    #[verifier::type_invariant]
    spec fn inv(self) -> bool {
        is_sorted(text::views(self.list@))
    }

    /// The entries in the order of their ids.
    pub closed spec fn ordered(self) -> Seq<EntryView> {
        text::views(self.list@)
    }

    /// Each entry stands under its own id.
    pub proof fn lemma_keyed(self)
        ensures
            is_keyed(self@),
    {
        let s = text::views(self.list@);
        assert forall|id: Seq<char>| #[trigger] self@.contains_key(id) implies self@[id].id
            == id by {
            assert(has_id(s, id));
        }
    }

    /// No entries.
    pub fn new() -> (r: Self)
        ensures
            r@ == Map::<Seq<char>, EntryView>::empty(),
            r.ordered().len() == 0,
    {
        let r = Entries { list: Vec::new() };
        assert(r@ =~= Map::<Seq<char>, EntryView>::empty());
        r
    }

    /// How many entries there are.
    pub fn len(&self) -> (r: usize)
        ensures
            r == self@.dom().len(),
            r == self.ordered().len(),
            lists(self.ordered(), self@),
    {
        proof {
            use_type_invariant(self);
            lemma_to_map_lists(text::views(self.list@));
            lemma_walk(text::views(self.list@), self@, 0);
        }
        self.list.len()
    }

    /// Whether the relay would take two inventories for the same.
    pub fn same_as(&self, other: &Entries) -> (r: bool)
        ensures
            r == same_inventory(self@, other@),
    {
        let ghost s = self.ordered();
        let ghost t = other.ordered();
        proof {
            use_type_invariant(self);
            use_type_invariant(other);
            lemma_to_map_lists(s);
            lemma_to_map_lists(t);
            lemma_same_inventory(s, self@, t, other@);
        }
        if self.list.len() != other.list.len() {
            return false;
        }
        let mut i: usize = 0;
        while i < self.list.len()
            invariant
                i <= self.list.len(),
                self.list.len() == other.list.len(),
                s == text::views(self.list@),
                t == text::views(other.list@),
                same_inventory(self@, other@) <==> (s.len() == t.len() && forall|k: int|
                    0 <= k < s.len() ==> (#[trigger] s[k]).identity() == t[k].identity()),
                forall|k: int| 0 <= k < i ==> (#[trigger] s[k]).identity() == t[k].identity(),
            decreases self.list.len() - i,
        {
            assert(s[i as int] == self.list@[i as int]@);
            assert(t[i as int] == other.list@[i as int]@);
            if !self.list[i].same_identity(&other.list[i]) {
                return false;
            }
            i = i + 1;
        }
        true
    }

    /// The entry that `i` others come before.
    pub fn at(&self, i: usize) -> (r: &Entry)
        requires
            i < self.ordered().len(),
        ensures
            r@ == self.ordered()[i as int],
    {
        &self.list[i]
    }

    /// How many entries have an id that comes before the given one.
    fn place(&self, id: &str) -> (r: usize)
        ensures
            is_place(self.ordered(), id@, r as int),
    {
        proof {
            use_type_invariant(self);
        }
        let ghost s = self.ordered();
        let mut low: usize = 0;
        let mut high: usize = self.list.len();
        while low < high
            invariant
                low <= high <= self.list.len(),
                s == self.ordered(),
                s.len() == self.list.len(),
                is_sorted(s),
                forall|i: int| 0 <= i < low ==> text::str_before((#[trigger] s[i]).id, id@),
                forall|i: int|
                    high <= i < s.len() ==> !text::str_before((#[trigger] s[i]).id, id@),
            decreases high - low,
        {
            let middle: usize = low + (high - low) / 2;
            assert(self.list@[middle as int]@ == s[middle as int]);
            if text::is_str_before(self.list[middle].id.as_str(), id) {
                assert forall|i: int| 0 <= i < middle + 1 implies text::str_before(
                    (#[trigger] s[i]).id,
                    id@,
                ) by {
                    if i < middle {
                        text::lemma_str_before_transitive(s[i].id, s[middle as int].id, id@);
                    }
                }
                low = middle + 1;
            } else {
                assert forall|i: int| middle <= i < s.len() implies !text::str_before(
                    (#[trigger] s[i]).id,
                    id@,
                ) by {
                    if i > middle && text::str_before(s[i].id, id@) {
                        text::lemma_str_before_transitive(s[middle as int].id, s[i].id, id@);
                    }
                }
                high = middle;
            }
        }
        low
    }

    /// The entry with the given id.
    pub fn get(&self, id: &str) -> (r: Option<&Entry>)
        ensures
            r is Some <==> self@.contains_key(id@),
            r matches Some(e) ==> e@ == self@[id@],
    {
        let i: usize = self.place(id);
        let ghost s = self.ordered();
        proof {
            use_type_invariant(self);
            lemma_to_map_lists(s);
            assert forall|k: int| 0 <= k < s.len() && (#[trigger] s[k]).id == id@ implies k
                == i by {
                text::lemma_str_before_irreflexive(id@);
                if k > i {
                    assert(text::str_before(s[i as int].id, s[k].id));
                }
            }
        }
        if i < self.list.len() && text::is_same(self.list[i].id.as_str(), id) {
            assert(s[i as int] == self.list@[i as int]@);
            Some(&self.list[i])
        } else {
            assert(i < s.len() ==> s[i as int] == self.list@[i as int]@);
            None
        }
    }

    /// The entries with one more, which takes the place of an entry with its id.
    pub fn insert(self, entry: Entry) -> (r: Self)
        ensures
            r@ == self@.insert(entry@.id, entry@),
    {
        let i: usize = self.place(entry.id.as_str());
        let ghost s = self.ordered();
        let ghost e = entry@;
        proof {
            use_type_invariant(&self);
            lemma_to_map_lists(s);
        }
        let known = i < self.list.len() && text::is_same(
            self.list[i].id.as_str(),
            entry.id.as_str(),
        );
        let Entries { mut list } = self;
        assert(i < s.len() ==> s[i as int] == list@[i as int]@);
        if known {
            list.set(i, entry);
            assert(text::views(list@) =~= s.update(i as int, e));
        } else {
            list.insert(i, entry);
            assert(text::views(list@) =~= s.insert(i as int, e));
        }
        proof {
            let t = text::views(list@);
            lemma_with_entry(s, to_map(s), i as int, e);
            assert(t =~= with_entry(s, i as int, e));
            lemma_one_map(t, to_map(s).insert(e.id, e));
        }
        Entries { list }
    }

    /// The entries with the first `n` ids.
    pub fn keep_first(self, n: usize) -> (r: Self)
        ensures
            r@ == first(self@, n as nat),
    {
        let ghost s = self.ordered();
        proof {
            use_type_invariant(&self);
            lemma_to_map_lists(s);
            lemma_first(s, self@, n as nat);
        }
        let Entries { mut list } = self;
        if n < list.len() {
            list.truncate(n);
            assert(text::views(list@) =~= s.take(n as int));
        } else {
            assert(text::views(list@) =~= s.take(s.len() as int));
        }
        proof {
            lemma_one_map(text::views(list@), first(self@, n as nat));
        }
        Entries { list }
    }
}

} // verus!
