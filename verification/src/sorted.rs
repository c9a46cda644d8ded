//! The order of strings, and sets of strings kept in that order.

use crate::string_map::Duplicate;
use crate::text::{chars_of, copy_texts, texts};
use vstd::prelude::*;

verus! {

/// Whether `a` comes before `b` in the order of strings: by the first
/// characters in which they differ, a string before its continuations.
pub open spec fn precedes(a: Seq<char>, b: Seq<char>) -> bool
    decreases b.len(),
{
    if b.len() == 0 {
        false
    } else if a.len() == 0 {
        true
    } else if a[0] != b[0] {
        a[0] < b[0]
    } else {
        precedes(a.drop_first(), b.drop_first())
    }
}

/// No string comes before itself.
pub proof fn precedes_is_irreflexive(a: Seq<char>)
    ensures
        !precedes(a, a),
    decreases a.len(),
{
    if a.len() > 0 {
        precedes_is_irreflexive(a.drop_first());
    }
}

/// The order of strings is transitive.
pub proof fn precedes_is_transitive(a: Seq<char>, b: Seq<char>, c: Seq<char>)
    requires
        precedes(a, b),
        precedes(b, c),
    ensures
        precedes(a, c),
    decreases b.len(),
{
    if a.len() > 0 && a[0] == b[0] && b[0] == c[0] {
        precedes_is_transitive(a.drop_first(), b.drop_first(), c.drop_first());
    }
}

/// Of two different strings one comes before the other.
pub proof fn precedes_is_total(a: Seq<char>, b: Seq<char>)
    ensures
        a == b || precedes(a, b) || precedes(b, a),
    decreases a.len(),
{
    if a.len() == 0 && b.len() == 0 {
        assert(a =~= b);
    } else if a.len() > 0 && b.len() > 0 && a[0] == b[0] {
        precedes_is_total(a.drop_first(), b.drop_first());
        if a.drop_first() == b.drop_first() {
            assert(a =~= seq![a[0]] + a.drop_first());
            assert(b =~= seq![b[0]] + b.drop_first());
        }
    }
}

/// How one string stands to another in the order of strings.
#[derive(Clone, Copy, Debug, PartialEq, Eq, Structural)]
pub enum TextOrder {
    Before,
    Same,
    After,
}

/// Compares two strings in the order of strings.
pub fn text_order(a: &str, b: &str) -> (order: TextOrder)
    ensures
        order == TextOrder::Before <==> precedes(a@, b@),
        order == TextOrder::Same <==> a@ == b@,
        order == TextOrder::After <==> precedes(b@, a@),
{
    let x = chars_of(a);
    let y = chars_of(b);
    let mut i: usize = 0;
    proof {
        assert(a@.skip(0) =~= a@);
        assert(b@.skip(0) =~= b@);
        precedes_is_irreflexive(a@);
        precedes_is_irreflexive(b@);
    }
    while i < x.len() && i < y.len()
        invariant
            x@ == a@,
            y@ == b@,
            i <= a@.len(),
            i <= b@.len(),
            forall|j: int| 0 <= j < i ==> a@[j] == b@[j],
            precedes(a@, b@) == precedes(a@.skip(i as int), b@.skip(i as int)),
            precedes(b@, a@) == precedes(b@.skip(i as int), a@.skip(i as int)),
        decreases a@.len() - i,
    {
        if x[i] < y[i] {
            return TextOrder::Before;
        }
        if y[i] < x[i] {
            return TextOrder::After;
        }
        proof {
            assert(a@.skip(i as int).drop_first() =~= a@.skip(i + 1));
            assert(b@.skip(i as int).drop_first() =~= b@.skip(i + 1));
        }
        i += 1;
    }
    if x.len() < y.len() {
        TextOrder::Before
    } else if y.len() < x.len() {
        TextOrder::After
    } else {
        proof {
            assert(a@ =~= b@);
        }
        TextOrder::Same
    }
}

/// Whether each string of a list comes before all the later ones.
pub open spec fn ascending(list: Seq<Seq<char>>) -> bool {
    forall|i: int, j: int| 0 <= i < j < list.len() ==> precedes(#[trigger] list[i], #[trigger] list[j])
}

/// Whether a list holds the strings of a set, each once, in their order.
pub open spec fn lists_in_order(list: Seq<Seq<char>>, set: Set<Seq<char>>) -> bool {
    ascending(list) && list.to_set() == set
}

/// A set of strings can be listed in order in one way only.
pub proof fn order_determines_list(a: Seq<Seq<char>>, b: Seq<Seq<char>>)
    requires
        ascending(a),
        ascending(b),
        a.to_set() == b.to_set(),
    ensures
        a == b,
    decreases a.len(),
{
    if a.len() == 0 {
        if b.len() > 0 {
            assert(b.to_set().contains(b[0]));
            assert(a.contains(b[0]));
        }
        assert(a =~= b);
    } else {
        assert(a.to_set().contains(a.last()));
        assert(b.contains(a.last()));
        let i = b.index_of(a.last());
        assert(b[i] == a.last());
        assert(b.to_set().contains(b.last()));
        assert(a.contains(b.last()));
        let j = a.index_of(b.last());
        assert(a[j] == b.last());
        if i < b.len() - 1 {
            assert(precedes(b[i], b[b.len() - 1]));
            if j < a.len() - 1 {
                assert(precedes(a[j], a[a.len() - 1]));
                precedes_is_transitive(a.last(), b.last(), a.last());
            }
            precedes_is_irreflexive(a.last());
        }
        assert(a.last() == b.last());
        let x = a.drop_last();
        let y = b.drop_last();
        assert forall|s: Seq<char>| #[trigger] x.contains(s) == y.contains(s) by {
            precedes_is_irreflexive(a.last());
            if x.contains(s) {
                let k = x.index_of(s);
                assert(a[k] == s);
                assert(precedes(a[k], a[a.len() - 1]));
                assert(a.to_set().contains(s));
                assert(b.contains(s));
                let m = b.index_of(s);
                assert(b[m] == s);
                assert(y[m] == s);
            }
            if y.contains(s) {
                let k = y.index_of(s);
                assert(b[k] == s);
                assert(precedes(b[k], b[b.len() - 1]));
                assert(b.to_set().contains(s));
                assert(a.contains(s));
                let m = a.index_of(s);
                assert(a[m] == s);
                assert(x[m] == s);
            }
        }
        assert(x.to_set() =~= y.to_set());
        order_determines_list(x, y);
        assert(a =~= x.push(a.last()));
        assert(b =~= y.push(b.last()));
    }
}

/// A set of strings, as a list in which each comes before all the later ones.
pub struct SortedSet {
    items: Vec<String>,
}

impl View for SortedSet {
    type V = Set<Seq<char>>;

    closed spec fn view(&self) -> Set<Seq<char>> {
        texts(self.items@).to_set()
    }
}

impl Duplicate for SortedSet {
    fn duplicate(&self) -> (copy: Self) {
        proof {
            use_type_invariant(self);
        }
        SortedSet { items: copy_texts(&self.items) }
    }
}

impl SortedSet {
    #[verifier::type_invariant]
    spec fn inv(&self) -> bool {
        ascending(texts(self.items@))
    }

    /// The empty set.
    pub fn new() -> (set: Self)
        ensures
            set@ == Set::<Seq<char>>::empty(),
    {
        let set = SortedSet { items: Vec::new() };
        proof {
            assert(set@ =~= Set::<Seq<char>>::empty());
        }
        set
    }

    /// The number of strings in the set.
    pub fn len(&self) -> (n: usize)
        ensures
            n == self@.len(),
            self@.finite(),
    {
        proof {
            use_type_invariant(self);
            let list = texts(self.items@);
            assert forall|i: int, j: int| 0 <= i < j < list.len() implies list[i] != list[j] by {
                precedes_is_irreflexive(list[i]);
            }
            list.unique_seq_to_set();
            vstd::seq_lib::seq_to_set_is_finite(list);
        }
        self.items.len()
    }

    /// The place of the first string that does not come before `s`, and whether it is `s`.
    fn seek(&self, s: &str) -> (place: (usize, bool))
        ensures
            place.0 <= self.items@.len(),
            place.1 == self@.contains(s@),
            place.1 ==> place.0 < self.items@.len() && self.items@[place.0 as int]@ == s@,
            forall|j: int| 0 <= j < place.0 ==> precedes(#[trigger] self.items@[j]@, s@),
            !place.1 ==> forall|j: int|
                place.0 <= j < self.items@.len() ==> precedes(s@, #[trigger] self.items@[j]@),
    {
        proof {
            use_type_invariant(self);
        }
        let ghost list = texts(self.items@);
        let mut i: usize = 0;
        while i < self.items.len()
            invariant
                list == texts(self.items@),
                ascending(list),
                i <= self.items@.len(),
                forall|j: int| 0 <= j < i ==> precedes(#[trigger] self.items@[j]@, s@),
            decreases self.items@.len() - i,
        {
            match text_order(self.items[i].as_str(), s) {
                TextOrder::Before => {},
                TextOrder::Same => {
                    proof {
                        assert(list[i as int] == s@);
                        assert(list.contains(s@));
                    }
                    return (i, true);
                },
                TextOrder::After => {
                    proof {
                        assert forall|j: int| i <= j < self.items@.len() implies precedes(
                            s@,
                            #[trigger] self.items@[j]@,
                        ) by {
                            if j > i {
                                assert(precedes(list[i as int], list[j]));
                                precedes_is_transitive(s@, list[i as int], list[j]);
                            }
                        }
                        if list.contains(s@) {
                            let j = list.index_of(s@);
                            assert(self.items@[j]@ == s@);
                            precedes_is_irreflexive(s@);
                        }
                    }
                    return (i, false);
                },
            }
            i += 1;
        }
        proof {
            if list.contains(s@) {
                let j = list.index_of(s@);
                assert(self.items@[j]@ == s@);
                precedes_is_irreflexive(s@);
            }
        }
        (i, false)
    }

    /// Whether `s` is in the set.
    pub fn contains(&self, s: &str) -> (yes: bool)
        ensures
            yes == self@.contains(s@),
    {
        self.seek(s).1
    }

    /// Puts `s` into the set. Returns whether it was not there before.
    pub fn insert(&mut self, s: String) -> (added: bool)
        ensures
            final(self)@ == old(self)@.insert(s@),
            added == !old(self)@.contains(s@),
    {
        proof {
            use_type_invariant(&*self);
        }
        let ghost before = texts(self.items@);
        let (at, present) = self.seek(s.as_str());
        if present {
            proof {
                assert(self@.insert(s@) =~= self@);
            }
            return false;
        }
        let mut items: Vec<String> = Vec::new();
        std::mem::swap(&mut self.items, &mut items);
        let ghost older = items@;
        items.insert(at, s);
        proof {
            let after = texts(items@);
            assert(after =~= before.insert(at as int, s@));
            assert forall|i: int, j: int| 0 <= i < j < after.len() implies precedes(
                #[trigger] after[i],
                #[trigger] after[j],
            ) by {
                let a = if i < at { i } else { i - 1 };
                let b = if j < at { j } else { j - 1 };
                if i == at {
                    assert(after[j] == older[b]@);
                } else if j == at {
                    assert(after[i] == older[a]@);
                } else {
                    assert(after[i] == before[a]);
                    assert(after[j] == before[b]);
                }
            }
            assert forall|x: Seq<char>| #[trigger] after.contains(x) == (before.contains(x) || x == s@) by {
                if after.contains(x) {
                    let i = after.index_of(x);
                    if i != at {
                        let a = if i < at { i } else { i - 1 };
                        assert(before[a] == x);
                    }
                }
                if before.contains(x) {
                    let a = before.index_of(x);
                    let i = if a < at { a } else { a + 1 };
                    assert(after[i] == x);
                }
                assert(after[at as int] == s@);
            }
            assert(after.to_set() =~= before.to_set().insert(s@));
        }
        self.items = items;
        true
    }

    /// Takes `s` out of the set. Returns whether it was there.
    pub fn remove(&mut self, s: &str) -> (removed: bool)
        ensures
            final(self)@ == old(self)@.remove(s@),
            removed == old(self)@.contains(s@),
    {
        proof {
            use_type_invariant(&*self);
        }
        let ghost before = texts(self.items@);
        let (at, present) = self.seek(s);
        if !present {
            proof {
                assert(self@.remove(s@) =~= self@);
            }
            return false;
        }
        let mut items: Vec<String> = Vec::new();
        std::mem::swap(&mut self.items, &mut items);
        items.remove(at);
        proof {
            let after = texts(items@);
            assert(after =~= before.remove(at as int));
            assert(before[at as int] == s@);
            assert forall|x: Seq<char>| #[trigger] after.contains(x) == (before.contains(x) && x != s@) by {
                if after.contains(x) {
                    let i = after.index_of(x);
                    let a = if i < at { i } else { i + 1 };
                    assert(before[a] == x);
                    precedes_is_irreflexive(x);
                    if a < at {
                        assert(precedes(before[a], before[at as int]));
                    } else {
                        assert(precedes(before[at as int], before[a]));
                    }
                }
                if before.contains(x) && x != s@ {
                    let a = before.index_of(x);
                    let i = if a < at { a } else { a - 1 };
                    assert(after[i] == x);
                }
            }
            assert(after.to_set() =~= before.to_set().remove(s@));
            assert forall|i: int, j: int| 0 <= i < j < after.len() implies precedes(
                #[trigger] after[i],
                #[trigger] after[j],
            ) by {
                let a = if i < at { i } else { i + 1 };
                let b = if j < at { j } else { j + 1 };
                assert(after[i] == before[a]);
                assert(after[j] == before[b]);
            }
        }
        self.items = items;
        true
    }

    /// The strings of the set in their order.
    pub fn to_vec(&self) -> (list: Vec<String>)
        ensures
            lists_in_order(texts(list@), self@),
    {
        proof {
            use_type_invariant(self);
        }
        copy_texts(&self.items)
    }

    /// The first string of the set.
    pub fn first(&self) -> (first: Option<String>)
        ensures
            first is None <==> self@ == Set::<Seq<char>>::empty(),
            first matches Some(f) ==> self@.contains(f@) && forall|s: Seq<char>| #[trigger]
                self@.contains(s) ==> s == f@ || precedes(f@, s),
    {
        proof {
            use_type_invariant(self);
        }
        let ghost list = texts(self.items@);
        if self.items.len() == 0 {
            proof {
                assert(self@ =~= Set::<Seq<char>>::empty());
            }
            None
        } else {
            proof {
                assert(list[0] == self.items@[0]@);
                assert(list.to_set().contains(list[0]));
                assert forall|s: Seq<char>| #[trigger] self@.contains(s) implies s == list[0] || precedes(
                    list[0],
                    s,
                ) by {
                    let j = list.index_of(s);
                    assert(list[j] == s);
                }
            }
            Some(self.items[0].clone())
        }
    }
}

/// Two strings that begin alike come in the order of the first characters in which they
/// differ, and a string comes before those that continue it.
pub proof fn first_difference_decides(
    start: Seq<char>,
    x: char,
    y: char,
    rest: Seq<char>,
    other: Seq<char>,
)
    ensures
        x < y ==> precedes(start.push(x) + rest, start.push(y) + other),
        y < x ==> !precedes(start.push(x) + rest, start.push(y) + other),
        precedes(start, start.push(x) + rest),
        !precedes(start.push(x) + rest, start),
    decreases start.len(),
{
    let a = start.push(x) + rest;
    let b = start.push(y) + other;
    if start.len() > 0 {
        first_difference_decides(start.drop_first(), x, y, rest, other);
        assert(a.drop_first() =~= start.drop_first().push(x) + rest);
        assert(b.drop_first() =~= start.drop_first().push(y) + other);
        assert(a[0] == start[0] && b[0] == start[0]);
    } else {
        assert(a[0] == x && b[0] == y);
    }
}

/// A listing in order holds what the set holds, and nothing in it comes before what
/// stands before it.
pub proof fn ordered_listings_hold_the_set(
    list: Seq<Seq<char>>,
    set: Set<Seq<char>>,
    item: Seq<char>,
    i: int,
    j: int,
)
    requires
        lists_in_order(list, set),
    ensures
        set.contains(item) <==> list.contains(item),
        0 <= i < j < list.len() ==> precedes(list[i], list[j]) && list[i] != list[j],
{
    assert(list.to_set().contains(item) == list.contains(item));
    if 0 <= i < j < list.len() {
        precedes_is_irreflexive(list[i]);
    }
}

} // verus!
