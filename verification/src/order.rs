//! The order of texts by their code points, and a map from texts kept in that order.

use vstd::prelude::*;
use crate::text::chars_of;

verus! {

/// Whether `left` comes strictly before `right` when both are compared character by character.
pub open spec fn text_less(left: Seq<char>, right: Seq<char>) -> bool
    decreases left.len(),
{
    if right.len() == 0 {
        false
    } else if left.len() == 0 {
        true
    } else if left[0] != right[0] {
        left[0] < right[0]
    } else {
        text_less(left.skip(1), right.skip(1))
    }
}

/// No text comes before itself.
pub proof fn lemma_less_irreflexive(text: Seq<char>)
    ensures
        !text_less(text, text),
    decreases text.len(),
{
    if text.len() > 0 {
        lemma_less_irreflexive(text.skip(1));
    }
}

/// Of two different texts one comes before the other.
pub proof fn lemma_less_total(left: Seq<char>, right: Seq<char>)
    requires
        left != right,
    ensures
        text_less(left, right) || text_less(right, left),
    decreases left.len(),
{
    if left.len() == 0 || right.len() == 0 {
        assert(left.len() != 0 || right.len() != 0) by {
            if left.len() == 0 && right.len() == 0 {
                assert(left =~= right);
            }
        }
    } else if left[0] == right[0] {
        if left.skip(1) == right.skip(1) {
            assert(left =~= seq![left[0]] + left.skip(1));
            assert(right =~= seq![right[0]] + right.skip(1));
        }
        lemma_less_total(left.skip(1), right.skip(1));
    }
}

/// The order is transitive.
pub proof fn lemma_less_transitive(a: Seq<char>, b: Seq<char>, c: Seq<char>)
    requires
        text_less(a, b),
        text_less(b, c),
    ensures
        text_less(a, c),
    decreases a.len(),
{
    if a.len() > 0 && a[0] == b[0] && b[0] == c[0] {
        lemma_less_transitive(a.skip(1), b.skip(1), c.skip(1));
    }
}

/// Whether the first run of characters comes strictly before the second.
pub fn chars_less(left: &[char], right: &[char]) -> (answer: bool)
    ensures
        answer == text_less(left@, right@),
{
    let mut i: usize = 0;
    assert(left@.skip(0) =~= left@);
    assert(right@.skip(0) =~= right@);
    while i < left.len() && i < right.len() && left[i] == right[i]
        invariant
            i <= left@.len(),
            i <= right@.len(),
            text_less(left@, right@) == text_less(left@.skip(i as int), right@.skip(i as int)),
        decreases left@.len() - i,
    {
        assert(left@.skip(i as int).skip(1) =~= left@.skip(i + 1));
        assert(right@.skip(i as int).skip(1) =~= right@.skip(i + 1));
        i = i + 1;
    }
    if i >= right.len() {
        false
    } else if i >= left.len() {
        true
    } else {
        left[i] < right[i]
    }
}

/// Whether the first text comes strictly before the second.
pub fn comes_before(left: &str, right: &str) -> (answer: bool)
    ensures
        answer == text_less(left@, right@),
{
    chars_less(chars_of(left).as_slice(), chars_of(right).as_slice())
}

/// A map from texts to values.
///
/// The keys are kept in strictly increasing order, so each occurs once and is found by halving.
pub struct TextMap<V> {
    keys: Vec<String>,
    values: Vec<V>,
}

impl<V> TextMap<V> {
    /// The keys increase strictly and each has a value.
    pub closed spec fn wf(&self) -> bool {
        &&& self.keys@.len() == self.values@.len()
        &&& forall|i: int, j: int|
            0 <= i < j < self.keys@.len() ==> text_less(
                #[trigger] self.keys@[i]@,
                #[trigger] self.keys@[j]@,
            )
    }

    /// The values by key.
    pub closed spec fn view(&self) -> Map<Seq<char>, V> {
        Map::new(
            |key: Seq<char>| exists|i: int| 0 <= i < self.keys@.len() && self.keys@[i]@ == key,
            |key: Seq<char>|
                {
                    let i = choose|i: int| 0 <= i < self.keys@.len() && self.keys@[i]@ == key;
                    self.values@[i]
                },
        )
    }

    proof fn lemma_position(&self, i: int)
        requires
            self.wf(),
            0 <= i < self.keys@.len(),
        ensures
            self.view().dom().contains(self.keys@[i]@),
            self.view()[self.keys@[i]@] == self.values@[i],
    {
        let key = self.keys@[i]@;
        let k = choose|k: int| 0 <= k < self.keys@.len() && self.keys@[k]@ == key;
        lemma_less_irreflexive(key);
        if k < i {
            assert(text_less(self.keys@[k]@, self.keys@[i]@));
        } else if i < k {
            assert(text_less(self.keys@[i]@, self.keys@[k]@));
        }
    }

    /// A map without entries.
    pub fn new() -> (map: Self)
        ensures
            map.wf(),
            map@ == Map::<Seq<char>, V>::empty(),
    {
        let map = TextMap { keys: Vec::new(), values: Vec::new() };
        assert(map@ =~= Map::<Seq<char>, V>::empty());
        map
    }

    /// The first position whose key does not come before `key`.
    fn lower_bound(&self, key: &str) -> (at: usize)
        requires
            self.wf(),
        ensures
            at <= self.keys@.len(),
            forall|i: int| 0 <= i < at ==> text_less(#[trigger] self.keys@[i]@, key@),
            forall|i: int| at <= i < self.keys@.len() ==> !text_less(#[trigger] self.keys@[i]@, key@),
    {
        let wanted = chars_of(key);
        let mut low: usize = 0;
        let mut high: usize = self.keys.len();
        while low < high
            invariant
                self.wf(),
                wanted@ == key@,
                low <= high <= self.keys@.len(),
                forall|i: int| 0 <= i < low ==> text_less(#[trigger] self.keys@[i]@, key@),
                forall|i: int|
                    high <= i < self.keys@.len() ==> !text_less(#[trigger] self.keys@[i]@, key@),
            decreases high - low,
        {
            let middle: usize = low + (high - low) / 2;
            if chars_less(chars_of(self.keys[middle].as_str()).as_slice(), wanted.as_slice()) {
                proof {
                    assert forall|i: int| 0 <= i < middle + 1 implies text_less(
                        #[trigger] self.keys@[i]@,
                        key@,
                    ) by {
                        if low <= i < middle {
                            lemma_less_transitive(
                                self.keys@[i]@,
                                self.keys@[middle as int]@,
                                key@,
                            );
                        }
                    }
                }
                low = middle + 1;
            } else {
                proof {
                    assert forall|i: int| middle <= i < self.keys@.len() implies !text_less(
                        #[trigger] self.keys@[i]@,
                        key@,
                    ) by {
                        if middle < i && text_less(self.keys@[i]@, key@) {
                            lemma_less_transitive(
                                self.keys@[middle as int]@,
                                self.keys@[i]@,
                                key@,
                            );
                        }
                    }
                }
                high = middle;
            }
        }
        low
    }

    /// The value of `key`, if it has one.
    pub fn get(&self, key: &str) -> (found: Option<&V>)
        requires
            self.wf(),
        ensures
            match found {
                Some(value) => self@.dom().contains(key@) && *value == self@[key@],
                None => !self@.dom().contains(key@),
            },
    {
        let at = self.lower_bound(key);
        if at < self.keys.len() && self.keys[at] == key.to_owned() {
            proof {
                self.lemma_position(at as int);
            }
            Some(&self.values[at])
        } else {
            proof {
                if self@.dom().contains(key@) {
                    let i = choose|i: int| 0 <= i < self.keys@.len() && self.keys@[i]@ == key@;
                    lemma_less_irreflexive(key@);
                    assert(at <= i);
                    if at < i {
                        assert(text_less(self.keys@[at as int]@, self.keys@[i]@));
                    }
                }
            }
            None
        }
    }

    /// The keys in their order.
    pub closed spec fn in_order(&self) -> Seq<Seq<char>> {
        self.keys@.map_values(|key: String| key@)
    }

    /// The keys increase strictly, and they are the keys of the map.
    pub proof fn lemma_in_order(&self)
        requires
            self.wf(),
        ensures
            forall|i: int, j: int|
                0 <= i < j < self.in_order().len() ==> text_less(
                    #[trigger] self.in_order()[i],
                    #[trigger] self.in_order()[j],
                ),
            forall|i: int|
                0 <= i < self.in_order().len() ==> self@.dom().contains(
                    #[trigger] self.in_order()[i],
                ),
            forall|key: Seq<char>| #[trigger] self@.dom().contains(key) ==> self.in_order().contains(key),
    {
        assert forall|i: int, j: int| 0 <= i < j < self.in_order().len() implies text_less(
            #[trigger] self.in_order()[i],
            #[trigger] self.in_order()[j],
        ) by {
            assert(text_less(self.keys@[i]@, self.keys@[j]@));
        }
        assert forall|i: int| 0 <= i < self.in_order().len() implies self@.dom().contains(
            #[trigger] self.in_order()[i],
        ) by {
            self.lemma_position(i);
        }
        assert forall|key: Seq<char>| #[trigger] self@.dom().contains(key) implies self.in_order().contains(
            key,
        ) by {
            let i = choose|i: int| 0 <= i < self.keys@.len() && self.keys@[i]@ == key;
            assert(self.in_order()[i] == key);
        }
    }

    /// How many entries there are.
    pub fn len(&self) -> (count: usize)
        ensures
            count == self.in_order().len(),
    {
        self.keys.len()
    }

    /// The key at a position, and its value.
    pub fn at(&self, i: usize) -> (entry: (&String, &V))
        requires
            self.wf(),
            i < self.in_order().len(),
        ensures
            entry.0@ == self.in_order()[i as int],
            *entry.1 == self@[self.in_order()[i as int]],
    {
        proof {
            self.lemma_position(i as int);
        }
        (&self.keys[i], &self.values[i])
    }

    /// Enters `value` under `key`, in place of what stood there before.
    #[verifier::spinoff_prover]
    pub fn insert(&mut self, key: String, value: V)
        requires
            old(self).wf(),
        ensures
            final(self).wf(),
            final(self)@ == old(self)@.insert(key@, value),
    {
        let at = self.lower_bound(key.as_str());
        let ghost before = *self;
        if at < self.keys.len() && self.keys[at] == key {
            self.values.set(at, value);
            proof {
                assert(self.keys@ == before.keys@);
                assert(self.wf());
                assert forall|k: Seq<char>| before@.dom().contains(k) implies self@[k]
                    == before@.insert(key@, value)[k] by {
                    let i = choose|i: int| 0 <= i < self.keys@.len() && self.keys@[i]@ == k;
                    self.lemma_position(i);
                    before.lemma_position(i);
                    self.lemma_position(at as int);
                }
                before.lemma_position(at as int);
                self.lemma_position(at as int);
                assert(self@ =~= before@.insert(key@, value));
            }
        } else {
            self.keys.insert(at, key);
            self.values.insert(at, value);
            proof {
                let a = at as int;
                assert(self.keys@ =~= before.keys@.insert(a, key));
                assert(self.values@ =~= before.values@.insert(a, value));
                assert forall|i: int, j: int| 0 <= i < j < self.keys@.len() implies text_less(
                    #[trigger] self.keys@[i]@,
                    #[trigger] self.keys@[j]@,
                ) by {
                    if j < a {
                        assert(text_less(before.keys@[i]@, before.keys@[j]@));
                    } else if i > a {
                        assert(text_less(before.keys@[i - 1]@, before.keys@[j - 1]@));
                    } else if i < a && j > a {
                        assert(text_less(before.keys@[i]@, before.keys@[j - 1]@));
                    } else if j == a {
                        assert(text_less(before.keys@[i]@, key@));
                    } else {
                        assert(i == a && j > a);
                        assert(!text_less(before.keys@[j - 1]@, key@));
                        if before.keys@[j - 1]@ == key@ {
                            if j - 1 > a {
                                assert(text_less(before.keys@[a]@, before.keys@[j - 1]@));
                                assert(!text_less(before.keys@[a]@, key@));
                            }
                            assert(false);
                        }
                        lemma_less_total(before.keys@[j - 1]@, key@);
                    }
                }
                assert(self.wf());
                self.lemma_position(a);
                assert forall|k: Seq<char>| #[trigger] before@.dom().contains(k) implies
                    self@.dom().contains(k) && (k != key@ ==> self@[k] == before@[k]) by {
                    let i = choose|i: int| 0 <= i < before.keys@.len() && before.keys@[i]@ == k;
                    before.lemma_position(i);
                    if i < a {
                        self.lemma_position(i);
                    } else {
                        self.lemma_position(i + 1);
                    }
                }
                assert forall|k: Seq<char>| self@.dom().contains(k) && k != key@ implies
                    #[trigger] before@.dom().contains(k) by {
                    let i = choose|i: int| 0 <= i < self.keys@.len() && self.keys@[i]@ == k;
                    assert(i != a);
                    if i < a {
                        before.lemma_position(i);
                    } else {
                        before.lemma_position(i - 1);
                    }
                }
                assert(self@ =~= before@.insert(key@, value));
            }
        }
    }
}

/// Texts are ordered by the first characters in which they differ, by code point, and a text comes
/// before what goes on behind it.
pub proof fn texts_are_ordered_by_their_first_difference(
    front: Seq<char>,
    left: Seq<char>,
    right: Seq<char>,
)
    ensures
        text_less(front + left, front + right) == text_less(left, right),
        left.len() > 0 && right.len() > 0 && left[0] != right[0] ==> text_less(left, right) == (
        (left[0] as int) < (right[0] as int)),
        text_less(Seq::empty(), right) == (right.len() > 0),
        !text_less(left, Seq::empty()),
    decreases front.len(),
{
    if front.len() > 0 {
        texts_are_ordered_by_their_first_difference(front.skip(1), left, right);
        assert((front + left).skip(1) =~= front.skip(1) + left);
        assert((front + right).skip(1) =~= front.skip(1) + right);
        assert((front + left)[0] == (front + right)[0]);
    } else {
        assert(front + left =~= left);
        assert(front + right =~= right);
    }
}

} // verus!
