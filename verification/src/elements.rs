use std::collections::HashMap;
use vstd::prelude::*;
use vstd::set_lib::lemma_map_size;
use vstd::std_specs::iter::IteratorSpec;
use crate::position::Position;

verus! {

/// The code under which a position is filed: the row in the upper 64 bits,
/// the column in the lower 64 bits.
pub open spec fn key_of(position: Position) -> u128 {
    (position.0 as u128 * 0x1_0000_0000_0000_0000u128 + position.1 as u128) as u128
}

/// The position that a code stands for.
pub open spec fn position_of(key: u128) -> Position {
    Position((key / 0x1_0000_0000_0000_0000u128) as usize, (key % 0x1_0000_0000_0000_0000u128) as usize)
}

/// A position and its code determine each other.
pub proof fn lemma_key_round_trip(position: Position)
    ensures
        position_of(key_of(position)) == position,
{
    assert(usize::MAX <= u64::MAX);
}

fn key(position: &Position) -> (k: u128)
    ensures
        k == key_of(*position),
{
    (position.0 as u128) * 0x1_0000_0000_0000_0000u128 + (position.1 as u128)
}

/// What the first `upto` entries of a list store, each entry put in turn.
pub open spec fn entered<V>(entries: Seq<(Position, V)>, upto: nat) -> Map<Position, V>
    decreases upto,
{
    if upto == 0 {
        Map::empty()
    } else {
        entered(entries, (upto - 1) as nat).insert(entries[upto - 1].0, entries[upto - 1].1)
    }
}

/// The list holds every entry of the store once: as many entries as the
/// store has positions, each of them stored with its value, no position
/// twice, and every stored position among them.
pub open spec fn lists<V>(entries: Seq<(Position, V)>, store: Map<Position, V>) -> bool {
    &&& store.dom().finite()
    &&& entries.len() == store.dom().len()
    &&& forall|i: int|
        0 <= i < entries.len() ==> store.contains_key(#[trigger] entries[i].0)
            && store[entries[i].0] == entries[i].1
    &&& forall|i: int, j: int|
        0 <= i < j < entries.len() ==> #[trigger] entries[i].0 != #[trigger] entries[j].0
    &&& forall|p: Position|
        store.contains_key(p) ==> exists|i: int|
            0 <= i < entries.len() && #[trigger] entries[i].0 == p
}

/// A positional store: a finite map from positions to values. A position
/// that is not stored reads as absent.
#[derive(Debug, PartialEq)]
pub struct Elements<V> {
    cells: HashMap<u128, V>,
}

impl<V> View for Elements<V> {
    type V = Map<Position, V>;

    closed spec fn view(&self) -> Map<Position, V> {
        Map::new(
            |position: Position| self.cells@.contains_key(key_of(position)),
            |position: Position| self.cells@[key_of(position)],
        )
    }
}

impl<V> Elements<V> {
    /// Every code in the store stands for a position.
    #[verifier::type_invariant]
    spec fn wf(&self) -> bool {
        forall|k: u128| #[trigger] self.cells@.contains_key(k) ==> key_of(position_of(k)) == k
    }

    proof fn lemma_domain(&self)
        requires
            self.wf(),
        ensures
            self@.dom().finite(),
            self@.dom().len() == self.cells@.dom().len(),
    {
        broadcast use vstd::std_specs::hash::group_hash_axioms;

        let keys = self.cells@.dom();
        let decode = |k: u128| position_of(k);
        assert(vstd::relations::injective_on(decode, keys)) by {
            assert forall|a: u128, b: u128|
                keys.contains(a) && keys.contains(b) && #[trigger] decode(a) == #[trigger] decode(
                    b,
                ) implies a == b by {
                assert(key_of(position_of(a)) == a);
                assert(key_of(position_of(b)) == b);
            }
        }
        assert(keys.map(decode) =~= self@.dom()) by {
            assert forall|p: Position| keys.map(decode).contains(p) <==> self@.dom().contains(
                p,
            ) by {
                if keys.map(decode).contains(p) {
                    let k = choose|k: u128| keys.contains(k) && decode(k) == p;
                    assert(key_of(position_of(k)) == k);
                }
                if self@.dom().contains(p) {
                    lemma_key_round_trip(p);
                    assert(keys.contains(key_of(p)) && decode(key_of(p)) == p);
                }
            }
        }
        lemma_map_size(keys, self@.dom(), decode);
    }

    /// A store that holds nothing.
    pub fn new() -> (r: Self)
        ensures
            r@ == Map::<Position, V>::empty(),
    {
        let r = Elements { cells: HashMap::new() };
        assert(r@ =~= Map::<Position, V>::empty());
        r
    }

    /// The store that the entries describe; of two entries for one
    /// position the later counts.
    pub fn from_entries(entries: &[(Position, V)]) -> (r: Self) where V: Copy
        ensures
            r@ == entered(entries@, entries@.len()),
    {
        let mut store: Elements<V> = Elements::new();
        let mut i: usize = 0;
        while i < entries.len()
            invariant
                i <= entries.len(),
                store@ == entered(entries@, i as nat),
            decreases entries.len() - i,
        {
            let entry = entries[i];
            store.insert(entry.0, entry.1);
            i += 1;
        }
        store
    }

    /// The number of stored positions.
    pub fn len(&self) -> (r: usize)
        ensures
            self@.dom().finite(),
            r == self@.dom().len(),
    {
        proof {
            use_type_invariant(self);
            self.lemma_domain();
        }
        self.cells.len()
    }

    /// The value stored at `position`, if there is one.
    pub fn get(&self, position: &Position) -> (r: Option<&V>)
        ensures
            r.is_some() == self@.contains_key(*position),
            r matches Some(v) ==> *v == self@[*position],
    {
        broadcast use vstd::std_specs::hash::group_hash_axioms;

        let k: u128 = key(position);
        self.cells.get(&k)
    }

    /// Whether a value is stored at `position`.
    pub fn contains(&self, position: &Position) -> (r: bool)
        ensures
            r == self@.contains_key(*position),
    {
        broadcast use vstd::std_specs::hash::group_hash_axioms;

        let k: u128 = key(position);
        self.cells.contains_key(&k)
    }

    /// Stores `value` at `position` and returns what was stored there.
    pub fn insert(&mut self, position: Position, value: V) -> (r: Option<V>)
        ensures
            final(self)@ == old(self)@.insert(position, value),
            r.is_some() == old(self)@.contains_key(position),
            r matches Some(v) ==> v == old(self)@[position],
    {
        broadcast use vstd::std_specs::hash::group_hash_axioms;

        proof {
            use_type_invariant(&*self);
            lemma_key_round_trip(position);
        }
        let mut taken: Elements<V> = Elements::new();
        core::mem::swap(self, &mut taken);
        let Elements { cells } = taken;
        let mut cells = cells;
        let k: u128 = key(&position);
        let r = cells.insert(k, value);
        proof {
            assert forall|q: Position| q != position implies key_of(q) != k by {
                lemma_key_round_trip(q);
            }
        }
        *self = Elements { cells };
        assert(self@ =~= old(self)@.insert(position, value));
        r
    }

    /// Removes what is stored at `position` and returns it.
    pub fn remove(&mut self, position: &Position) -> (r: Option<V>)
        ensures
            final(self)@ == old(self)@.remove(*position),
            r.is_some() == old(self)@.contains_key(*position),
            r matches Some(v) ==> v == old(self)@[*position],
    {
        broadcast use vstd::std_specs::hash::group_hash_axioms;

        proof {
            use_type_invariant(&*self);
            lemma_key_round_trip(*position);
        }
        let mut taken: Elements<V> = Elements::new();
        core::mem::swap(self, &mut taken);
        let Elements { cells } = taken;
        let mut cells = cells;
        let k: u128 = key(position);
        let r = cells.remove(&k);
        proof {
            assert forall|q: Position| q != *position implies key_of(q) != k by {
                lemma_key_round_trip(q);
            }
        }
        *self = Elements { cells };
        assert(self@ =~= old(self)@.remove(*position));
        r
    }

    /// Removes everything.
    pub fn clear(&mut self)
        ensures
            final(self)@ == Map::<Position, V>::empty(),
    {
        *self = Elements::new();
    }

    /// The stored entries, each once, in no particular order.
    pub fn entries(&self) -> (r: Vec<(Position, V)>) where V: Copy
        ensures
            lists(r@, self@),
    {
        broadcast use vstd::std_specs::hash::group_hash_axioms;

        proof {
            use_type_invariant(self);
            self.lemma_domain();
        }
        let ghost listed = self.cells.keys().remaining();
        let mut r: Vec<(Position, V)> = Vec::new();
        for stored in it: self.cells.keys()
            invariant
                self.wf(),
                it.seq() == listed,
                listed == self.cells.keys().remaining(),
                r.len() == it.index(),
                forall|i: int|
                    0 <= i < r.len() ==> (#[trigger] r@[i]).0 == position_of(*listed[i])
                        && self.cells@.contains_key(*listed[i]) && r@[i].1
                        == self.cells@[*listed[i]],
        {
            let k: u128 = *stored;
            assert(listed.unref().to_set().contains(k)) by {
                assert(listed.unref()[it.index()] == k);
            }
            assert(key_of(position_of(k)) == k);
            let position = Position(
                (k / 0x1_0000_0000_0000_0000u128) as usize,
                (k % 0x1_0000_0000_0000_0000u128) as usize,
            );
            match self.cells.get(stored) {
                Some(v) => {
                    r.push((position, *v));
                },
                None => {},
            }
        }
        proof {
            assert forall|i: int| 0 <= i < r.len() implies self@.contains_key(
                #[trigger] r@[i].0,
            ) && self@[r@[i].0] == r@[i].1 by {
                assert(r@[i].0 == position_of(*listed[i]) && self.cells@.contains_key(
                    *listed[i],
                ));
                assert(key_of(position_of(*listed[i])) == *listed[i]);
            }
            assert forall|i: int, j: int| 0 <= i < j < r.len() implies #[trigger] r@[i].0
                != #[trigger] r@[j].0 by {
                assert(r@[i].0 == position_of(*listed[i]) && self.cells@.contains_key(
                    *listed[i],
                ));
                assert(r@[j].0 == position_of(*listed[j]) && self.cells@.contains_key(
                    *listed[j],
                ));
                assert(key_of(position_of(*listed[i])) == *listed[i]);
                assert(key_of(position_of(*listed[j])) == *listed[j]);
                assert(listed[i] != listed[j]);
            }
            assert forall|p: Position| self@.contains_key(p) implies exists|i: int|
                0 <= i < r.len() && #[trigger] r@[i].0 == p by {
                lemma_key_round_trip(p);
                assert(listed.unref().to_set().contains(key_of(p)));
                let i = choose|i: int|
                    0 <= i < listed.unref().len() && listed.unref()[i] == key_of(p);
                assert(r@[i].0 == p);
            }
        }
        r
    }
}

impl<V: Clone> Clone for Elements<V> {
    fn clone(&self) -> (r: Self)
        ensures
            r@ == self@,
    {
        proof {
            use_type_invariant(self);
        }
        Elements { cells: self.cells.clone() }
    }
}

} // verus!
