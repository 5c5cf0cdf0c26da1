//! The owner index: for every owner the tokens it holds, as a dense sequence.
//!
//! A token is appended at the end of its owner's sequence. A removal moves the
//! last token of the sequence into the vacated position, so positions below
//! the balance are always filled, and the position of the moved token
//! changes. Both take a constant number of map and vector operations.

use vstd::hash_map::StringHashMap;
use vstd::prelude::*;
use vstd::string::StringExecFns;

verus! {

/// The index as a value: the sequence of every owner, empty for an owner that
/// holds nothing.
pub type IndexView = Map<Seq<char>, Seq<Seq<char>>>;

/// A sequence after the removal of `id` by swap: the last element takes the
/// place of `id`, and the sequence is one shorter.
pub open spec fn swap_removed(s: Seq<Seq<char>>, id: Seq<char>) -> Seq<Seq<char>> {
    if s.contains(id) {
        s.update(s.index_of(id), s.last()).drop_last()
    } else {
        s
    }
}

/// Whether some owner holds `id`.
pub open spec fn index_holds(v: IndexView, id: Seq<char>) -> bool {
    exists|o: Seq<char>| (#[trigger] v[o]).contains(id)
}

/// Every owner has a sequence, no sequence names a token twice, and no token
/// stands in the sequences of two owners.
pub open spec fn index_valid(v: IndexView) -> bool {
    &&& forall|o: Seq<char>| #[trigger] v.contains_key(o)
    &&& forall|o: Seq<char>| (#[trigger] v[o]).no_duplicates()
    &&& forall|o1: Seq<char>, o2: Seq<char>, id: Seq<char>|
        #![trigger v[o1].contains(id), v[o2].contains(id)]
        v[o1].contains(id) && v[o2].contains(id) ==> o1 == o2
}

/// A removal by swap from a sequence without repetition takes out `id` and
/// nothing else, and leaves no repetition.
pub proof fn lemma_swap_removed(s: Seq<Seq<char>>, id: Seq<char>)
    requires
        s.no_duplicates(),
        s.contains(id),
    ensures
        swap_removed(s, id).len() == s.len() - 1,
        swap_removed(s, id).no_duplicates(),
        forall|t: Seq<char>| swap_removed(s, id).contains(t) <==> (s.contains(t) && t != id),
{
    let at = s.index_of(id);
    let out = swap_removed(s, id);
    let last = s.len() - 1;
    assert forall|t: Seq<char>| out.contains(t) <==> (s.contains(t) && t != id) by {
        if out.contains(t) {
            let j = choose|j: int| 0 <= j < out.len() && out[j] == t;
            if j == at {
                assert(s[last] == t);
            } else {
                assert(s[j] == t);
            }
        }
        if s.contains(t) && t != id {
            let j = choose|j: int| 0 <= j < s.len() && s[j] == t;
            if j == last {
                assert(out[at] == t);
            } else {
                assert(out[j] == t);
            }
        }
    }
}

/// The owner index.
pub struct OwnerIndex {
    /// Owner to the number of its row.
    slots: StringHashMap<usize>,
    /// Row number to owner.
    names: Vec<String>,
    /// One row of token ids per owner that ever held a token.
    rows: Vec<Vec<String>>,
    /// Token id to the row that holds it.
    homes: StringHashMap<usize>,
    /// Token id to its position in that row.
    places: StringHashMap<usize>,
}

impl View for OwnerIndex {
    type V = IndexView;

    closed spec fn view(&self) -> IndexView {
        Map::total(|o: Seq<char>| self.sequence(o))
    }
}

impl OwnerIndex {
    /// The token id at place `i` of row `r`.
    closed spec fn cell(&self, r: int, i: int) -> Seq<char> {
        self.rows@[r]@[i]@
    }

    /// The tokens of `owner`, in order.
    closed spec fn sequence(&self, owner: Seq<char>) -> Seq<Seq<char>> {
        if self.slots@.contains_key(owner) {
            self.rows@[self.slots@[owner] as int]@.map_values(|s: String| s@)
        } else {
            Seq::empty()
        }
    }

    /// The maps and the rows describe one another.
    pub closed spec fn wf(&self) -> bool {
        &&& self.names.len() == self.rows.len()
        &&& forall|o: Seq<char>| #[trigger]
            self.slots@.contains_key(o) ==> self.slots@[o] < self.rows.len()
                && self.names@[self.slots@[o] as int]@ == o
        &&& forall|r: int|
            0 <= r < self.rows.len() ==> self.slots@.contains_key((#[trigger] self.names@[r])@)
                && self.slots@[self.names@[r]@] == r
        &&& self.homes@.dom() =~= self.places@.dom()
        &&& forall|id: Seq<char>| #[trigger]
            self.homes@.contains_key(id) ==> {
                &&& self.homes@[id] < self.rows.len()
                &&& self.places@[id] < self.rows@[self.homes@[id] as int].len()
                &&& self.cell(self.homes@[id] as int, self.places@[id] as int) == id
            }
        &&& forall|r: int, i: int|
            0 <= r < self.rows.len() && 0 <= i < self.rows@[r].len() ==> {
                &&& self.homes@.contains_key(#[trigger] self.cell(r, i))
                &&& self.homes@[self.cell(r, i)] == r
                &&& self.places@[self.cell(r, i)] == i
            }
    }

    /// Whether the index knows `id`.
    closed spec fn knows(&self, id: Seq<char>) -> bool {
        self.homes@.contains_key(id)
    }

    /// The index knows exactly the tokens that some owner holds.
    proof fn lemma_knows(&self, id: Seq<char>)
        requires
            self.wf(),
        ensures
            self.knows(id) <==> index_holds(self@, id),
            self.knows(id) ==> self@[self.names@[self.homes@[id] as int]@].contains(id),
    {
        if self.knows(id) {
            let r = self.homes@[id] as int;
            let i = self.places@[id] as int;
            let o = self.names@[r]@;
            assert(self.cell(r, i) == id);
            assert(self.sequence(o)[i] == id);
            assert(self@[o].contains(id));
        }
        if index_holds(self@, id) {
            let o = choose|o: Seq<char>| (#[trigger] self@[o]).contains(id);
            let s = self.sequence(o);
            let i = choose|i: int| 0 <= i < s.len() && s[i] == id;
            let r = self.slots@[o] as int;
            assert(self.cell(r, i) == id);
        }
    }

    /// A well-formed index is valid.
    pub proof fn lemma_valid(&self)
        requires
            self.wf(),
        ensures
            index_valid(self@),
    {
        let v = self@;
        assert forall|o: Seq<char>| (#[trigger] v[o]).no_duplicates() by {
            let s = v[o];
            assert forall|i: int, j: int| 0 <= i < s.len() && 0 <= j < s.len() && i != j implies s[i]
                != s[j] by {
                let r = self.slots@[o] as int;
                assert(s[i] == self.cell(r, i));
                assert(s[j] == self.cell(r, j));
            }
        }
        assert forall|o1: Seq<char>, o2: Seq<char>, id: Seq<char>|
            #![trigger v[o1].contains(id), v[o2].contains(id)]
            v[o1].contains(id) && v[o2].contains(id) implies o1 == o2 by {
            let s1 = v[o1];
            let s2 = v[o2];
            let i1 = choose|i: int| 0 <= i < s1.len() && s1[i] == id;
            let i2 = choose|i: int| 0 <= i < s2.len() && s2[i] == id;
            let r1 = self.slots@[o1] as int;
            let r2 = self.slots@[o2] as int;
            assert(self.cell(r1, i1) == id);
            assert(self.cell(r2, i2) == id);
        }
    }

    /// The index in which nobody holds anything.
    pub fn new() -> (r: OwnerIndex)
        ensures
            r.wf(),
            r@ == Map::total(|o: Seq<char>| Seq::<Seq<char>>::empty()),
    {
        let r = OwnerIndex {
            slots: StringHashMap::new(),
            names: Vec::new(),
            rows: Vec::new(),
            homes: StringHashMap::new(),
            places: StringHashMap::new(),
        };
        assert(r@ =~= Map::total(|o: Seq<char>| Seq::<Seq<char>>::empty()));
        r
    }

    /// The number of tokens that `owner` holds.
    pub fn balance(&self, owner: &str) -> (r: usize)
        requires
            self.wf(),
        ensures
            r == self@[owner@].len(),
    {
        match self.slots.get(owner) {
            Some(slot) => self.rows[*slot].len(),
            None => 0,
        }
    }

    /// The token at position `index` of `owner`'s sequence; none from the
    /// owner's balance on.
    pub fn get_by_position(&self, owner: &str, index: usize) -> (r: Option<String>)
        requires
            self.wf(),
        ensures
            r is Some <==> index < self@[owner@].len(),
            r matches Some(id) ==> id@ == self@[owner@][index as int],
    {
        match self.slots.get(owner) {
            Some(slot) => {
                if index < self.rows[*slot].len() {
                    Some(self.rows[*slot][index].clone())
                } else {
                    None
                }
            },
            None => None,
        }
    }

    /// The row of `owner`, made if the owner had none.
    fn slot_for(&mut self, owner: &str) -> (slot: usize)
        requires
            old(self).wf(),
        ensures
            final(self).wf(),
            final(self)@ == old(self)@,
            final(self).homes == old(self).homes,
            final(self).places == old(self).places,
            final(self).slots@.contains_key(owner@),
            final(self).slots@[owner@] == slot,
    {
        match self.slots.get(owner) {
            Some(slot) => *slot,
            None => {
                let slot = self.rows.len();
                self.rows.push(Vec::new());
                self.names.push(String::from_str(owner));
                self.slots.insert(String::from_str(owner), slot);
                proof {
                    assert forall|r: int, i: int|
                        0 <= r < self.rows.len() && 0 <= i < self.rows@[r].len() implies {
                        &&& self.homes@.contains_key(#[trigger] self.cell(r, i))
                        &&& self.homes@[self.cell(r, i)] == r
                        &&& self.places@[self.cell(r, i)] == i
                    } by {
                        assert(self.cell(r, i) == old(self).cell(r, i));
                    }
                    assert forall|id: Seq<char>| #[trigger]
                        self.homes@.contains_key(id) implies {
                        &&& self.homes@[id] < self.rows.len()
                        &&& self.places@[id] < self.rows@[self.homes@[id] as int].len()
                        &&& self.cell(self.homes@[id] as int, self.places@[id] as int) == id
                    } by {
                        let r = self.homes@[id] as int;
                        let i = self.places@[id] as int;
                        assert(old(self).cell(r, i) == id);
                        assert(self.cell(r, i) == old(self).cell(r, i));
                    }
                    assert forall|r: int| 0 <= r < self.rows.len() implies self.slots@.contains_key(
                        (#[trigger] self.names@[r])@,
                    ) && self.slots@[self.names@[r]@] == r by {
                        if r < slot {
                            assert(self.names@[r] == old(self).names@[r]);
                            assert(old(self).slots@.contains_key(old(self).names@[r]@));
                        }
                    }
                    assert forall|o: Seq<char>| self.sequence(o) == old(self).sequence(o) by {
                        if o == owner@ {
                            assert(self.sequence(o) =~= Seq::empty());
                        }
                    }
                    assert(self@ =~= old(self)@);
                }
                slot
            },
        }
    }

    /// Adds `id` at the end of `owner`'s sequence, unless some owner holds it
    /// already; says whether it was added.
    pub fn append(&mut self, owner: &str, id: String) -> (r: bool)
        requires
            old(self).wf(),
        ensures
            final(self).wf(),
            r == !index_holds(old(self)@, id@),
            r ==> final(self)@ == old(self)@.insert(owner@, old(self)@[owner@].push(id@)),
            !r ==> final(self)@ == old(self)@,
    {
        proof {
            self.lemma_knows(id@);
        }
        if self.homes.contains_key(id.as_str()) {
            return false;
        }
        let slot = self.slot_for(owner);
        let ghost mid = *self;
        let pos = self.rows[slot].len();
        self.rows[slot].push(id.clone());
        self.places.insert(id.clone(), pos);
        self.homes.insert(id, slot);
        proof {
            assert forall|r: int, i: int|
                0 <= r < self.rows.len() && 0 <= i < self.rows@[r].len() implies {
                &&& self.homes@.contains_key(#[trigger] self.cell(r, i))
                &&& self.homes@[self.cell(r, i)] == r
                &&& self.places@[self.cell(r, i)] == i
            } by {
                if r == slot && i == pos {
                    assert(self.cell(r, i) == id@);
                } else {
                    assert(self.cell(r, i) == mid.cell(r, i));
                    assert(mid.homes@.contains_key(mid.cell(r, i)));
                }
            }
            assert forall|t: Seq<char>| #[trigger]
                self.homes@.contains_key(t) implies {
                &&& self.homes@[t] < self.rows.len()
                &&& self.places@[t] < self.rows@[self.homes@[t] as int].len()
                &&& self.cell(self.homes@[t] as int, self.places@[t] as int) == t
            } by {
                if t == id@ {
                    assert(self.cell(slot as int, pos as int) == id@);
                } else {
                    assert(mid.homes@.contains_key(t));
                    let r = mid.homes@[t] as int;
                    let i = mid.places@[t] as int;
                    assert(mid.cell(r, i) == t);
                    assert(self.cell(r, i) == mid.cell(r, i));
                }
            }
            assert(self.wf());
            let target = old(self)@.insert(owner@, old(self)@[owner@].push(id@));
            assert forall|o: Seq<char>| self.sequence(o) == target[o] by {
                if o == owner@ {
                    assert(self.sequence(o) =~= mid.sequence(o).push(id@));
                } else {
                    assert(self.sequence(o) =~= mid.sequence(o));
                }
            }
            assert(self@ =~= target);
        }
        true
    }

    /// Takes `id` out of `owner`'s sequence by swap, if it stands there; says
    /// whether it did.
    pub fn remove(&mut self, owner: &str, id: &str) -> (r: bool)
        requires
            old(self).wf(),
        ensures
            final(self).wf(),
            r == old(self)@[owner@].contains(id@),
            r ==> final(self)@ == old(self)@.insert(owner@, swap_removed(old(self)@[owner@], id@)),
            !r ==> final(self)@ == old(self)@,
    {
        let ghost held = self.sequence(owner@);
        let slot = match self.slots.get(owner) {
            Some(s) => *s,
            None => {
                return false;
            },
        };
        let home = match self.homes.get(id) {
            Some(h) => *h,
            None => {
                proof {
                    if held.contains(id@) {
                        let i = choose|i: int| 0 <= i < held.len() && held[i] == id@;
                        assert(self.cell(slot as int, i) == id@);
                    }
                }
                return false;
            },
        };
        if home != slot {
            proof {
                if held.contains(id@) {
                    let i = choose|i: int| 0 <= i < held.len() && held[i] == id@;
                    assert(self.cell(slot as int, i) == id@);
                }
            }
            return false;
        }
        proof {
            assert(old(self).places@.dom().contains(id@));
        }
        let pos = *self.places.get(id).unwrap();
        let last = self.rows[slot].len() - 1;
        let ghost moved = self.cell(slot as int, last as int);
        assert(old(self).cell(slot as int, pos as int) == id@);
        assert(old(self).homes@.contains_key(moved));
        assert(held[pos as int] == id@);
        if pos != last {
            let mover = self.rows[slot][last].clone();
            self.places.insert(mover, pos);
        }
        self.rows[slot].swap_remove(pos);
        self.places.remove(id);
        self.homes.remove(id);
        proof {
            let before = *old(self);
            assert forall|r: int, i: int|
                0 <= r < self.rows.len() && 0 <= i < self.rows@[r].len() implies {
                &&& self.homes@.contains_key(#[trigger] self.cell(r, i))
                &&& self.homes@[self.cell(r, i)] == r
                &&& self.places@[self.cell(r, i)] == i
            } by {
                if r == slot && i == pos {
                    assert(self.cell(r, i) == moved);
                    assert(before.cell(r, last as int) == moved);
                } else {
                    assert(self.cell(r, i) == before.cell(r, i));
                    assert(before.homes@.contains_key(before.cell(r, i)));
                }
            }
            assert forall|t: Seq<char>| #[trigger]
                self.homes@.contains_key(t) implies {
                &&& self.homes@[t] < self.rows.len()
                &&& self.places@[t] < self.rows@[self.homes@[t] as int].len()
                &&& self.cell(self.homes@[t] as int, self.places@[t] as int) == t
            } by {
                assert(before.homes@.contains_key(t));
                let r = before.homes@[t] as int;
                let i = before.places@[t] as int;
                assert(before.cell(r, i) == t);
                if r == slot && i == last {
                    assert(t == moved);
                    assert(self.cell(r, pos as int) == moved);
                } else {
                    assert(self.cell(r, i) == before.cell(r, i));
                }
            }
            assert(self.wf());
            assert(held.contains(id@));
            let found = held.index_of(id@);
            assert(held[found] == before.cell(slot as int, found));
            assert(found == pos);
            let target = old(self)@.insert(owner@, swap_removed(held, id@));
            assert forall|o: Seq<char>| self.sequence(o) == target[o] by {
                if o == owner@ {
                    assert(self.sequence(o) =~= held.update(pos as int, held.last()).drop_last());
                } else {
                    assert(self.sequence(o) =~= before.sequence(o));
                }
            }
            assert(self@ =~= target);
        }
        true
    }
}

} // verus!
