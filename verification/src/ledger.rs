//! The token ledger: who owns each token, and how many tokens there are.
//!
//! Every change of ownership goes through the owner index, so that the ledger
//! and the index always tell the same story.

use crate::error::Error;
use crate::owner_index::{index_holds, lemma_swap_removed, swap_removed, IndexView, OwnerIndex};
use vstd::hash_map::StringHashMap;
use vstd::prelude::*;
use vstd::string::StringExecFns;

verus! {

/// What a ledger is as a value: the owner of every token, and the sequence of
/// tokens of every owner (empty for an owner that holds none).
pub struct LedgerView {
    /// Token id to owner.
    pub owners: Map<Seq<char>, Seq<char>>,
    /// Owner to its tokens, in index order.
    pub holdings: IndexView,
}

impl LedgerView {
    /// The ledger with nothing in it.
    pub open spec fn empty() -> LedgerView {
        LedgerView {
            owners: Map::empty(),
            holdings: Map::total(|o: Seq<char>| Seq::<Seq<char>>::empty()),
        }
    }

    /// The ledger after `id` was given to `owner`.
    pub open spec fn bound(self, id: Seq<char>, owner: Seq<char>) -> LedgerView {
        LedgerView {
            owners: self.owners.insert(id, owner),
            holdings: self.holdings.insert(owner, self.holdings[owner].push(id)),
        }
    }

    /// The ledger after `id` was taken out of it.
    pub open spec fn unbound(self, id: Seq<char>) -> LedgerView {
        let owner = self.owners[id];
        LedgerView {
            owners: self.owners.remove(id),
            holdings: self.holdings.insert(owner, swap_removed(self.holdings[owner], id)),
        }
    }

    /// The ledger after `id` went from its owner to `recipient`.
    pub open spec fn rebound(self, id: Seq<char>, recipient: Seq<char>) -> LedgerView {
        self.unbound(id).bound(id, recipient)
    }

    /// Ledger and index agree: a token is owned by exactly the owner in whose
    /// sequence it stands, it stands there once, and every owner holds a
    /// sequence.
    pub open spec fn consistent(self) -> bool {
        &&& self.owners.dom().finite()
        &&& forall|o: Seq<char>| #[trigger] self.holdings.contains_key(o)
        &&& forall|o: Seq<char>| (#[trigger] self.holdings[o]).no_duplicates()
        &&& forall|id: Seq<char>| #[trigger]
            self.owners.contains_key(id) ==> self.holdings[self.owners[id]].contains(id)
        &&& forall|o: Seq<char>, i: int|
            0 <= i < self.holdings[o].len() ==> self.owners.contains_key(
                #[trigger] self.holdings[o][i],
            ) && self.owners[self.holdings[o][i]] == o
    }
}

/// The ledger with its index.
pub struct Ledger {
    /// Token id to owner.
    owners: StringHashMap<String>,
    /// The tokens of every owner.
    index: OwnerIndex,
}

impl View for Ledger {
    type V = LedgerView;

    closed spec fn view(&self) -> LedgerView {
        LedgerView {
            owners: Map::new(
                |id: Seq<char>| self.owners@.contains_key(id),
                |id: Seq<char>| self.owners@[id]@,
            ),
            holdings: self.index@,
        }
    }
}

impl Ledger {
    /// The index is well formed, the tokens are finitely many, and a token
    /// stands in the sequence of exactly the owner that the ledger gives it.
    pub closed spec fn wf(&self) -> bool {
        &&& self.index.wf()
        &&& self.owners@.dom().finite()
        &&& forall|id: Seq<char>| #[trigger]
            self.owners@.contains_key(id) ==> self.index@[self.owners@[id]@].contains(id)
        &&& forall|o: Seq<char>, i: int|
            0 <= i < self.index@[o].len() ==> self.owners@.contains_key(
                #[trigger] self.index@[o][i],
            ) && self.owners@[self.index@[o][i]]@ == o
    }

    /// A well-formed ledger is consistent.
    pub proof fn lemma_consistent(&self)
        requires
            self.wf(),
        ensures
            self@.consistent(),
    {
        let v = self@;
        self.index.lemma_valid();
        assert(v.owners.dom() =~= self.owners@.dom());
        assert forall|o: Seq<char>, i: int| 0 <= i < v.holdings[o].len() implies v.owners.contains_key(
            #[trigger] v.holdings[o][i],
        ) && v.owners[v.holdings[o][i]] == o by {
            assert(self.owners@.contains_key(self.index@[o][i]));
        }
    }

    /// The empty ledger.
    pub fn new() -> (r: Ledger)
        ensures
            r.wf(),
            r@ == LedgerView::empty(),
    {
        let r = Ledger { owners: StringHashMap::new(), index: OwnerIndex::new() };
        proof {
            assert(r@.owners =~= LedgerView::empty().owners);
            assert(r@.holdings =~= LedgerView::empty().holdings);
        }
        r
    }

    /// The owner of `id`, if the token exists.
    pub fn owner_of(&self, id: &str) -> (r: Option<String>)
        ensures
            r is Some <==> self@.owners.contains_key(id@),
            r matches Some(o) ==> o@ == self@.owners[id@],
    {
        match self.owners.get(id) {
            Some(o) => Some(o.clone()),
            None => None,
        }
    }

    /// Whether `id` is in the ledger.
    pub fn contains(&self, id: &str) -> (r: bool)
        ensures
            r == self@.owners.contains_key(id@),
    {
        self.owners.contains_key(id)
    }

    /// Whether `id` is in the ledger and owned by `owner`.
    pub fn is_owned_by(&self, id: &str, owner: &str) -> (r: bool)
        ensures
            r == (self@.owners.contains_key(id@) && self@.owners[id@] == owner@),
    {
        match self.owners.get(id) {
            Some(o) => {
                let wanted = String::from_str(owner);
                *o == wanted
            },
            None => false,
        }
    }

    /// The number of tokens in the ledger.
    pub fn total_supply(&self) -> (r: usize)
        requires
            self.wf(),
        ensures
            r == self@.owners.dom().len(),
    {
        proof {
            assert(self@.owners.dom() =~= self.owners@.dom());
        }
        self.owners.len()
    }

    /// The number of tokens that `owner` holds.
    pub fn balance_of(&self, owner: &str) -> (r: usize)
        requires
            self.wf(),
        ensures
            r == self@.holdings[owner@].len(),
    {
        self.index.balance(owner)
    }

    /// The token at position `index` of `owner`'s sequence; none from the
    /// owner's balance on.
    pub fn get_by_position(&self, owner: &str, index: usize) -> (r: Option<String>)
        requires
            self.wf(),
        ensures
            r is Some <==> index < self@.holdings[owner@].len(),
            r matches Some(id) ==> id@ == self@.holdings[owner@][index as int],
    {
        self.index.get_by_position(owner, index)
    }

    /// Gives the new token `id` to `owner`: it is appended to the owner's
    /// sequence and the supply grows by one. An id that is already in the
    /// ledger is refused.
    pub fn bind(&mut self, id: String, owner: &str) -> (r: Result<(), Error>)
        requires
            old(self).wf(),
        ensures
            final(self).wf(),
            r is Ok <==> !old(self)@.owners.contains_key(id@),
            r is Ok ==> final(self)@ == old(self)@.bound(id@, owner@),
            r is Err ==> r == Err::<(), Error>(Error::DuplicateTokenId) && final(self)@ == old(self)@,
    {
        if self.owners.contains_key(id.as_str()) {
            return Err(Error::DuplicateTokenId);
        }
        proof {
            assert(old(self)@.owners.dom() =~= old(self).owners@.dom());
            if index_holds(self.index@, id@) {
                let o = choose|o: Seq<char>| (#[trigger] self.index@[o]).contains(id@);
                let i = choose|i: int| 0 <= i < self.index@[o].len() && self.index@[o][i] == id@;
                assert(self.owners@.contains_key(self.index@[o][i]));
            }
        }
        let added = self.index.append(owner, id.clone());
        assert(added);
        self.owners.insert(id, String::from_str(owner));
        proof {
            let before = old(self).index@;
            let after = self.index@;
            assert forall|t: Seq<char>| #[trigger]
                self.owners@.contains_key(t) implies after[self.owners@[t]@].contains(t) by {
                if t == id@ {
                    assert(after[owner@][before[owner@].len() as int] == id@);
                } else {
                    let o = old(self).owners@[t]@;
                    let i = choose|i: int| 0 <= i < before[o].len() && before[o][i] == t;
                    assert(after[o][i] == t);
                }
            }
            assert forall|o: Seq<char>, i: int| 0 <= i < after[o].len() implies self.owners@.contains_key(
                #[trigger] after[o][i],
            ) && self.owners@[after[o][i]]@ == o by {
                if o == owner@ && i == before[o].len() {
                } else {
                    assert(after[o][i] == before[o][i]);
                    assert(old(self).owners@.contains_key(before[o][i]));
                }
            }
            assert(self@.owners =~= old(self)@.bound(id@, owner@).owners);
        }
        Ok(())
    }

    /// Takes `id` out of the ledger: the last token of its owner's sequence
    /// moves into its position, and the supply shrinks by one. An id that is
    /// not in the ledger is refused.
    pub fn unbind(&mut self, id: &str) -> (r: Result<(), Error>)
        requires
            old(self).wf(),
        ensures
            final(self).wf(),
            r is Ok <==> old(self)@.owners.contains_key(id@),
            r is Ok ==> final(self)@ == old(self)@.unbound(id@),
            r is Err ==> r == Err::<(), Error>(Error::UnknownTokenId) && final(self)@ == old(
                self,
            )@,
    {
        let owner = match self.owners.get(id) {
            Some(o) => o.clone(),
            None => {
                return Err(Error::UnknownTokenId);
            },
        };
        proof {
            assert(old(self)@.owners.dom() =~= old(self).owners@.dom());
            self.index.lemma_valid();
        }
        let removed = self.index.remove(owner.as_str(), id);
        assert(removed);
        self.owners.remove(id);
        proof {
            let before = old(self).index@;
            let after = self.index@;
            lemma_swap_removed(before[owner@], id@);
            assert forall|t: Seq<char>| #[trigger]
                self.owners@.contains_key(t) implies after[self.owners@[t]@].contains(t) by {
                assert(old(self).owners@.contains_key(t));
                assert(before[old(self).owners@[t]@].contains(t));
            }
            assert forall|o: Seq<char>, i: int| 0 <= i < after[o].len() implies self.owners@.contains_key(
                #[trigger] after[o][i],
            ) && self.owners@[after[o][i]]@ == o by {
                let t = after[o][i];
                assert(after[o].contains(t));
                assert(before[o].contains(t));
                let j = choose|j: int| 0 <= j < before[o].len() && before[o][j] == t;
                assert(old(self).owners@.contains_key(before[o][j]));
                if t == id@ {
                    assert(o == owner@);
                }
            }
            assert(self@.owners =~= old(self)@.unbound(id@).owners);
        }
        Ok(())
    }

    /// Moves `id` from its owner to `recipient`: it leaves the old owner's
    /// sequence by swap and is appended to the recipient's. An id that is not
    /// in the ledger is refused.
    pub fn rebind(&mut self, id: &str, recipient: &str) -> (r: Result<(), Error>)
        requires
            old(self).wf(),
        ensures
            final(self).wf(),
            r is Ok <==> old(self)@.owners.contains_key(id@),
            r is Ok ==> final(self)@ == old(self)@.rebound(id@, recipient@),
            r is Err ==> r == Err::<(), Error>(Error::UnknownTokenId) && final(self)@ == old(
                self,
            )@,
    {
        match self.unbind(id) {
            Err(e) => Err(e),
            Ok(()) => {
                proof {
                    assert(self@.owners.dom() =~= self.owners@.dom());
                    assert(old(self)@.owners.dom() =~= old(self).owners@.dom());
                }
                self.bind(String::from_str(id), recipient)
            },
        }
    }
}

} // verus!
