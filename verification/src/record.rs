//! String-to-string records: the shape shared by token metadata and by the
//! flat commission sub-ledger.

use vstd::prelude::*;
use vstd::string::StringExecFns;

verus! {

/// One key with its value.
pub struct Entry {
    key: String,
    value: String,
}

/// A finite mapping from text keys to text values.
///
/// The entries are kept in insertion order; as a value the record is the
/// mapping alone, see [`Record::view`].
pub struct Record {
    entries: Vec<Entry>,
}

/// The mapping that a list of pairs stands for: a later pair overrides an
/// earlier one with the same key.
pub open spec fn pairs_to_map(pairs: Seq<(Seq<char>, Seq<char>)>) -> Map<Seq<char>, Seq<char>>
    decreases pairs.len(),
{
    if pairs.len() == 0 {
        Map::empty()
    } else {
        pairs_to_map(pairs.drop_last()).insert(pairs.last().0, pairs.last().1)
    }
}

/// A key is in the mapping exactly if some pair carries it.
pub proof fn lemma_pairs_domain(pairs: Seq<(Seq<char>, Seq<char>)>, key: Seq<char>)
    ensures
        pairs_to_map(pairs).contains_key(key) <==> exists|i: int|
            0 <= i < pairs.len() && (#[trigger] pairs[i]).0 == key,
    decreases pairs.len(),
{
    if pairs.len() > 0 {
        let front = pairs.drop_last();
        lemma_pairs_domain(front, key);
        if pairs_to_map(pairs).contains_key(key) {
            if pairs.last().0 == key {
                assert(pairs[pairs.len() - 1].0 == key);
            } else {
                let i = choose|i: int| 0 <= i < front.len() && (#[trigger] front[i]).0 == key;
                assert(pairs[i].0 == key);
            }
        }
        if exists|i: int| 0 <= i < pairs.len() && (#[trigger] pairs[i]).0 == key {
            let i = choose|i: int| 0 <= i < pairs.len() && (#[trigger] pairs[i]).0 == key;
            if i < front.len() {
                assert(front[i].0 == key);
            }
        }
    }
}

/// Appending one pair inserts it into the mapping.
pub proof fn lemma_pairs_push(pairs: Seq<(Seq<char>, Seq<char>)>, pair: (Seq<char>, Seq<char>))
    ensures
        pairs_to_map(pairs.push(pair)) == pairs_to_map(pairs).insert(pair.0, pair.1),
{
    assert(pairs.push(pair).drop_last() =~= pairs);
}

/// The mapping of a longer prefix is that of the shorter one with one more
/// insertion.
pub proof fn lemma_pairs_take(pairs: Seq<(Seq<char>, Seq<char>)>, i: int)
    requires
        0 <= i < pairs.len(),
    ensures
        pairs_to_map(pairs.take(i + 1)) == pairs_to_map(pairs.take(i)).insert(
            pairs[i].0,
            pairs[i].1,
        ),
{
    assert(pairs.take(i + 1).drop_last() =~= pairs.take(i));
}

/// The texts of a list of pairs of strings.
pub open spec fn listed(v: Seq<(String, String)>) -> Seq<(Seq<char>, Seq<char>)> {
    v.map_values(|p: (String, String)| (p.0@, p.1@))
}

impl View for Record {
    type V = Map<Seq<char>, Seq<char>>;

    closed spec fn view(&self) -> Map<Seq<char>, Seq<char>> {
        pairs_to_map(self.pairs())
    }
}

impl Record {
    /// The entries as pairs of texts, in storage order.
    pub closed spec fn pairs(&self) -> Seq<(Seq<char>, Seq<char>)> {
        self.entries@.map_values(|e: Entry| (e.key@, e.value@))
    }

    /// The empty record.
    pub fn new() -> (r: Record)
        ensures
            r@ == Map::<Seq<char>, Seq<char>>::empty(),
    {
        let r = Record { entries: Vec::new() };
        assert(r.pairs() =~= Seq::empty());
        r
    }

    /// Whether the record has no key at all.
    pub fn is_empty(&self) -> (r: bool)
        ensures
            r == (self@ == Map::<Seq<char>, Seq<char>>::empty()),
    {
        let r = self.entries.len() == 0;
        proof {
            if r {
                assert(self.pairs() =~= Seq::empty());
            } else {
                let last = self.pairs().last();
                assert(self@.contains_key(last.0));
            }
        }
        r
    }

    /// The value stored under `key`, if there is one.
    pub fn get(&self, key: &str) -> (r: Option<&String>)
        ensures
            match r {
                Some(v) => self@.contains_key(key@) && v@ == self@[key@],
                None => !self@.contains_key(key@),
            },
    {
        let wanted = String::from_str(key);
        let mut i: usize = self.entries.len();
        proof {
            assert(self.pairs().take(i as int) =~= self.pairs());
        }
        while i > 0
            invariant
                i <= self.entries.len(),
                wanted@ == key@,
                self@.contains_key(key@) == pairs_to_map(self.pairs().take(i as int)).contains_key(
                    key@,
                ),
                self@.contains_key(key@) ==> self@[key@] == pairs_to_map(
                    self.pairs().take(i as int),
                )[key@],
            decreases i,
        {
            i = i - 1;
            proof {
                lemma_pairs_take(self.pairs(), i as int);
            }
            if self.entries[i].key == wanted {
                return Some(&self.entries[i].value);
            }
        }
        proof {
            assert(self.pairs().take(0) =~= Seq::empty());
        }
        None
    }

    /// Whether `key` has a value.
    pub fn contains_key(&self, key: &str) -> (r: bool)
        ensures
            r == self@.contains_key(key@),
    {
        self.get(key).is_some()
    }

    /// Drops `key` and its value; a record without the key stays as it is.
    pub fn remove(&mut self, key: &str)
        ensures
            final(self)@ == old(self)@.remove(key@),
    {
        let wanted = String::from_str(key);
        let mut kept: Vec<Entry> = Vec::new();
        let mut i: usize = 0;
        proof {
            assert(self.pairs().take(0) =~= Seq::empty());
            assert(kept@.map_values(|e: Entry| (e.key@, e.value@)) =~= Seq::empty());
            assert(pairs_to_map(Seq::empty()).remove(key@) =~= pairs_to_map(Seq::empty()));
        }
        while i < self.entries.len()
            invariant
                i <= self.entries.len(),
                wanted@ == key@,
                pairs_to_map(kept@.map_values(|e: Entry| (e.key@, e.value@))) == pairs_to_map(
                    self.pairs().take(i as int),
                ).remove(key@),
            decreases self.entries.len() - i,
        {
            proof {
                lemma_pairs_take(self.pairs(), i as int);
            }
            let ghost before = kept@.map_values(|e: Entry| (e.key@, e.value@));
            let ghost front = pairs_to_map(self.pairs().take(i as int));
            if self.entries[i].key == wanted {
                proof {
                    assert(front.insert(key@, self.pairs()[i as int].1).remove(key@) =~= front.remove(
                        key@,
                    ));
                }
            } else {
                let e = Entry {
                    key: self.entries[i].key.clone(),
                    value: self.entries[i].value.clone(),
                };
                kept.push(e);
                proof {
                    let pair = self.pairs()[i as int];
                    assert(kept@.map_values(|e: Entry| (e.key@, e.value@)) =~= before.push(pair));
                    lemma_pairs_push(before, pair);
                    assert(front.insert(pair.0, pair.1).remove(key@) =~= front.remove(key@).insert(
                        pair.0,
                        pair.1,
                    ));
                }
            }
            i = i + 1;
        }
        proof {
            assert(self.pairs().take(i as int) =~= self.pairs());
        }
        self.entries = kept;
    }

    /// Stores `value` under `key`, replacing what was there.
    pub fn insert(&mut self, key: String, value: String)
        ensures
            final(self)@ == old(self)@.insert(key@, value@),
    {
        self.remove(key.as_str());
        let ghost before = self.pairs();
        let ghost pair = (key@, value@);
        self.entries.push(Entry { key, value });
        proof {
            assert(self.pairs() =~= before.push(pair));
            lemma_pairs_push(before, pair);
            assert(old(self)@.remove(pair.0).insert(pair.0, pair.1) =~= old(self)@.insert(
                pair.0,
                pair.1,
            ));
        }
    }

    /// The entries as a list of pairs: read from first to last, with a later
    /// pair overriding an earlier one, they give the record.
    pub fn entries(&self) -> (r: Vec<(String, String)>)
        ensures
            listed(r@) == self.pairs(),
            pairs_to_map(listed(r@)) == self@,
    {
        let mut out: Vec<(String, String)> = Vec::new();
        let mut i: usize = 0;
        while i < self.entries.len()
            invariant
                i <= self.entries.len(),
                listed(out@) == self.pairs().take(i as int),
            decreases self.entries.len() - i,
        {
            let ghost before = listed(out@);
            out.push((self.entries[i].key.clone(), self.entries[i].value.clone()));
            proof {
                assert(listed(out@) =~= before.push(self.pairs()[i as int]));
                assert(self.pairs().take(i + 1) =~= self.pairs().take(i as int).push(
                    self.pairs()[i as int],
                ));
            }
            i = i + 1;
        }
        proof {
            assert(self.pairs().take(i as int) =~= self.pairs());
        }
        out
    }

    /// Whether both records hold the same keys with the same values.
    pub fn equals(&self, other: &Record) -> (r: bool)
        ensures
            r == (self@ == other@),
    {
        let r = self.covered_by(other) && other.covered_by(self);
        proof {
            if r {
                assert(self@ =~= other@);
            }
        }
        r
    }

    /// Whether every key of `self` has the same value in `other`.
    fn covered_by(&self, other: &Record) -> (r: bool)
        ensures
            r == (forall|k: Seq<char>| #[trigger]
                self@.contains_key(k) ==> other@.contains_key(k) && other@[k] == self@[k]),
    {
        let mut i: usize = 0;
        while i < self.entries.len()
            invariant
                i <= self.entries.len(),
                forall|j: int|
                    0 <= j < i ==> other@.contains_key((#[trigger] self.pairs()[j]).0) && other@[self.pairs()[j].0]
                        == self@[self.pairs()[j].0],
            decreases self.entries.len() - i,
        {
            let key = self.entries[i].key.as_str();
            assert(key@ == self.pairs()[i as int].0);
            proof {
                lemma_pairs_domain(self.pairs(), key@);
            }
            let mine = self.get(key);
            let theirs = other.get(key);
            let same = match (mine, theirs) {
                (Some(a), Some(b)) => *a == *b,
                _ => false,
            };
            if !same {
                assert(self@.contains_key(key@));
                return false;
            }
            i = i + 1;
        }
        proof {
            assert forall|k: Seq<char>| #[trigger]
                self@.contains_key(k) implies other@.contains_key(k) && other@[k] == self@[k] by {
                lemma_pairs_domain(self.pairs(), k);
                let j = choose|j: int| 0 <= j < self.pairs().len() && (#[trigger] self.pairs()[j]).0 == k;
                assert(other@.contains_key(self.pairs()[j].0));
            }
        }
        true
    }
}

impl Clone for Record {
    /// A copy with the same keys and values.
    fn clone(&self) -> (r: Record)
        ensures
            r@ == self@,
    {
        let mut entries: Vec<Entry> = Vec::new();
        let mut i: usize = 0;
        while i < self.entries.len()
            invariant
                i <= self.entries.len(),
                entries@.map_values(|e: Entry| (e.key@, e.value@)) == self.pairs().take(i as int),
            decreases self.entries.len() - i,
        {
            let ghost before = entries@.map_values(|e: Entry| (e.key@, e.value@));
            entries.push(
                Entry { key: self.entries[i].key.clone(), value: self.entries[i].value.clone() },
            );
            proof {
                assert(entries@.map_values(|e: Entry| (e.key@, e.value@)) =~= before.push(
                    self.pairs()[i as int],
                ));
                assert(self.pairs().take(i + 1) =~= self.pairs().take(i as int).push(
                    self.pairs()[i as int],
                ));
            }
            i = i + 1;
        }
        proof {
            assert(self.pairs().take(i as int) =~= self.pairs());
        }
        Record { entries }
    }
}

} // verus!
