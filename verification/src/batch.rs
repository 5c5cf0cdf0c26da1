//! Lists of token ids and of records as they come in with a batch.

use crate::ledger::Ledger;
use crate::record::Record;
use vstd::hash_map::StringHashMap;
use vstd::prelude::*;

verus! {

/// The texts of a list of strings.
pub open spec fn texts(v: Seq<String>) -> Seq<Seq<char>> {
    v.map_values(|s: String| s@)
}

/// The mappings of a list of records.
pub open spec fn mappings(v: Seq<Record>) -> Seq<Map<Seq<char>, Seq<char>>> {
    v.map_values(|r: Record| r@)
}

/// The texts of a list of strings that may be absent.
pub open spec fn option_texts(v: Option<Vec<String>>) -> Option<Seq<Seq<char>>> {
    match v {
        Some(ids) => Some(texts(ids@)),
        None => None,
    }
}

/// Whether no id of the list is in the ledger.
pub open spec fn none_bound(owners: Map<Seq<char>, Seq<char>>, ids: Seq<Seq<char>>) -> bool {
    forall|i: int| 0 <= i < ids.len() ==> !owners.contains_key(#[trigger] ids[i])
}

/// Whether every id of the list is in the ledger.
pub open spec fn all_bound(owners: Map<Seq<char>, Seq<char>>, ids: Seq<Seq<char>>) -> bool {
    forall|i: int| 0 <= i < ids.len() ==> owners.contains_key(#[trigger] ids[i])
}

/// Whether every id of the list is in the ledger and owned by `owner`.
pub open spec fn all_owned(
    owners: Map<Seq<char>, Seq<char>>,
    ids: Seq<Seq<char>>,
    owner: Seq<char>,
) -> bool {
    forall|i: int|
        0 <= i < ids.len() ==> owners.contains_key(#[trigger] ids[i]) && owners[ids[i]] == owner
}

/// Whether no id occurs twice in the list.
pub fn distinct(ids: &Vec<String>) -> (r: bool)
    ensures
        r == texts(ids@).no_duplicates(),
{
    let mut seen: StringHashMap<bool> = StringHashMap::new();
    let mut i: usize = 0;
    while i < ids.len()
        invariant
            i <= ids.len(),
            forall|k: Seq<char>| #[trigger]
                seen@.contains_key(k) <==> exists|j: int| 0 <= j < i && (#[trigger] ids@[j])@ == k,
            forall|a: int, b: int|
                0 <= a < b < i ==> (#[trigger] ids@[a])@ != (#[trigger] ids@[b])@,
        decreases ids.len() - i,
    {
        if seen.contains_key(ids[i].as_str()) {
            proof {
                let j = choose|j: int| 0 <= j < i && (#[trigger] ids@[j])@ == ids@[i as int]@;
                assert(texts(ids@)[j] == texts(ids@)[i as int]);
            }
            return false;
        }
        proof {
            assert forall|a: int| 0 <= a < i implies (#[trigger] ids@[a])@ != ids@[i as int]@ by {
                if ids@[a]@ == ids@[i as int]@ {
                    assert(seen@.contains_key(ids@[a]@));
                }
            }
        }
        let ghost before = seen@;
        seen.insert(ids[i].clone(), true);
        proof {
            assert forall|k: Seq<char>| #[trigger]
                seen@.contains_key(k) <==> exists|j: int|
                    0 <= j < i + 1 && (#[trigger] ids@[j])@ == k by {
                if seen@.contains_key(k) {
                    if k == ids@[i as int]@ {
                    } else {
                        assert(before.contains_key(k));
                        let j = choose|j: int| 0 <= j < i && (#[trigger] ids@[j])@ == k;
                        assert(0 <= j < i + 1 && ids@[j]@ == k);
                    }
                }
                if exists|j: int| 0 <= j < i + 1 && (#[trigger] ids@[j])@ == k {
                    let j = choose|j: int| 0 <= j < i + 1 && (#[trigger] ids@[j])@ == k;
                    if j < i {
                        assert(before.contains_key(k));
                    }
                }
            }
        }
        i = i + 1;
    }
    proof {
        let t = texts(ids@);
        assert forall|a: int, b: int| 0 <= a < t.len() && 0 <= b < t.len() && a != b implies t[a]
            != t[b] by {
            if a < b {
                assert(ids@[a]@ != ids@[b]@);
            } else {
                assert(ids@[b]@ != ids@[a]@);
            }
        }
    }
    true
}

/// Whether no id of the list is in the ledger.
pub fn holds_none(ledger: &Ledger, ids: &Vec<String>) -> (r: bool)
    ensures
        r == none_bound(ledger@.owners, texts(ids@)),
{
    let mut i: usize = 0;
    while i < ids.len()
        invariant
            i <= ids.len(),
            forall|j: int| 0 <= j < i ==> !ledger@.owners.contains_key(#[trigger] texts(ids@)[j]),
        decreases ids.len() - i,
    {
        if ledger.contains(ids[i].as_str()) {
            assert(ledger@.owners.contains_key(texts(ids@)[i as int]));
            return false;
        }
        i = i + 1;
    }
    true
}

/// Whether every id of the list is in the ledger.
pub fn holds_all(ledger: &Ledger, ids: &Vec<String>) -> (r: bool)
    ensures
        r == all_bound(ledger@.owners, texts(ids@)),
{
    let mut i: usize = 0;
    while i < ids.len()
        invariant
            i <= ids.len(),
            forall|j: int| 0 <= j < i ==> ledger@.owners.contains_key(#[trigger] texts(ids@)[j]),
        decreases ids.len() - i,
    {
        if !ledger.contains(ids[i].as_str()) {
            assert(!ledger@.owners.contains_key(texts(ids@)[i as int]));
            return false;
        }
        i = i + 1;
    }
    true
}

/// Whether every id of the list is in the ledger and owned by `owner`.
pub fn holds_all_for(ledger: &Ledger, ids: &Vec<String>, owner: &str) -> (r: bool)
    ensures
        r == all_owned(ledger@.owners, texts(ids@), owner@),
{
    let mut i: usize = 0;
    while i < ids.len()
        invariant
            i <= ids.len(),
            forall|j: int|
                0 <= j < i ==> ledger@.owners.contains_key(#[trigger] texts(ids@)[j])
                    && ledger@.owners[texts(ids@)[j]] == owner@,
        decreases ids.len() - i,
    {
        if !ledger.is_owned_by(ids[i].as_str(), owner) {
            assert(!(ledger@.owners.contains_key(texts(ids@)[i as int])
                && ledger@.owners[texts(ids@)[i as int]] == owner@));
            return false;
        }
        i = i + 1;
    }
    true
}

} // verus!
