//! Per-token attribute records: the plain registry used for metadata, and the
//! commission registry with its changes by property.

use crate::error::Error;
use crate::ledger::Ledger;
use crate::record::Record;
use vstd::hash_map::StringHashMap;
use vstd::prelude::*;
use vstd::string::StringExecFns;

verus! {

/// A record of free-form metadata.
pub type Meta = Record;

/// A commission record: for each property `p` the keys `p_account` and
/// `p_rate`.
pub type Commission = Record;

/// A registry as a value: token id to record.
pub type RegistryView = Map<Seq<char>, Map<Seq<char>, Seq<char>>>;

/// One record per token id.
pub struct Attributes {
    records: StringHashMap<Record>,
}

impl View for Attributes {
    type V = RegistryView;

    closed spec fn view(&self) -> RegistryView {
        Map::new(
            |id: Seq<char>| self.records@.contains_key(id),
            |id: Seq<char>| self.records@[id]@,
        )
    }
}

impl Attributes {
    /// A registry without records.
    pub fn instance() -> (r: Attributes)
        ensures
            r@ == RegistryView::empty(),
    {
        let r = Attributes { records: StringHashMap::new() };
        assert(r@ =~= Map::empty());
        r
    }

    /// Starts over without records.
    pub fn init(&mut self)
        ensures
            final(self)@ == RegistryView::empty(),
    {
        self.records.clear();
        assert(self@ =~= Map::empty());
    }

    /// A copy of the record of `key`, if it has one.
    pub fn get(&self, key: &str) -> (r: Option<Record>)
        ensures
            r is Some <==> self@.contains_key(key@),
            r matches Some(rec) ==> rec@ == self@[key@],
    {
        match self.records.get(key) {
            Some(rec) => Some(rec.clone()),
            None => None,
        }
    }

    /// Stores `value` as the record of `key`, in place of any earlier one.
    pub fn set(&mut self, key: &str, value: Record)
        ensures
            final(self)@ == old(self)@.insert(key@, value@),
    {
        self.records.insert(String::from_str(key), value);
        assert(self@ =~= old(self)@.insert(key@, value@));
    }

    /// Drops the record of `key`, if it has one.
    pub fn remove(&mut self, key: &str)
        ensures
            final(self)@ == old(self)@.remove(key@),
    {
        self.records.remove(key);
        assert(self@ =~= old(self)@.remove(key@));
    }
}

/// How a commission property is to be changed.
#[derive(Clone, Copy, Debug, PartialEq, Eq, Structural)]
pub enum Mode {
    /// Write the entry, whatever was there.
    Add,
    /// Write the entry; account and rate must not be empty.
    Update,
    /// Drop the entry, if there is one.
    Delete,
}

/// The mode that a word names: `ADD`, `UPDATE` or `DELETE`, and no other.
pub open spec fn mode_of(word: Seq<char>) -> Option<Mode> {
    if word == "ADD"@ {
        Some(Mode::Add)
    } else if word == "UPDATE"@ {
        Some(Mode::Update)
    } else if word == "DELETE"@ {
        Some(Mode::Delete)
    } else {
        None
    }
}

/// The key under which the account of `property` is stored.
pub open spec fn account_key(property: Seq<char>) -> Seq<char> {
    property + "_account"@
}

/// The key under which the rate of `property` is stored.
pub open spec fn rate_key(property: Seq<char>) -> Seq<char> {
    property + "_rate"@
}

/// Whether a change is refused, and why: an unknown mode, or an update with
/// an empty account or rate.
pub open spec fn change_refused(word: Seq<char>, account: Seq<char>, rate: Seq<char>) -> bool {
    match mode_of(word) {
        None => true,
        Some(Mode::Update) => account.len() == 0 || rate.len() == 0,
        Some(_) => false,
    }
}

/// A commission record after a change that is not refused.
pub open spec fn changed(
    record: Map<Seq<char>, Seq<char>>,
    property: Seq<char>,
    mode: Mode,
    account: Seq<char>,
    rate: Seq<char>,
) -> Map<Seq<char>, Seq<char>> {
    match mode {
        Mode::Delete => record.remove(account_key(property)).remove(rate_key(property)),
        _ => record.insert(account_key(property), account).insert(rate_key(property), rate),
    }
}

/// The record of `id` in a registry, empty where it has none.
pub open spec fn record_or_empty(registry: RegistryView, id: Seq<char>) -> Map<
    Seq<char>,
    Seq<char>,
> {
    if registry.contains_key(id) {
        registry[id]
    } else {
        Map::empty()
    }
}

impl Mode {
    /// Reads a mode from its word.
    pub fn parse(word: &str) -> (r: Option<Mode>)
        ensures
            r == mode_of(word@),
    {
        let w = String::from_str(word);
        if w == String::from_str("ADD") {
            Some(Mode::Add)
        } else if w == String::from_str("UPDATE") {
            Some(Mode::Update)
        } else if w == String::from_str("DELETE") {
            Some(Mode::Delete)
        } else {
            None
        }
    }
}

/// The commission registry.
pub struct Commissions {
    dict: Attributes,
}

impl View for Commissions {
    type V = RegistryView;

    closed spec fn view(&self) -> RegistryView {
        self.dict@
    }
}

impl Commissions {
    /// A registry without records.
    pub fn instance() -> (r: Commissions)
        ensures
            r@ == RegistryView::empty(),
    {
        Commissions { dict: Attributes::instance() }
    }

    /// Starts over without records.
    pub fn init(&mut self)
        ensures
            final(self)@ == RegistryView::empty(),
    {
        self.dict.init();
    }

    /// A copy of the commission record of `key`, if it has one.
    pub fn get(&self, key: &str) -> (r: Option<Commission>)
        ensures
            r is Some <==> self@.contains_key(key@),
            r matches Some(rec) ==> rec@ == self@[key@],
    {
        self.dict.get(key)
    }

    /// Stores `value` as the commission record of `key`.
    pub fn set(&mut self, key: &str, value: Commission)
        ensures
            final(self)@ == old(self)@.insert(key@, value@),
    {
        self.dict.set(key, value);
    }

    /// Drops the commission record of `key`, if it has one.
    pub fn remove(&mut self, key: &str)
        ensures
            final(self)@ == old(self)@.remove(key@),
    {
        self.dict.remove(key);
    }

    /// Changes one property of the commission record of token `id`.
    ///
    /// The token must be in `ledger`, else the call is refused as
    /// `UnknownTokenId`. An unknown mode, and an update with an empty account
    /// or rate, are refused as `InvalidArgument`. Otherwise the record of the
    /// token (empty if it had none) is changed and stored.
    pub fn apply(
        &mut self,
        ledger: &Ledger,
        id: &str,
        property: &str,
        mode: &str,
        account: &str,
        rate: &str,
    ) -> (r: Result<(), Error>)
        ensures
            !ledger@.owners.contains_key(id@) ==> r == Err::<(), Error>(Error::UnknownTokenId),
            ledger@.owners.contains_key(id@) && change_refused(mode@, account@, rate@) ==> r
                == Err::<(), Error>(Error::InvalidArgument),
            ledger@.owners.contains_key(id@) && !change_refused(mode@, account@, rate@) ==> r
                is Ok,
            r is Err ==> final(self)@ == old(self)@,
            r is Ok ==> final(self)@ == old(self)@.insert(
                id@,
                changed(
                    record_or_empty(old(self)@, id@),
                    property@,
                    mode_of(mode@).unwrap(),
                    account@,
                    rate@,
                ),
            ),
    {
        if !ledger.contains(id) {
            return Err(Error::UnknownTokenId);
        }
        let parsed = match Mode::parse(mode) {
            Some(m) => m,
            None => {
                return Err(Error::InvalidArgument);
            },
        };
        let mut record = match self.dict.get(id) {
            Some(rec) => rec,
            None => Record::new(),
        };
        let mut key_a = String::from_str(property);
        key_a.append("_account");
        let mut key_r = String::from_str(property);
        key_r.append("_rate");
        match parsed {
            Mode::Delete => {
                record.remove(key_a.as_str());
                record.remove(key_r.as_str());
            },
            Mode::Update => {
                if account.is_empty() || rate.is_empty() {
                    return Err(Error::InvalidArgument);
                }
                record.insert(key_a, String::from_str(account));
                record.insert(key_r, String::from_str(rate));
            },
            Mode::Add => {
                record.insert(key_a, String::from_str(account));
                record.insert(key_r, String::from_str(rate));
            },
        }
        self.dict.set(id, record);
        Ok(())
    }
}

} // verus!
