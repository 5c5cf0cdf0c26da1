//! The two role sets, administrators and minters, and the caller's identity.
//!
//! Membership is presence: granting a role that is held and revoking one that
//! is not change nothing.

use vstd::hash_map::StringHashMap;
use vstd::prelude::*;
use vstd::string::StringExecFns;

verus! {

/// The principal on whose behalf a call is made.
pub struct Sender(pub String);

impl View for Sender {
    type V = Seq<char>;

    open spec fn view(&self) -> Seq<char> {
        self.0@
    }
}

/// The set of administrators.
pub struct Admins {
    members: StringHashMap<bool>,
}

impl View for Admins {
    type V = Set<Seq<char>>;

    closed spec fn view(&self) -> Set<Seq<char>> {
        self.members@.dom()
    }
}

impl Admins {
    /// A set without members.
    pub fn instance() -> (r: Admins)
        ensures
            r@ == Set::<Seq<char>>::empty(),
    {
        let r = Admins { members: StringHashMap::new() };
        assert(r@ =~= Set::empty());
        r
    }

    /// Starts over without members.
    pub fn init(&mut self)
        ensures
            final(self)@ == Set::<Seq<char>>::empty(),
    {
        self.members.clear();
        assert(self@ =~= Set::empty());
    }

    /// Whether `key` is an administrator.
    pub fn is_admin(&self, key: &str) -> (r: bool)
        ensures
            r == self@.contains(key@),
    {
        self.members.contains_key(key)
    }

    /// Makes `key` an administrator.
    pub fn add_admin(&mut self, key: &str)
        ensures
            final(self)@ == old(self)@.insert(key@),
    {
        self.members.insert(String::from_str(key), true);
        assert(self@ =~= old(self)@.insert(key@));
    }

    /// Takes the role from `key`.
    pub fn disable_admin(&mut self, key: &str)
        ensures
            final(self)@ == old(self)@.remove(key@),
    {
        self.members.remove(key);
        assert(self@ =~= old(self)@.remove(key@));
    }
}

/// The set of minters.
pub struct Minters {
    members: StringHashMap<bool>,
}

impl View for Minters {
    type V = Set<Seq<char>>;

    closed spec fn view(&self) -> Set<Seq<char>> {
        self.members@.dom()
    }
}

impl Minters {
    /// A set without members.
    pub fn instance() -> (r: Minters)
        ensures
            r@ == Set::<Seq<char>>::empty(),
    {
        let r = Minters { members: StringHashMap::new() };
        assert(r@ =~= Set::empty());
        r
    }

    /// Starts over without members.
    pub fn init(&mut self)
        ensures
            final(self)@ == Set::<Seq<char>>::empty(),
    {
        self.members.clear();
        assert(self@ =~= Set::empty());
    }

    /// Whether `key` is a minter.
    pub fn is_minter(&self, key: &str) -> (r: bool)
        ensures
            r == self@.contains(key@),
    {
        self.members.contains_key(key)
    }

    /// Makes `key` a minter.
    pub fn add_minter(&mut self, key: &str)
        ensures
            final(self)@ == old(self)@.insert(key@),
    {
        self.members.insert(String::from_str(key), true);
        assert(self@ =~= old(self)@.insert(key@));
    }

    /// Takes the role from `key`.
    pub fn revoke_minter(&mut self, key: &str)
        ensures
            final(self)@ == old(self)@.remove(key@),
    {
        self.members.remove(key);
        assert(self@ =~= old(self)@.remove(key@));
    }
}

} // verus!
