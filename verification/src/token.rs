//! The registry itself: ledger, attribute registries and role sets behind the
//! operations that mint, burn, transfer and update tokens.
//!
//! Each operation first decides whether the call is refused, and only then
//! changes anything, so a refused call leaves the registry as it was.

use crate::attributes::{
    change_refused, changed, mode_of, record_or_empty, Attributes, Commission, Commissions, Meta,
    RegistryView,
};
use crate::batch::{
    all_bound, all_owned, distinct, holds_all, holds_all_for, holds_none, mappings, none_bound,
    option_texts, texts,
};
use crate::error::Error;
use crate::ids::{decimal, generate, generated, Serial};
use crate::ledger::{Ledger, LedgerView};
use crate::record::Record;
use crate::roles::{Admins, Minters, Sender};
use vstd::prelude::*;
use vstd::string::StringExecFns;

verus! {

/// What the registry permits beyond the roles.
#[derive(Clone, Copy, Debug, PartialEq, Eq, Structural)]
pub struct Policy {
    /// The holder of a token may burn it.
    pub owner_may_burn: bool,
    /// The holder of a token may change its metadata, gauge and warehouse
    /// records.
    pub owner_may_update: bool,
    /// A transfer needs a recipient whose identity was verified.
    pub identity_check: bool,
}

/// The registry as a value.
pub struct TokenView {
    /// The registry's name.
    pub name: Seq<char>,
    /// The registry's symbol.
    pub symbol: Seq<char>,
    /// The registry's own metadata.
    pub meta: Map<Seq<char>, Seq<char>>,
    /// What the registry permits beyond the roles.
    pub policy: Policy,
    /// Who owns each token, and what each owner holds.
    pub ledger: LedgerView,
    /// The metadata of each token.
    pub metas: RegistryView,
    /// The gauge record of each token.
    pub gauges: RegistryView,
    /// The warehouse record of each token.
    pub warehouses: RegistryView,
    /// The commission record of each token.
    pub commissions: RegistryView,
    /// The administrators.
    pub admins: Set<Seq<char>>,
    /// The minters.
    pub minters: Set<Seq<char>>,
    /// The serial number of the next id that the registry makes up.
    pub serial: nat,
}

/// The records of a batch of `count` tokens: those that came with the call, or
/// else an empty record for each token.
pub open spec fn filled(records: Option<Seq<Map<Seq<char>, Seq<char>>>>, count: nat) -> Seq<
    Map<Seq<char>, Seq<char>>,
> {
    match records {
        Some(given) => given,
        None => Seq::new(count, |i: int| Map::<Seq<char>, Seq<char>>::empty()),
    }
}

/// The mappings of a list of records that may be absent.
pub open spec fn option_mappings(v: Option<Vec<Record>>) -> Option<
    Seq<Map<Seq<char>, Seq<char>>>,
> {
    match v {
        Some(records) => Some(mappings(records@)),
        None => None,
    }
}

/// The length of a list of records that may be absent.
pub open spec fn option_len(v: Option<Vec<Record>>) -> Option<nat> {
    match v {
        Some(records) => Some(records.len() as nat),
        None => None,
    }
}

/// One of the three free-form attribute registries.
#[derive(Clone, Copy, Debug, PartialEq, Eq, Structural)]
pub enum Attribute {
    /// Free-form metadata.
    Meta,
    /// The gauge record.
    Gauge,
    /// The warehouse record.
    Warehouse,
}

impl TokenView {
    /// The number of tokens.
    pub open spec fn total_supply(self) -> nat {
        self.ledger.owners.dom().len()
    }

    /// The owner of `id`, if the token exists.
    pub open spec fn owner_of(self, id: Seq<char>) -> Option<Seq<char>> {
        if self.ledger.owners.contains_key(id) {
            Some(self.ledger.owners[id])
        } else {
            None
        }
    }

    /// The tokens of `owner`, in the order of the index.
    pub open spec fn tokens_of(self, owner: Seq<char>) -> Seq<Seq<char>> {
        self.ledger.holdings[owner]
    }

    /// The number of tokens of `owner`.
    pub open spec fn balance_of(self, owner: Seq<char>) -> nat {
        self.tokens_of(owner).len()
    }

    /// Ledger and index agree, and a token has its records exactly while it
    /// is in the ledger.
    pub open spec fn consistent(self) -> bool {
        &&& self.ledger.consistent()
        &&& self.metas.dom() == self.ledger.owners.dom()
        &&& self.gauges.dom() == self.ledger.owners.dom()
        &&& self.warehouses.dom() == self.ledger.owners.dom()
        &&& self.commissions.dom() == self.ledger.owners.dom()
    }

    /// Whether `caller` holds the minter or the administrator role.
    pub open spec fn is_operator(self, caller: Seq<char>) -> bool {
        self.minters.contains(caller) || self.admins.contains(caller)
    }

    /// The ids of a mint: those that the caller chose, or else as many made-up
    /// ids as there are metadata records.
    pub open spec fn mint_ids(self, ids: Option<Seq<Seq<char>>>, metas: nat) -> Seq<Seq<char>> {
        match ids {
            Some(chosen) => chosen,
            None => generated(self.serial, metas),
        }
    }

    /// Why a mint is refused, if it is: the caller is no operator; the lists
    /// differ in length; an id is in the ledger already or named twice.
    pub open spec fn mint_refusal(
        self,
        caller: Seq<char>,
        ids: Option<Seq<Seq<char>>>,
        metas: nat,
        gauges: Option<nat>,
        warehouses: Option<nat>,
        commissions: nat,
    ) -> Option<Error> {
        let batch = self.mint_ids(ids, metas);
        if !self.is_operator(caller) {
            Some(Error::Unauthorized)
        } else if batch.len() != metas || commissions != metas || (gauges is Some
            && gauges.unwrap() != metas) || (warehouses is Some && warehouses.unwrap() != metas) {
            Some(Error::ArgumentShapeMismatch)
        } else if !(batch.no_duplicates() && none_bound(self.ledger.owners, batch)) {
            Some(Error::DuplicateTokenId)
        } else {
            None
        }
    }

    /// The registry after the tokens `ids` were given to `recipient`, one by
    /// one, each with its metadata, gauge, warehouse and commission record.
    pub open spec fn minted(
        self,
        recipient: Seq<char>,
        ids: Seq<Seq<char>>,
        metas: Seq<Map<Seq<char>, Seq<char>>>,
        gauges: Seq<Map<Seq<char>, Seq<char>>>,
        warehouses: Seq<Map<Seq<char>, Seq<char>>>,
        commissions: Seq<Map<Seq<char>, Seq<char>>>,
    ) -> TokenView
        decreases ids.len(),
    {
        if ids.len() == 0 {
            self
        } else {
            let before = self.minted(
                recipient,
                ids.drop_last(),
                metas.drop_last(),
                gauges.drop_last(),
                warehouses.drop_last(),
                commissions.drop_last(),
            );
            TokenView {
                ledger: before.ledger.bound(ids.last(), recipient),
                metas: before.metas.insert(ids.last(), metas.last()),
                gauges: before.gauges.insert(ids.last(), gauges.last()),
                warehouses: before.warehouses.insert(ids.last(), warehouses.last()),
                commissions: before.commissions.insert(ids.last(), commissions.last()),
                ..before
            }
        }
    }

    /// The registry after a mint that was not refused: the tokens are there,
    /// and made-up ids have used up their serial numbers.
    pub open spec fn after_mint(
        self,
        recipient: Seq<char>,
        ids: Option<Seq<Seq<char>>>,
        metas: Seq<Map<Seq<char>, Seq<char>>>,
        gauges: Option<Seq<Map<Seq<char>, Seq<char>>>>,
        warehouses: Option<Seq<Map<Seq<char>, Seq<char>>>>,
        commissions: Seq<Map<Seq<char>, Seq<char>>>,
    ) -> TokenView {
        let done = self.minted(
            recipient,
            self.mint_ids(ids, metas.len()),
            metas,
            filled(gauges, metas.len()),
            filled(warehouses, metas.len()),
            commissions,
        );
        match ids {
            Some(_) => done,
            None => TokenView { serial: self.serial + metas.len(), ..done },
        }
    }

    /// Whether `caller` may burn tokens of `owner`.
    pub open spec fn may_burn(self, caller: Seq<char>, owner: Seq<char>) -> bool {
        self.is_operator(caller) || (self.policy.owner_may_burn && caller == owner)
    }

    /// Why a burn is refused, if it is: the caller may not burn; an id is not
    /// in the ledger or named twice; a token is not held by `owner`.
    pub open spec fn burn_refusal(
        self,
        caller: Seq<char>,
        owner: Seq<char>,
        ids: Seq<Seq<char>>,
    ) -> Option<Error> {
        if !self.may_burn(caller, owner) {
            Some(Error::Unauthorized)
        } else if !(all_bound(self.ledger.owners, ids) && ids.no_duplicates()) {
            Some(Error::UnknownTokenId)
        } else if !all_owned(self.ledger.owners, ids, owner) {
            Some(Error::NotOwnedByCaller)
        } else {
            None
        }
    }

    /// The registry after the tokens `ids` were taken out one by one, each
    /// with its records.
    pub open spec fn burned(self, ids: Seq<Seq<char>>) -> TokenView
        decreases ids.len(),
    {
        if ids.len() == 0 {
            self
        } else {
            let before = self.burned(ids.drop_last());
            TokenView {
                ledger: before.ledger.unbound(ids.last()),
                metas: before.metas.remove(ids.last()),
                gauges: before.gauges.remove(ids.last()),
                warehouses: before.warehouses.remove(ids.last()),
                commissions: before.commissions.remove(ids.last()),
                ..before
            }
        }
    }

    /// Why moving tokens of `holder` is refused, if it is: an id is not in the
    /// ledger; a token is not held by `holder`, or named twice.
    pub open spec fn move_refusal(self, holder: Seq<char>, ids: Seq<Seq<char>>) -> Option<Error> {
        if !all_bound(self.ledger.owners, ids) {
            Some(Error::UnknownTokenId)
        } else if !(all_owned(self.ledger.owners, ids, holder) && ids.no_duplicates()) {
            Some(Error::NotOwnedByCaller)
        } else {
            None
        }
    }

    /// Why a transfer by the holder is refused, if it is: the identity check
    /// is on and the recipient did not pass it; or the move itself is refused.
    pub open spec fn transfer_refusal(
        self,
        caller: Seq<char>,
        ids: Seq<Seq<char>>,
        recipient_verified: bool,
    ) -> Option<Error> {
        if self.policy.identity_check && !recipient_verified {
            Some(Error::RecipientNotVerified)
        } else {
            self.move_refusal(caller, ids)
        }
    }

    /// Why a transfer on behalf of `holder` is refused, if it is. An
    /// administrator moves the tokens without more ado; the holder itself
    /// makes a transfer of its own, identity check included; nobody else may
    /// call.
    pub open spec fn transfer_from_refusal(
        self,
        caller: Seq<char>,
        holder: Seq<char>,
        ids: Seq<Seq<char>>,
        recipient_verified: bool,
    ) -> Option<Error> {
        if self.admins.contains(caller) {
            self.move_refusal(holder, ids)
        } else if caller != holder {
            Some(Error::Unauthorized)
        } else {
            self.transfer_refusal(caller, ids, recipient_verified)
        }
    }

    /// What a move of `ids` from `holder` to `recipient` does to the
    /// sequences, seen from the registry `after` it: the tokens stand at the
    /// end of the recipient's sequence in the order of the batch, the holder
    /// has as many fewer, and no other sequence has changed. Where holder and
    /// recipient are one, that owner's balance is what it was.
    pub open spec fn moved_between(
        self,
        after: TokenView,
        holder: Seq<char>,
        recipient: Seq<char>,
        ids: Seq<Seq<char>>,
    ) -> bool {
        &&& forall|o: Seq<char>|
            o != holder && o != recipient ==> #[trigger] after.tokens_of(o) == self.tokens_of(o)
        &&& holder != recipient ==> after.tokens_of(recipient) == self.tokens_of(recipient) + ids
            && after.balance_of(holder) + ids.len() == self.balance_of(holder)
        &&& holder == recipient ==> after.balance_of(holder) == self.balance_of(holder)
    }

    /// The registry after the tokens `ids` went to `recipient` one by one.
    pub open spec fn moved(self, ids: Seq<Seq<char>>, recipient: Seq<char>) -> TokenView
        decreases ids.len(),
    {
        if ids.len() == 0 {
            self
        } else {
            let before = self.moved(ids.drop_last(), recipient);
            TokenView { ledger: before.ledger.rebound(ids.last(), recipient), ..before }
        }
    }

    /// Whether `caller` may change the metadata of `id`.
    pub open spec fn may_update(self, caller: Seq<char>, id: Seq<char>) -> bool {
        self.is_operator(caller) || (self.policy.owner_may_update && self.owner_of(id) == Some(
            caller,
        ))
    }

    /// Why a change of metadata is refused, if it is.
    pub open spec fn update_refusal(self, caller: Seq<char>, id: Seq<char>) -> Option<Error> {
        if !self.may_update(caller, id) {
            Some(Error::Unauthorized)
        } else if !self.ledger.owners.contains_key(id) {
            Some(Error::UnknownTokenId)
        } else {
            None
        }
    }

    /// The registry that `which` names.
    pub open spec fn attribute(self, which: Attribute) -> RegistryView {
        match which {
            Attribute::Meta => self.metas,
            Attribute::Gauge => self.gauges,
            Attribute::Warehouse => self.warehouses,
        }
    }

    /// The registry after `record` was stored for `id` in the registry that
    /// `which` names.
    pub open spec fn with_attribute(
        self,
        which: Attribute,
        id: Seq<char>,
        record: Map<Seq<char>, Seq<char>>,
    ) -> TokenView {
        match which {
            Attribute::Meta => TokenView { metas: self.metas.insert(id, record), ..self },
            Attribute::Gauge => TokenView { gauges: self.gauges.insert(id, record), ..self },
            Attribute::Warehouse => TokenView {
                warehouses: self.warehouses.insert(id, record),
                ..self
            },
        }
    }

    /// Why a change of one commission property is refused, if it is.
    pub open spec fn commission_refusal(
        self,
        id: Seq<char>,
        mode: Seq<char>,
        account: Seq<char>,
        rate: Seq<char>,
    ) -> Option<Error> {
        if !self.ledger.owners.contains_key(id) {
            Some(Error::UnknownTokenId)
        } else if change_refused(mode, account, rate) {
            Some(Error::InvalidArgument)
        } else {
            None
        }
    }

    /// The registry after a change of one commission property that was not
    /// refused.
    pub open spec fn with_commission(
        self,
        id: Seq<char>,
        property: Seq<char>,
        mode: Seq<char>,
        account: Seq<char>,
        rate: Seq<char>,
    ) -> TokenView {
        TokenView {
            commissions: self.commissions.insert(
                id,
                changed(
                    record_or_empty(self.commissions, id),
                    property,
                    mode_of(mode).unwrap(),
                    account,
                    rate,
                ),
            ),
            ..self
        }
    }
}

/// The registry.
pub struct CaskToken {
    name: String,
    symbol: String,
    meta: Meta,
    policy: Policy,
    ledger: Ledger,
    metas: Attributes,
    gauges: Attributes,
    warehouses: Attributes,
    commissions: Commissions,
    admins: Admins,
    minters: Minters,
    serial: Serial,
}

impl View for CaskToken {
    type V = TokenView;

    closed spec fn view(&self) -> TokenView {
        TokenView {
            name: self.name@,
            symbol: self.symbol@,
            meta: self.meta@,
            policy: self.policy,
            ledger: self.ledger@,
            metas: self.metas@,
            gauges: self.gauges@,
            warehouses: self.warehouses@,
            commissions: self.commissions@,
            admins: self.admins@,
            minters: self.minters@,
            serial: self.serial@,
        }
    }
}

impl CaskToken {
    /// The parts fit together: the ledger is well formed, and a token has its
    /// records exactly while it is in the ledger.
    pub closed spec fn wf(&self) -> bool {
        &&& self.ledger.wf()
        &&& self.serial.wf()
        &&& self.metas@.dom() =~= self.ledger@.owners.dom()
        &&& self.gauges@.dom() =~= self.ledger@.owners.dom()
        &&& self.warehouses@.dom() =~= self.ledger@.owners.dom()
        &&& self.commissions@.dom() =~= self.ledger@.owners.dom()
    }

    /// A well-formed registry is consistent.
    pub proof fn lemma_consistent(&self)
        requires
            self.wf(),
        ensures
            self@.consistent(),
    {
        self.ledger.lemma_consistent();
    }

    /// A registry without tokens or minters, with `admin` as its one
    /// administrator.
    pub fn constructor(
        name: String,
        symbol: String,
        meta: Meta,
        admin: &str,
        policy: Policy,
    ) -> (r: CaskToken)
        ensures
            r.wf(),
            r@ == (TokenView {
                name: name@,
                symbol: symbol@,
                meta: meta@,
                policy: policy,
                ledger: LedgerView::empty(),
                metas: RegistryView::empty(),
                gauges: RegistryView::empty(),
                warehouses: RegistryView::empty(),
                commissions: RegistryView::empty(),
                admins: Set::<Seq<char>>::empty().insert(admin@),
                minters: Set::<Seq<char>>::empty(),
                serial: 0,
            }),
    {
        let mut admins = Admins::instance();
        admins.add_admin(admin);
        CaskToken {
            name,
            symbol,
            meta,
            policy,
            ledger: Ledger::new(),
            metas: Attributes::instance(),
            gauges: Attributes::instance(),
            warehouses: Attributes::instance(),
            commissions: Commissions::instance(),
            admins,
            minters: Minters::instance(),
            serial: Serial::zero(),
        }
    }

    /// The registry's name.
    pub fn name(&self) -> (r: String)
        ensures
            r@ == self@.name,
    {
        self.name.clone()
    }

    /// The registry's symbol.
    pub fn symbol(&self) -> (r: String)
        ensures
            r@ == self@.symbol,
    {
        self.symbol.clone()
    }

    /// The registry's own metadata.
    pub fn meta(&self) -> (r: Meta)
        ensures
            r@ == self@.meta,
    {
        self.meta.clone()
    }

    /// What the registry permits beyond the roles.
    pub fn policy(&self) -> (r: Policy)
        ensures
            r == self@.policy,
    {
        self.policy
    }

    /// The id that the registry would make up next: the numeral of its
    /// serial number.
    pub fn next_serial(&self) -> (r: String)
        requires
            self.wf(),
        ensures
            r@ == decimal(self@.serial),
    {
        self.serial.text()
    }

    /// The number of tokens.
    pub fn total_supply(&self) -> (r: usize)
        requires
            self.wf(),
        ensures
            r == self@.total_supply(),
    {
        self.ledger.total_supply()
    }

    /// The number of tokens of `owner`.
    pub fn balance_of(&self, owner: &str) -> (r: usize)
        requires
            self.wf(),
        ensures
            r == self@.balance_of(owner@),
    {
        self.ledger.balance_of(owner)
    }

    /// The owner of `token_id`, if the token exists.
    pub fn owner_of(&self, token_id: &str) -> (r: Option<String>)
        ensures
            r is Some <==> self@.owner_of(token_id@) is Some,
            r matches Some(o) ==> Some(o@) == self@.owner_of(token_id@),
    {
        self.ledger.owner_of(token_id)
    }

    /// The token at position `index` of `owner`'s sequence; none from the
    /// owner's balance on.
    pub fn get_token_by_index(&self, owner: &str, index: usize) -> (r: Option<String>)
        requires
            self.wf(),
        ensures
            r is Some <==> index < self@.balance_of(owner@),
            r matches Some(id) ==> id@ == self@.tokens_of(owner@)[index as int],
    {
        self.ledger.get_by_position(owner, index)
    }

    /// The metadata of `token_id`, if the token exists.
    pub fn token_meta(&self, token_id: &str) -> (r: Option<Meta>)
        ensures
            r is Some <==> self@.metas.contains_key(token_id@),
            r matches Some(m) ==> m@ == self@.metas[token_id@],
    {
        self.metas.get(token_id)
    }

    /// The gauge record of `token_id`, if the token exists.
    pub fn token_gauge(&self, token_id: &str) -> (r: Option<Record>)
        ensures
            r is Some <==> self@.gauges.contains_key(token_id@),
            r matches Some(m) ==> m@ == self@.gauges[token_id@],
    {
        self.gauges.get(token_id)
    }

    /// The warehouse record of `token_id`, if the token exists.
    pub fn token_warehouse(&self, token_id: &str) -> (r: Option<Record>)
        ensures
            r is Some <==> self@.warehouses.contains_key(token_id@),
            r matches Some(m) ==> m@ == self@.warehouses[token_id@],
    {
        self.warehouses.get(token_id)
    }

    /// The commission record of `token_id`, if the token exists.
    pub fn token_commission(&self, token_id: &str) -> (r: Option<Commission>)
        ensures
            r is Some <==> self@.commissions.contains_key(token_id@),
            r matches Some(c) ==> c@ == self@.commissions[token_id@],
    {
        self.commissions.get(token_id)
    }

    /// Whether `key` is an administrator.
    pub fn is_admin(&self, key: &str) -> (r: bool)
        ensures
            r == self@.admins.contains(key@),
    {
        self.admins.is_admin(key)
    }

    /// Whether `key` is a minter.
    pub fn is_minter(&self, key: &str) -> (r: bool)
        ensures
            r == self@.minters.contains(key@),
    {
        self.minters.is_minter(key)
    }

    /// Whether `key` is a minter or an administrator.
    fn is_operator(&self, key: &str) -> (r: bool)
        ensures
            r == self@.is_operator(key@),
    {
        self.minters.is_minter(key) || self.admins.is_admin(key)
    }

    /// Makes `admin` an administrator. Only an administrator may do so.
    pub fn grant_admin(&mut self, sender: &Sender, admin: &str) -> (r: Result<(), Error>)
        requires
            old(self).wf(),
        ensures
            final(self).wf(),
            r is Ok <==> old(self)@.admins.contains(sender@),
            r is Ok ==> final(self)@ == (TokenView {
                admins: old(self)@.admins.insert(admin@),
                ..old(self)@
            }),
            r is Err ==> r == Err::<(), Error>(Error::Unauthorized) && final(self)@ == old(self)@,
    {
        if !self.admins.is_admin(sender.0.as_str()) {
            return Err(Error::Unauthorized);
        }
        self.admins.add_admin(admin);
        Ok(())
    }

    /// Takes the administrator role from `admin`, be it the last one. Only an
    /// administrator may do so.
    pub fn revoke_admin(&mut self, sender: &Sender, admin: &str) -> (r: Result<(), Error>)
        requires
            old(self).wf(),
        ensures
            final(self).wf(),
            r is Ok <==> old(self)@.admins.contains(sender@),
            r is Ok ==> final(self)@ == (TokenView {
                admins: old(self)@.admins.remove(admin@),
                ..old(self)@
            }),
            r is Err ==> r == Err::<(), Error>(Error::Unauthorized) && final(self)@ == old(self)@,
    {
        if !self.admins.is_admin(sender.0.as_str()) {
            return Err(Error::Unauthorized);
        }
        self.admins.disable_admin(admin);
        Ok(())
    }

    /// Makes `minter` a minter. Only an administrator may do so.
    pub fn grant_minter(&mut self, sender: &Sender, minter: &str) -> (r: Result<(), Error>)
        requires
            old(self).wf(),
        ensures
            final(self).wf(),
            r is Ok <==> old(self)@.admins.contains(sender@),
            r is Ok ==> final(self)@ == (TokenView {
                minters: old(self)@.minters.insert(minter@),
                ..old(self)@
            }),
            r is Err ==> r == Err::<(), Error>(Error::Unauthorized) && final(self)@ == old(self)@,
    {
        if !self.admins.is_admin(sender.0.as_str()) {
            return Err(Error::Unauthorized);
        }
        self.minters.add_minter(minter);
        Ok(())
    }

    /// Takes the minter role from `minter`. Only an administrator may do so.
    pub fn revoke_minter(&mut self, sender: &Sender, minter: &str) -> (r: Result<(), Error>)
        requires
            old(self).wf(),
        ensures
            final(self).wf(),
            r is Ok <==> old(self)@.admins.contains(sender@),
            r is Ok ==> final(self)@ == (TokenView {
                minters: old(self)@.minters.remove(minter@),
                ..old(self)@
            }),
            r is Err ==> r == Err::<(), Error>(Error::Unauthorized) && final(self)@ == old(self)@,
    {
        if !self.admins.is_admin(sender.0.as_str()) {
            return Err(Error::Unauthorized);
        }
        self.minters.revoke_minter(minter);
        Ok(())
    }

    /// Gives the fresh tokens `ids` to `recipient`, each with its records.
    fn mint_batch(
        &mut self,
        recipient: &str,
        ids: &Vec<String>,
        token_metas: &Vec<Meta>,
        token_gauges: &Vec<Record>,
        token_warehouses: &Vec<Record>,
        token_commissions: &Vec<Commission>,
    )
        requires
            old(self).wf(),
            ids.len() == token_metas.len(),
            ids.len() == token_gauges.len(),
            ids.len() == token_warehouses.len(),
            ids.len() == token_commissions.len(),
            texts(ids@).no_duplicates(),
            none_bound(old(self)@.ledger.owners, texts(ids@)),
        ensures
            final(self).wf(),
            final(self)@ == old(self)@.minted(
                recipient@,
                texts(ids@),
                mappings(token_metas@),
                mappings(token_gauges@),
                mappings(token_warehouses@),
                mappings(token_commissions@),
            ),
            final(self)@.total_supply() == old(self)@.total_supply() + ids.len(),
            final(self)@.serial == old(self)@.serial,
            final(self).serial == old(self).serial,
            final(self)@.ledger.holdings == old(self)@.ledger.holdings.insert(
                recipient@,
                old(self)@.tokens_of(recipient@) + texts(ids@),
            ),
            forall|j: int|
                0 <= j < ids.len() ==> final(self)@.owner_of(#[trigger] texts(ids@)[j]) == Some(
                    recipient@,
                ),
    {
        let ghost t = texts(ids@);
        let ghost m = mappings(token_metas@);
        let ghost g = mappings(token_gauges@);
        let ghost w = mappings(token_warehouses@);
        let ghost c = mappings(token_commissions@);
        let n = ids.len();
        let mut i: usize = 0;
        proof {
            assert(t.take(0) =~= Seq::empty());
            self.ledger.lemma_consistent();
            assert(old(self)@.tokens_of(recipient@) + t.take(0) =~= old(self)@.tokens_of(
                recipient@,
            ));
            assert(self@.ledger.holdings =~= old(self)@.ledger.holdings.insert(
                recipient@,
                old(self)@.tokens_of(recipient@) + t.take(0),
            ));
        }
        while i < n
            invariant
                i <= n,
                n == ids.len(),
                n == token_metas.len(),
                n == token_gauges.len(),
                n == token_warehouses.len(),
                n == token_commissions.len(),
                t == texts(ids@),
                m == mappings(token_metas@),
                g == mappings(token_gauges@),
                w == mappings(token_warehouses@),
                c == mappings(token_commissions@),
                self.wf(),
                t.no_duplicates(),
                self@ == old(self)@.minted(
                    recipient@,
                    t.take(i as int),
                    m.take(i as int),
                    g.take(i as int),
                    w.take(i as int),
                    c.take(i as int),
                ),
                forall|j: int| i <= j < n ==> !self@.ledger.owners.contains_key(#[trigger] t[j]),
                forall|j: int|
                    0 <= j < i ==> self@.ledger.owners.contains_key(#[trigger] t[j])
                        && self@.ledger.owners[t[j]] == recipient@,
                self@.total_supply() == old(self)@.total_supply() + i,
                self@.serial == old(self)@.serial,
                self.serial == old(self).serial,
                self@.ledger.holdings == old(self)@.ledger.holdings.insert(
                    recipient@,
                    old(self)@.tokens_of(recipient@) + t.take(i as int),
                ),
            decreases n - i,
        {
            let ghost before = self@;
            proof {
                self.ledger.lemma_consistent();
                assert(t[i as int] == ids@[i as int]@);
                assert(!before.ledger.owners.contains_key(t[i as int]));
            }
            self.ledger.bind(ids[i].clone(), recipient).unwrap();
            self.metas.set(ids[i].as_str(), token_metas[i].clone());
            self.gauges.set(ids[i].as_str(), token_gauges[i].clone());
            self.warehouses.set(ids[i].as_str(), token_warehouses[i].clone());
            self.commissions.set(ids[i].as_str(), token_commissions[i].clone());
            proof {
                assert(t.take(i + 1).drop_last() =~= t.take(i as int));
                assert(m.take(i + 1).drop_last() =~= m.take(i as int));
                assert(g.take(i + 1).drop_last() =~= g.take(i as int));
                assert(w.take(i + 1).drop_last() =~= w.take(i as int));
                assert(c.take(i + 1).drop_last() =~= c.take(i as int));
                assert(t.take(i + 1).last() == t[i as int]);
                assert(m.take(i + 1).last() == token_metas@[i as int]@);
                assert(g.take(i + 1).last() == token_gauges@[i as int]@);
                assert(w.take(i + 1).last() == token_warehouses@[i as int]@);
                assert(c.take(i + 1).last() == token_commissions@[i as int]@);
                assert(self@.ledger.owners.dom() =~= before.ledger.owners.dom().insert(t[i as int]));
                assert(t.take(i + 1) =~= t.take(i as int).push(t[i as int]));
                assert((old(self)@.tokens_of(recipient@) + t.take(i as int)).push(t[i as int])
                    =~= old(self)@.tokens_of(recipient@) + t.take(i + 1));
                assert(self@.ledger.holdings =~= old(self)@.ledger.holdings.insert(
                    recipient@,
                    old(self)@.tokens_of(recipient@) + t.take(i + 1),
                ));
                assert forall|j: int| i + 1 <= j < n implies !self@.ledger.owners.contains_key(
                    #[trigger] t[j],
                ) by {
                    assert(t[j] != t[i as int]);
                }
            }
            i = i + 1;
        }
        proof {
            assert(t.take(n as int) =~= t);
            assert(m.take(n as int) =~= m);
            assert(g.take(n as int) =~= g);
            assert(w.take(n as int) =~= w);
            assert(c.take(n as int) =~= c);
        }
    }

    /// As many empty records as a batch has tokens.
    fn blank_records(count: usize) -> (r: Vec<Record>)
        ensures
            r.len() == count,
            mappings(r@) == filled(None, count as nat),
    {
        let mut out: Vec<Record> = Vec::new();
        let mut i: usize = 0;
        while i < count
            invariant
                i <= count,
                out.len() == i,
                forall|j: int|
                    0 <= j < i ==> (#[trigger] out@[j])@ == Map::<Seq<char>, Seq<char>>::empty(),
            decreases count - i,
        {
            out.push(Record::new());
            i = i + 1;
        }
        assert(mappings(out@) =~= filled(None, count as nat));
        out
    }

    /// Creates tokens for `recipient`, one for each metadata record, with the
    /// ids that the caller chose or else with made-up ones, and returns their
    /// ids. Gauge and warehouse records that are left out are empty.
    ///
    /// The caller must be a minter or an administrator, the lists must have
    /// one length, and no id may be in the ledger already or be named twice.
    /// On success the supply has grown by the number of tokens, `recipient`
    /// owns each of them, and they stand at the end of its sequence in the
    /// order of the batch; no other owner's sequence has changed.
    pub fn mint_with(
        &mut self,
        sender: &Sender,
        recipient: &str,
        token_ids: Option<Vec<String>>,
        token_metas: Vec<Meta>,
        token_gauges: Option<Vec<Record>>,
        token_warehouses: Option<Vec<Record>>,
        token_commissions: Vec<Commission>,
    ) -> (r: Result<Vec<String>, Error>)
        requires
            old(self).wf(),
        ensures
            final(self).wf(),
            r is Err <==> old(self)@.mint_refusal(
                sender@,
                option_texts(token_ids),
                token_metas.len() as nat,
                option_len(token_gauges),
                option_len(token_warehouses),
                token_commissions.len() as nat,
            ) is Some,
            r matches Err(e) ==> final(self)@ == old(self)@ && Some(e) == old(self)@.mint_refusal(
                sender@,
                option_texts(token_ids),
                token_metas.len() as nat,
                option_len(token_gauges),
                option_len(token_warehouses),
                token_commissions.len() as nat,
            ),
            r matches Ok(out) ==> texts(out@) == old(self)@.mint_ids(
                option_texts(token_ids),
                token_metas.len() as nat,
            ) && final(self)@ == old(self)@.after_mint(
                recipient@,
                option_texts(token_ids),
                mappings(token_metas@),
                option_mappings(token_gauges),
                option_mappings(token_warehouses),
                mappings(token_commissions@),
            ),
            r matches Ok(out) ==> final(self)@.total_supply() == old(self)@.total_supply()
                + out.len() && forall|j: int|
                0 <= j < out.len() ==> final(self)@.owner_of(#[trigger] texts(out@)[j]) == Some(
                    recipient@,
                ),
            r matches Ok(out) ==> out.len() == token_metas.len() && texts(out@).no_duplicates(),
            r matches Ok(out) ==> final(self)@.tokens_of(recipient@) == old(self)@.tokens_of(
                recipient@,
            ) + texts(out@) && forall|o: Seq<char>|
                o != recipient@ ==> #[trigger] final(self)@.tokens_of(o) == old(self)@.tokens_of(o),
    {
        let ghost chosen = option_texts(token_ids);
        if !self.is_operator(sender.0.as_str()) {
            return Err(Error::Unauthorized);
        }
        let (ids, following) = match token_ids {
            Some(ids) => (ids, None),
            None => {
                let (ids, next) = generate(&self.serial, token_metas.len());
                (ids, Some(next))
            },
        };
        assert(texts(ids@) == old(self)@.mint_ids(chosen, token_metas.len() as nat));
        if ids.len() != token_metas.len() || token_commissions.len() != token_metas.len() {
            return Err(Error::ArgumentShapeMismatch);
        }
        let gauges = match token_gauges {
            Some(given) => {
                if given.len() != token_metas.len() {
                    return Err(Error::ArgumentShapeMismatch);
                }
                given
            },
            None => Self::blank_records(token_metas.len()),
        };
        let warehouses = match token_warehouses {
            Some(given) => {
                if given.len() != token_metas.len() {
                    return Err(Error::ArgumentShapeMismatch);
                }
                given
            },
            None => Self::blank_records(token_metas.len()),
        };
        if !(distinct(&ids) && holds_none(&self.ledger, &ids)) {
            return Err(Error::DuplicateTokenId);
        }
        self.mint_batch(recipient, &ids, &token_metas, &gauges, &warehouses, &token_commissions);
        match following {
            Some(next) => {
                self.serial = next;
            },
            None => {},
        }
        Ok(ids)
    }

    /// Creates tokens for `recipient` with metadata and commission records
    /// only: a mint whose gauge and warehouse records are left out.
    pub fn mint(
        &mut self,
        sender: &Sender,
        recipient: &str,
        token_ids: Option<Vec<String>>,
        token_metas: Vec<Meta>,
        token_commissions: Vec<Commission>,
    ) -> (r: Result<Vec<String>, Error>)
        requires
            old(self).wf(),
        ensures
            final(self).wf(),
            r is Err <==> old(self)@.mint_refusal(
                sender@,
                option_texts(token_ids),
                token_metas.len() as nat,
                None,
                None,
                token_commissions.len() as nat,
            ) is Some,
            r matches Err(e) ==> final(self)@ == old(self)@ && Some(e) == old(self)@.mint_refusal(
                sender@,
                option_texts(token_ids),
                token_metas.len() as nat,
                None,
                None,
                token_commissions.len() as nat,
            ),
            r matches Ok(out) ==> texts(out@) == old(self)@.mint_ids(
                option_texts(token_ids),
                token_metas.len() as nat,
            ) && final(self)@ == old(self)@.after_mint(
                recipient@,
                option_texts(token_ids),
                mappings(token_metas@),
                None,
                None,
                mappings(token_commissions@),
            ),
            r matches Ok(out) ==> final(self)@.total_supply() == old(self)@.total_supply()
                + out.len() && forall|j: int|
                0 <= j < out.len() ==> final(self)@.owner_of(#[trigger] texts(out@)[j]) == Some(
                    recipient@,
                ),
            r matches Ok(out) ==> out.len() == token_metas.len() && texts(out@).no_duplicates(),
            r matches Ok(out) ==> final(self)@.tokens_of(recipient@) == old(self)@.tokens_of(
                recipient@,
            ) + texts(out@) && forall|o: Seq<char>|
                o != recipient@ ==> #[trigger] final(self)@.tokens_of(o) == old(self)@.tokens_of(o),
    {
        self.mint_with(sender, recipient, token_ids, token_metas, None, None, token_commissions)
    }

    /// Creates `count` tokens for `recipient` that all carry a copy of
    /// `token_meta` and of `token_commission`: a mint with these records
    /// repeated `count` times.
    pub fn mint_copies(
        &mut self,
        sender: &Sender,
        recipient: &str,
        token_ids: Option<Vec<String>>,
        token_meta: Meta,
        token_commission: Commission,
        count: u32,
    ) -> (r: Result<Vec<String>, Error>)
        requires
            old(self).wf(),
        ensures
            final(self).wf(),
            r is Err <==> old(self)@.mint_refusal(
                sender@,
                option_texts(token_ids),
                count as nat,
                None,
                None,
                count as nat,
            ) is Some,
            r matches Err(e) ==> final(self)@ == old(self)@ && Some(e) == old(self)@.mint_refusal(
                sender@,
                option_texts(token_ids),
                count as nat,
                None,
                None,
                count as nat,
            ),
            r matches Ok(out) ==> texts(out@) == old(self)@.mint_ids(
                option_texts(token_ids),
                count as nat,
            ) && final(self)@ == old(self)@.after_mint(
                recipient@,
                option_texts(token_ids),
                Seq::new(count as nat, |i: int| token_meta@),
                None,
                None,
                Seq::new(count as nat, |i: int| token_commission@),
            ),
            r matches Ok(out) ==> final(self)@.total_supply() == old(self)@.total_supply()
                + count && forall|j: int|
                0 <= j < out.len() ==> final(self)@.owner_of(#[trigger] texts(out@)[j]) == Some(
                    recipient@,
                ),
            r matches Ok(out) ==> out.len() == count && texts(out@).no_duplicates(),
            r matches Ok(out) ==> final(self)@.tokens_of(recipient@) == old(self)@.tokens_of(
                recipient@,
            ) + texts(out@) && forall|o: Seq<char>|
                o != recipient@ ==> #[trigger] final(self)@.tokens_of(o) == old(self)@.tokens_of(o),
    {
        if !self.is_operator(sender.0.as_str()) {
            return Err(Error::Unauthorized);
        }
        let n = count as usize;
        let mut token_metas: Vec<Meta> = Vec::new();
        let mut token_commissions: Vec<Commission> = Vec::new();
        let mut i: usize = 0;
        while i < n
            invariant
                i <= n,
                token_metas.len() == i,
                token_commissions.len() == i,
                forall|j: int| 0 <= j < i ==> (#[trigger] token_metas@[j])@ == token_meta@,
                forall|j: int|
                    0 <= j < i ==> (#[trigger] token_commissions@[j])@ == token_commission@,
            decreases n - i,
        {
            token_metas.push(token_meta.clone());
            token_commissions.push(token_commission.clone());
            i = i + 1;
        }
        proof {
            assert(mappings(token_metas@) =~= Seq::new(count as nat, |i: int| token_meta@));
            assert(mappings(token_commissions@) =~= Seq::new(
                count as nat,
                |i: int| token_commission@,
            ));
        }
        self.mint(sender, recipient, token_ids, token_metas, token_commissions)
    }

    /// Destroys the tokens `token_ids` of `owner` together with their records.
    ///
    /// The caller must be a minter or an administrator, or `owner` itself
    /// where the policy lets holders burn. Every id must be in the ledger,
    /// named once, and held by `owner`.
    pub fn burn(
        &mut self,
        sender: &Sender,
        owner: &str,
        token_ids: Vec<String>,
    ) -> (r: Result<(), Error>)
        requires
            old(self).wf(),
        ensures
            final(self).wf(),
            r is Err <==> old(self)@.burn_refusal(sender@, owner@, texts(token_ids@)) is Some,
            r matches Err(e) ==> final(self)@ == old(self)@ && Some(e) == old(self)@.burn_refusal(
                sender@,
                owner@,
                texts(token_ids@),
            ),
            r is Ok ==> final(self)@ == old(self)@.burned(texts(token_ids@)),
            r is Ok ==> final(self)@.total_supply() + token_ids.len() == old(self)@.total_supply()
                && forall|j: int|
                0 <= j < token_ids.len() ==> final(self)@.owner_of(
                    #[trigger] texts(token_ids@)[j],
                ) is None,
            r is Ok ==> final(self)@.balance_of(owner@) + token_ids.len() == old(self)@.balance_of(
                owner@,
            ) && forall|o: Seq<char>|
                o != owner@ ==> #[trigger] final(self)@.tokens_of(o) == old(self)@.tokens_of(o),
    {
        let by_owner = self.policy.owner_may_burn && sender.0 == String::from_str(owner);
        if !(self.is_operator(sender.0.as_str()) || by_owner) {
            return Err(Error::Unauthorized);
        }
        if !(holds_all(&self.ledger, &token_ids) && distinct(&token_ids)) {
            return Err(Error::UnknownTokenId);
        }
        if !holds_all_for(&self.ledger, &token_ids, owner) {
            return Err(Error::NotOwnedByCaller);
        }
        let ghost t = texts(token_ids@);
        let n = token_ids.len();
        let mut i: usize = 0;
        proof {
            assert(t.take(0) =~= Seq::empty());
        }
        while i < n
            invariant
                i <= n,
                n == token_ids.len(),
                t == texts(token_ids@),
                self.wf(),
                t.no_duplicates(),
                self@ == old(self)@.burned(t.take(i as int)),
                forall|j: int| i <= j < n ==> self@.ledger.owners.contains_key(#[trigger] t[j]),
                forall|j: int| 0 <= j < i ==> !self@.ledger.owners.contains_key(#[trigger] t[j]),
                forall|j: int| i <= j < n ==> self@.ledger.owners[#[trigger] t[j]] == owner@,
                self@.total_supply() + i == old(self)@.total_supply(),
                self@.balance_of(owner@) + i == old(self)@.balance_of(owner@),
                forall|o: Seq<char>|
                    o != owner@ ==> #[trigger] self@.tokens_of(o) == old(self)@.tokens_of(o),
            decreases n - i,
        {
            let ghost before = self@;
            proof {
                self.ledger.lemma_consistent();
                assert(t[i as int] == token_ids@[i as int]@);
                assert(before.ledger.owners.contains_key(t[i as int]));
            }
            self.ledger.unbind(token_ids[i].as_str()).unwrap();
            self.metas.remove(token_ids[i].as_str());
            self.gauges.remove(token_ids[i].as_str());
            self.warehouses.remove(token_ids[i].as_str());
            self.commissions.remove(token_ids[i].as_str());
            proof {
                assert(t.take(i + 1).drop_last() =~= t.take(i as int));
                assert(t.take(i + 1).last() == t[i as int]);
                assert(self@.ledger.owners.dom() =~= before.ledger.owners.dom().remove(t[i as int]));
                assert forall|j: int| i + 1 <= j < n implies self@.ledger.owners.contains_key(
                    #[trigger] t[j],
                ) && self@.ledger.owners[t[j]] == owner@ by {
                    assert(t[j] != t[i as int]);
                }
                assert(before.ledger.owners[t[i as int]] == owner@);
                assert(before.ledger.holdings[owner@].contains(t[i as int]));
                assert(self@.ledger == before.ledger.unbound(t[i as int]));
                assert forall|o: Seq<char>| o != owner@ implies #[trigger] self@.tokens_of(o)
                    == old(self)@.tokens_of(o) by {
                    assert(self@.ledger.holdings[o] == before.ledger.holdings[o]);
                    assert(before.tokens_of(o) == old(self)@.tokens_of(o));
                }
            }
            i = i + 1;
        }
        proof {
            assert(t.take(n as int) =~= t);
        }
        Ok(())
    }

    /// Moves the tokens `ids` of the ledger to `recipient`, one by one.
    fn move_batch(&mut self, ids: &Vec<String>, recipient: &str, holder: Ghost<Seq<char>>)
        requires
            old(self).wf(),
            all_owned(old(self)@.ledger.owners, texts(ids@), holder@),
            texts(ids@).no_duplicates(),
        ensures
            final(self).wf(),
            final(self)@ == old(self)@.moved(texts(ids@), recipient@),
            final(self)@.total_supply() == old(self)@.total_supply(),
            old(self)@.moved_between(final(self)@, holder@, recipient@, texts(ids@)),
            forall|j: int|
                0 <= j < ids.len() ==> final(self)@.owner_of(#[trigger] texts(ids@)[j]) == Some(
                    recipient@,
                ),
    {
        let ghost t = texts(ids@);
        let n = ids.len();
        let mut i: usize = 0;
        let ghost h = holder@;
        let ghost start = old(self)@;
        proof {
            assert(t.take(0) =~= Seq::empty());
            assert(start.tokens_of(recipient@) + t.take(0) =~= start.tokens_of(recipient@));
        }
        while i < n
            invariant
                i <= n,
                n == ids.len(),
                t == texts(ids@),
                h == holder@,
                start == old(self)@,
                self.wf(),
                t.no_duplicates(),
                self@ == start.moved(t.take(i as int), recipient@),
                all_bound(self@.ledger.owners, t),
                forall|j: int| 0 <= j < i ==> self@.ledger.owners[#[trigger] t[j]] == recipient@,
                forall|j: int| i <= j < n ==> self@.ledger.owners[#[trigger] t[j]] == h,
                self@.ledger.owners.dom() == start.ledger.owners.dom(),
                forall|o: Seq<char>|
                    o != h && o != recipient@ ==> #[trigger] self@.tokens_of(o) == start.tokens_of(
                        o,
                    ),
                h != recipient@ ==> self@.tokens_of(recipient@) == start.tokens_of(recipient@)
                    + t.take(i as int) && self@.balance_of(h) + i == start.balance_of(h),
                h == recipient@ ==> self@.balance_of(h) == start.balance_of(h),
            decreases n - i,
        {
            let ghost before = self@;
            let ghost id = t[i as int];
            proof {
                self.ledger.lemma_consistent();
                assert(t[i as int] == ids@[i as int]@);
                assert(before.ledger.owners.contains_key(id));
                assert(before.ledger.owners[id] == h);
                assert(before.ledger.holdings[h].contains(id));
            }
            self.ledger.rebind(ids[i].as_str(), recipient).unwrap();
            proof {
                assert(t.take(i + 1).drop_last() =~= t.take(i as int));
                assert(t.take(i + 1).last() == id);
                assert(self@.ledger.owners.dom() =~= before.ledger.owners.dom());
                assert forall|j: int| 0 <= j < n implies self@.ledger.owners.contains_key(
                    #[trigger] t[j],
                ) by {
                    assert(before.ledger.owners.contains_key(t[j]));
                }
                assert forall|j: int| i + 1 <= j < n implies self@.ledger.owners[#[trigger] t[j]]
                    == h by {
                    assert(t[j] != id);
                }
                let lifted = before.ledger.unbound(id);
                assert(self@.ledger == lifted.bound(id, recipient@));
                assert(lifted.holdings[h] == crate::owner_index::swap_removed(
                    before.ledger.holdings[h],
                    id,
                ));
                assert(lifted.holdings[h].len() + 1 == before.ledger.holdings[h].len());
                assert forall|o: Seq<char>| o != h && o != recipient@ implies #[trigger] self@.tokens_of(
                    o,
                ) == start.tokens_of(o) by {
                    assert(self@.ledger.holdings[o] == before.ledger.holdings[o]);
                    assert(before.tokens_of(o) == start.tokens_of(o));
                }
                if h != recipient@ {
                    assert(self@.tokens_of(recipient@) == before.tokens_of(recipient@).push(id));
                    assert(t.take(i + 1) =~= t.take(i as int).push(id));
                    assert((start.tokens_of(recipient@) + t.take(i as int)).push(id)
                        =~= start.tokens_of(recipient@) + t.take(i + 1));
                    assert(self@.tokens_of(h) == lifted.holdings[h]);
                } else {
                    assert(self@.tokens_of(h) == lifted.holdings[h].push(id));
                }
            }
            i = i + 1;
        }
        proof {
            assert(t.take(n as int) =~= t);
        }
    }

    /// Moves the caller's tokens `token_ids` to `recipient`.
    ///
    /// `recipient_verified` is the outcome of the identity check on the
    /// recipient; it matters only where the policy asks for the check. Every
    /// id must be in the ledger, named once, and held by the caller.
    pub fn transfer(
        &mut self,
        sender: &Sender,
        recipient: &str,
        token_ids: Vec<String>,
        recipient_verified: bool,
    ) -> (r: Result<(), Error>)
        requires
            old(self).wf(),
        ensures
            final(self).wf(),
            r is Err <==> old(self)@.transfer_refusal(
                sender@,
                texts(token_ids@),
                recipient_verified,
            ) is Some,
            r matches Err(e) ==> final(self)@ == old(self)@ && Some(e) == old(
                self,
            )@.transfer_refusal(sender@, texts(token_ids@), recipient_verified),
            r is Ok ==> final(self)@ == old(self)@.moved(texts(token_ids@), recipient@),
            r is Ok ==> final(self)@.total_supply() == old(self)@.total_supply() && forall|j: int|
                0 <= j < token_ids.len() ==> final(self)@.owner_of(
                    #[trigger] texts(token_ids@)[j],
                ) == Some(recipient@),
            r is Ok ==> old(self)@.moved_between(
                final(self)@,
                sender@,
                recipient@,
                texts(token_ids@),
            ),
    {
        if self.policy.identity_check && !recipient_verified {
            return Err(Error::RecipientNotVerified);
        }
        self.transfer_from_internal(sender.0.as_str(), recipient, token_ids)
    }

    /// Moves the tokens `token_ids` of `owner` to `recipient`, whoever calls.
    ///
    /// Every id must be in the ledger, named once, and held by `owner`.
    pub fn transfer_from_internal(
        &mut self,
        owner: &str,
        recipient: &str,
        token_ids: Vec<String>,
    ) -> (r: Result<(), Error>)
        requires
            old(self).wf(),
        ensures
            final(self).wf(),
            r is Err <==> old(self)@.move_refusal(owner@, texts(token_ids@)) is Some,
            r matches Err(e) ==> final(self)@ == old(self)@ && Some(e) == old(self)@.move_refusal(
                owner@,
                texts(token_ids@),
            ),
            r is Ok ==> final(self)@ == old(self)@.moved(texts(token_ids@), recipient@),
            r is Ok ==> final(self)@.total_supply() == old(self)@.total_supply() && forall|j: int|
                0 <= j < token_ids.len() ==> final(self)@.owner_of(
                    #[trigger] texts(token_ids@)[j],
                ) == Some(recipient@),
            r is Ok ==> old(self)@.moved_between(
                final(self)@,
                owner@,
                recipient@,
                texts(token_ids@),
            ),
    {
        if !holds_all(&self.ledger, &token_ids) {
            return Err(Error::UnknownTokenId);
        }
        if !(holds_all_for(&self.ledger, &token_ids, owner) && distinct(&token_ids)) {
            return Err(Error::NotOwnedByCaller);
        }
        self.move_batch(&token_ids, recipient, Ghost(owner@));
        Ok(())
    }

    /// Moves the tokens `token_ids` of `owner` to `recipient` on the word of
    /// an administrator or of `owner` itself.
    ///
    /// An administrator needs no identity check on the recipient. For the
    /// holder the call is a transfer of its own: `recipient_verified` is the
    /// outcome of the identity check, and matters where the policy asks for
    /// the check.
    pub fn transfer_from(
        &mut self,
        sender: &Sender,
        owner: &str,
        recipient: &str,
        token_ids: Vec<String>,
        recipient_verified: bool,
    ) -> (r: Result<(), Error>)
        requires
            old(self).wf(),
        ensures
            final(self).wf(),
            r is Err <==> old(self)@.transfer_from_refusal(
                sender@,
                owner@,
                texts(token_ids@),
                recipient_verified,
            ) is Some,
            r matches Err(e) ==> final(self)@ == old(self)@ && Some(e) == old(
                self,
            )@.transfer_from_refusal(sender@, owner@, texts(token_ids@), recipient_verified),
            r is Ok ==> final(self)@ == old(self)@.moved(texts(token_ids@), recipient@),
            r is Ok ==> final(self)@.total_supply() == old(self)@.total_supply() && forall|j: int|
                0 <= j < token_ids.len() ==> final(self)@.owner_of(
                    #[trigger] texts(token_ids@)[j],
                ) == Some(recipient@),
            r is Ok ==> old(self)@.moved_between(
                final(self)@,
                owner@,
                recipient@,
                texts(token_ids@),
            ),
    {
        if self.admins.is_admin(sender.0.as_str()) {
            self.transfer_from_internal(owner, recipient, token_ids)
        } else if !(sender.0 == String::from_str(owner)) {
            Err(Error::Unauthorized)
        } else {
            self.transfer(sender, recipient, token_ids, recipient_verified)
        }
    }

    /// Whether `key` may change the attribute records of `token_id`.
    fn may_update(&self, key: &str, token_id: &str) -> (r: bool)
        ensures
            r == self@.may_update(key@, token_id@),
    {
        self.is_operator(key) || (self.policy.owner_may_update && self.ledger.is_owned_by(
            token_id,
            key,
        ))
    }

    /// Replaces the record of `token_id` in the registry that `which` names.
    ///
    /// The caller must be a minter or an administrator, or the holder of the
    /// token where the policy lets holders update; the token must exist.
    pub fn set_token_attribute(
        &mut self,
        sender: &Sender,
        which: Attribute,
        token_id: &str,
        record: Record,
    ) -> (r: Result<(), Error>)
        requires
            old(self).wf(),
        ensures
            final(self).wf(),
            r is Err <==> old(self)@.update_refusal(sender@, token_id@) is Some,
            r matches Err(e) ==> final(self)@ == old(self)@ && Some(e) == old(
                self,
            )@.update_refusal(sender@, token_id@),
            r is Ok ==> final(self)@ == old(self)@.with_attribute(which, token_id@, record@),
    {
        if !self.may_update(sender.0.as_str(), token_id) {
            return Err(Error::Unauthorized);
        }
        if !self.ledger.contains(token_id) {
            return Err(Error::UnknownTokenId);
        }
        proof {
            assert(old(self)@.ledger.owners.dom().contains(token_id@));
        }
        match which {
            Attribute::Meta => {
                self.metas.set(token_id, record);
                proof {
                    assert(self.metas@.dom() =~= old(self).metas@.dom());
                }
            },
            Attribute::Gauge => {
                self.gauges.set(token_id, record);
                proof {
                    assert(self.gauges@.dom() =~= old(self).gauges@.dom());
                }
            },
            Attribute::Warehouse => {
                self.warehouses.set(token_id, record);
                proof {
                    assert(self.warehouses@.dom() =~= old(self).warehouses@.dom());
                }
            },
        }
        Ok(())
    }

    /// Sets one key of the record of `token_id` in the registry that `which`
    /// names, leaving the other keys.
    ///
    /// The caller must be a minter or an administrator, or the holder of the
    /// token where the policy lets holders update; the token must exist.
    pub fn update_token_attribute(
        &mut self,
        sender: &Sender,
        which: Attribute,
        token_id: &str,
        key: String,
        value: String,
    ) -> (r: Result<(), Error>)
        requires
            old(self).wf(),
        ensures
            final(self).wf(),
            r is Err <==> old(self)@.update_refusal(sender@, token_id@) is Some,
            r matches Err(e) ==> final(self)@ == old(self)@ && Some(e) == old(
                self,
            )@.update_refusal(sender@, token_id@),
            r is Ok ==> final(self)@ == old(self)@.with_attribute(
                which,
                token_id@,
                old(self)@.attribute(which)[token_id@].insert(key@, value@),
            ),
    {
        if !self.may_update(sender.0.as_str(), token_id) {
            return Err(Error::Unauthorized);
        }
        let found = match which {
            Attribute::Meta => self.metas.get(token_id),
            Attribute::Gauge => self.gauges.get(token_id),
            Attribute::Warehouse => self.warehouses.get(token_id),
        };
        let mut record = match found {
            Some(m) => m,
            None => {
                proof {
                    assert(!old(self)@.ledger.owners.dom().contains(token_id@));
                }
                return Err(Error::UnknownTokenId);
            },
        };
        proof {
            assert(old(self)@.attribute(which).dom().contains(token_id@));
            assert(old(self)@.ledger.owners.dom().contains(token_id@));
        }
        record.insert(key, value);
        self.set_token_attribute(sender, which, token_id, record)
    }

    /// Replaces the metadata of `token_id`.
    pub fn set_token_meta(
        &mut self,
        sender: &Sender,
        token_id: &str,
        token_meta: Meta,
    ) -> (r: Result<(), Error>)
        requires
            old(self).wf(),
        ensures
            final(self).wf(),
            r is Err <==> old(self)@.update_refusal(sender@, token_id@) is Some,
            r matches Err(e) ==> final(self)@ == old(self)@ && Some(e) == old(
                self,
            )@.update_refusal(sender@, token_id@),
            r is Ok ==> final(self)@ == old(self)@.with_attribute(
                Attribute::Meta,
                token_id@,
                token_meta@,
            ),
    {
        self.set_token_attribute(sender, Attribute::Meta, token_id, token_meta)
    }

    /// Sets one key of the metadata of `token_id`, leaving the others.
    pub fn update_token_meta(
        &mut self,
        sender: &Sender,
        token_id: &str,
        token_meta_key: String,
        token_meta_value: String,
    ) -> (r: Result<(), Error>)
        requires
            old(self).wf(),
        ensures
            final(self).wf(),
            r is Err <==> old(self)@.update_refusal(sender@, token_id@) is Some,
            r matches Err(e) ==> final(self)@ == old(self)@ && Some(e) == old(
                self,
            )@.update_refusal(sender@, token_id@),
            r is Ok ==> final(self)@ == old(self)@.with_attribute(
                Attribute::Meta,
                token_id@,
                old(self)@.metas[token_id@].insert(token_meta_key@, token_meta_value@),
            ),
    {
        self.update_token_attribute(
            sender,
            Attribute::Meta,
            token_id,
            token_meta_key,
            token_meta_value,
        )
    }

    /// Sets one key of the gauge record of `token_id`, leaving the others.
    pub fn update_token_gauge(
        &mut self,
        sender: &Sender,
        token_id: &str,
        key: String,
        value: String,
    ) -> (r: Result<(), Error>)
        requires
            old(self).wf(),
        ensures
            final(self).wf(),
            r is Err <==> old(self)@.update_refusal(sender@, token_id@) is Some,
            r matches Err(e) ==> final(self)@ == old(self)@ && Some(e) == old(
                self,
            )@.update_refusal(sender@, token_id@),
            r is Ok ==> final(self)@ == old(self)@.with_attribute(
                Attribute::Gauge,
                token_id@,
                old(self)@.gauges[token_id@].insert(key@, value@),
            ),
    {
        self.update_token_attribute(sender, Attribute::Gauge, token_id, key, value)
    }

    /// Sets one key of the warehouse record of `token_id`, leaving the others.
    pub fn update_token_warehouse(
        &mut self,
        sender: &Sender,
        token_id: &str,
        key: String,
        value: String,
    ) -> (r: Result<(), Error>)
        requires
            old(self).wf(),
        ensures
            final(self).wf(),
            r is Err <==> old(self)@.update_refusal(sender@, token_id@) is Some,
            r matches Err(e) ==> final(self)@ == old(self)@ && Some(e) == old(
                self,
            )@.update_refusal(sender@, token_id@),
            r is Ok ==> final(self)@ == old(self)@.with_attribute(
                Attribute::Warehouse,
                token_id@,
                old(self)@.warehouses[token_id@].insert(key@, value@),
            ),
    {
        self.update_token_attribute(sender, Attribute::Warehouse, token_id, key, value)
    }

    /// Changes one property of the commission record of `token_id`, whoever
    /// calls: `ADD` writes the entry, `UPDATE` writes it if account and rate
    /// are not empty, `DELETE` drops it.
    pub fn set_token_commission(
        &mut self,
        token_id: &str,
        property: &str,
        mode: &str,
        account: &str,
        value: &str,
    ) -> (r: Result<(), Error>)
        requires
            old(self).wf(),
        ensures
            final(self).wf(),
            r is Err <==> old(self)@.commission_refusal(token_id@, mode@, account@, value@)
                is Some,
            r matches Err(e) ==> final(self)@ == old(self)@ && Some(e) == old(
                self,
            )@.commission_refusal(token_id@, mode@, account@, value@),
            r is Ok ==> final(self)@ == old(self)@.with_commission(
                token_id@,
                property@,
                mode@,
                account@,
                value@,
            ),
    {
        let r = self.commissions.apply(&self.ledger, token_id, property, mode, account, value);
        proof {
            if r is Ok {
                assert(old(self)@.ledger.owners.dom().contains(token_id@));
                assert(self.commissions@.dom() =~= old(self).commissions@.dom());
            }
        }
        r
    }

    /// Changes one property of the commission record of `token_id`. Only an
    /// administrator may do so.
    pub fn update_token_commission(
        &mut self,
        sender: &Sender,
        token_id: &str,
        property: &str,
        mode: &str,
        account: &str,
        value: &str,
    ) -> (r: Result<(), Error>)
        requires
            old(self).wf(),
        ensures
            final(self).wf(),
            !old(self)@.admins.contains(sender@) ==> r == Err::<(), Error>(Error::Unauthorized),
            old(self)@.admins.contains(sender@) ==> (r is Err <==> old(self)@.commission_refusal(
                token_id@,
                mode@,
                account@,
                value@,
            ) is Some),
            old(self)@.admins.contains(sender@) ==> (r matches Err(e) ==> Some(e) == old(
                self,
            )@.commission_refusal(token_id@, mode@, account@, value@)),
            r is Err ==> final(self)@ == old(self)@,
            r is Ok ==> final(self)@ == old(self)@.with_commission(
                token_id@,
                property@,
                mode@,
                account@,
                value@,
            ),
    {
        if !self.admins.is_admin(sender.0.as_str()) {
            return Err(Error::Unauthorized);
        }
        self.set_token_commission(token_id, property, mode, account, value)
    }
}

/// The minter role of a registry, without any check of who calls: the
/// registry's own `grant_minter` and `revoke_minter` are these behind the
/// administrator check.
pub trait MinterControl {
    /// Whether the value is fit for use.
    spec fn valid(&self) -> bool;

    /// The minters.
    spec fn minters(&self) -> Set<Seq<char>>;

    /// Starts over with no minter at all.
    fn init(&mut self)
        requires
            old(self).valid(),
        ensures
            final(self).valid(),
            final(self).minters() == Set::<Seq<char>>::empty(),
    ;

    /// Takes the minter role from `address`; nothing changes where it had none.
    fn revoke_minter(&mut self, address: &str)
        requires
            old(self).valid(),
        ensures
            final(self).valid(),
            final(self).minters() == old(self).minters().remove(address@),
    ;

    /// Gives `address` the minter role; nothing changes where it had it.
    fn add_minter(&mut self, address: &str)
        requires
            old(self).valid(),
        ensures
            final(self).valid(),
            final(self).minters() == old(self).minters().insert(address@),
    ;

    /// Whether `address` has the minter role.
    fn is_minter(&self, address: &str) -> (r: bool)
        requires
            self.valid(),
        ensures
            r == self.minters().contains(address@),
    ;
}

impl MinterControl for CaskToken {
    open spec fn valid(&self) -> bool {
        self.wf()
    }

    open spec fn minters(&self) -> Set<Seq<char>> {
        self@.minters
    }

    fn init(&mut self)
        ensures
            final(self)@ == (TokenView { minters: Set::<Seq<char>>::empty(), ..old(self)@ }),
    {
        self.minters.init();
    }

    fn revoke_minter(&mut self, address: &str)
        ensures
            final(self)@ == (TokenView {
                minters: old(self)@.minters.remove(address@),
                ..old(self)@
            }),
    {
        self.minters.revoke_minter(address);
    }

    fn add_minter(&mut self, address: &str)
        ensures
            final(self)@ == (TokenView {
                minters: old(self)@.minters.insert(address@),
                ..old(self)@
            }),
    {
        self.minters.add_minter(address);
    }

    fn is_minter(&self, address: &str) -> (r: bool) {
        self.minters.is_minter(address)
    }
}

} // verus!
