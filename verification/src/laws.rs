//! What holds of the registry in every state and across its operations.

use crate::attributes::{account_key, change_refused, changed, mode_of, rate_key, Mode};
use crate::error::Error;
use crate::ids::{decimal, generated, lemma_numeral_value};
use crate::token::{filled, TokenView};
use vstd::prelude::*;

verus! {

/// The sequence of an owner lists exactly the tokens that the ledger gives to
/// that owner, each once: the balance is their number, and the positions
/// below the balance enumerate them without gap or repetition.
pub proof fn law_index_enumerates_owned(v: TokenView, owner: Seq<char>)
    requires
        v.consistent(),
    ensures
        v.tokens_of(owner).no_duplicates(),
        v.tokens_of(owner).to_set() == Set::new(|id: Seq<char>| v.owner_of(id) == Some(owner)),
        v.balance_of(owner) == Set::new(|id: Seq<char>| v.owner_of(id) == Some(owner)).len(),
        forall|i: int|
            0 <= i < v.balance_of(owner) ==> v.owner_of(#[trigger] v.tokens_of(owner)[i]) == Some(
                owner,
            ),
{
    let held = v.tokens_of(owner);
    let owned = Set::new(|id: Seq<char>| v.owner_of(id) == Some(owner));
    assert(v.ledger.holdings.contains_key(owner));
    assert(v.ledger.holdings[owner].no_duplicates());
    assert forall|id: Seq<char>| held.to_set().contains(id) <==> owned.contains(id) by {
        if held.to_set().contains(id) {
            let i = choose|i: int| 0 <= i < held.len() && held[i] == id;
            assert(v.ledger.owners.contains_key(v.ledger.holdings[owner][i]));
        }
        if owned.contains(id) {
            assert(v.ledger.owners.contains_key(id));
            assert(v.ledger.holdings[v.ledger.owners[id]].contains(id));
        }
    }
    assert(held.to_set() =~= owned);
    held.unique_seq_to_set();
    assert forall|i: int| 0 <= i < v.balance_of(owner) implies v.owner_of(
        #[trigger] v.tokens_of(owner)[i],
    ) == Some(owner) by {
        assert(v.ledger.owners.contains_key(v.ledger.holdings[owner][i]));
    }
}

/// A token of the ledger stands at exactly one position of exactly one
/// sequence, that of its owner.
pub proof fn law_token_has_one_place(
    v: TokenView,
    id: Seq<char>,
    owner: Seq<char>,
    position: int,
    other_owner: Seq<char>,
    other_position: int,
)
    requires
        v.consistent(),
        0 <= position < v.balance_of(owner),
        v.tokens_of(owner)[position] == id,
        0 <= other_position < v.balance_of(other_owner),
        v.tokens_of(other_owner)[other_position] == id,
    ensures
        v.owner_of(id) == Some(owner),
        other_owner == owner,
        other_position == position,
{
    assert(v.ledger.owners.contains_key(v.ledger.holdings[owner][position]));
    assert(v.ledger.owners.contains_key(v.ledger.holdings[other_owner][other_position]));
    assert(v.ledger.holdings[owner].no_duplicates());
}

/// The owner of a token holds it at some position below its balance.
pub proof fn law_owner_holds_token(v: TokenView, id: Seq<char>, owner: Seq<char>)
    requires
        v.consistent(),
        v.owner_of(id) == Some(owner),
    ensures
        exists|i: int| 0 <= i < v.balance_of(owner) && v.tokens_of(owner)[i] == id,
{
    assert(v.ledger.owners.contains_key(id));
    let held = v.ledger.holdings[v.ledger.owners[id]];
    assert(held.contains(id));
    let i = choose|i: int| 0 <= i < held.len() && held[i] == id;
    assert(0 <= i < v.balance_of(owner) && v.tokens_of(owner)[i] == id);
}

/// A token that was burned can be minted again under the same id, and the new
/// token has the records it was minted with and nothing of the old one.
pub proof fn law_burned_id_can_be_minted_again(
    v: TokenView,
    caller: Seq<char>,
    owner: Seq<char>,
    recipient: Seq<char>,
    id: Seq<char>,
    meta: Map<Seq<char>, Seq<char>>,
    commission: Map<Seq<char>, Seq<char>>,
)
    requires
        v.consistent(),
        v.is_operator(caller),
        v.owner_of(id) == Some(owner),
    ensures
        v.burn_refusal(caller, owner, seq![id]) is None,
        v.burned(seq![id]).owner_of(id) is None,
        !v.burned(seq![id]).metas.contains_key(id),
        !v.burned(seq![id]).gauges.contains_key(id),
        !v.burned(seq![id]).warehouses.contains_key(id),
        !v.burned(seq![id]).commissions.contains_key(id),
        v.burned(seq![id]).mint_refusal(caller, Some(seq![id]), 1, None, None, 1) is None,
        v.burned(seq![id]).after_mint(
            recipient,
            Some(seq![id]),
            seq![meta],
            None,
            None,
            seq![commission],
        ).owner_of(id) == Some(recipient),
        v.burned(seq![id]).after_mint(
            recipient,
            Some(seq![id]),
            seq![meta],
            None,
            None,
            seq![commission],
        ).metas[id] == meta,
        v.burned(seq![id]).after_mint(
            recipient,
            Some(seq![id]),
            seq![meta],
            None,
            None,
            seq![commission],
        ).commissions[id] == commission,
{
    let one = seq![id];
    assert(one.drop_last() =~= Seq::empty());
    assert(one.last() == id);
    assert(one[0] == id);
    assert(v.burned(one.drop_last()) == v);
    let b = v.burned(one);
    assert(b.ledger == v.ledger.unbound(id));
    assert(b.minters == v.minters && b.admins == v.admins);
    let metas = seq![meta];
    let commissions = seq![commission];
    assert(metas.drop_last() =~= Seq::empty());
    assert(commissions.drop_last() =~= Seq::empty());
    let blank = filled(None, 1);
    assert(b.minted(
        recipient,
        one.drop_last(),
        metas.drop_last(),
        blank.drop_last(),
        blank.drop_last(),
        commissions.drop_last(),
    ) == b);
    assert(metas.last() == meta);
    assert(commissions.last() == commission);
}

/// A mint whose lists differ in length is refused, whoever calls and whatever
/// the ids are.
pub proof fn law_mismatched_mint_is_refused(
    v: TokenView,
    caller: Seq<char>,
    ids: Option<Seq<Seq<char>>>,
    metas: nat,
    gauges: Option<nat>,
    warehouses: Option<nat>,
    commissions: nat,
)
    requires
        commissions != metas || (ids is Some && ids.unwrap().len() != metas) || (gauges is Some
            && gauges.unwrap() != metas) || (warehouses is Some && warehouses.unwrap() != metas),
    ensures
        v.mint_refusal(caller, ids, metas, gauges, warehouses, commissions) == Some(
            if v.is_operator(caller) {
                Error::ArgumentShapeMismatch
            } else {
                Error::Unauthorized
            },
        ),
{
}

/// An update with an empty account or an empty rate is refused, whatever the
/// token and the property are.
pub proof fn law_update_needs_account_and_rate(
    v: TokenView,
    id: Seq<char>,
    account: Seq<char>,
    rate: Seq<char>,
)
    requires
        account.len() == 0 || rate.len() == 0,
    ensures
        change_refused("UPDATE"@, account, rate),
        v.commission_refusal(id, "UPDATE"@, account, rate) is Some,
{
    reveal_strlit("ADD");
    reveal_strlit("UPDATE");
    assert("UPDATE"@.len() != "ADD"@.len());
    assert(mode_of("UPDATE"@) == Some(Mode::Update));
}

/// Deleting a property of an existing token is never refused, and where the
/// record has no entry for the property the registry stays as it is.
pub proof fn law_delete_of_absent_property_changes_nothing(
    v: TokenView,
    id: Seq<char>,
    property: Seq<char>,
    account: Seq<char>,
    rate: Seq<char>,
)
    requires
        v.consistent(),
        v.ledger.owners.contains_key(id),
        !v.commissions[id].contains_key(account_key(property)),
        !v.commissions[id].contains_key(rate_key(property)),
    ensures
        v.commission_refusal(id, "DELETE"@, account, rate) is None,
        v.with_commission(id, property, "DELETE"@, account, rate) == v,
{
    reveal_strlit("ADD");
    reveal_strlit("UPDATE");
    reveal_strlit("DELETE");
    assert("DELETE"@.len() != "ADD"@.len());
    assert("DELETE"@[0] != "UPDATE"@[0]);
    assert(mode_of("DELETE"@) == Some(Mode::Delete));
    assert(v.commissions.dom().contains(id));
    let record = v.commissions[id];
    assert(changed(record, property, Mode::Delete, account, rate) =~= record);
    assert(v.with_commission(id, property, "DELETE"@, account, rate).commissions =~= v.commissions);
}

/// A property that was added or updated carries both its account and its
/// rate; one that was deleted carries neither. Entries of other keys stay.
pub proof fn law_property_is_whole(
    record: Map<Seq<char>, Seq<char>>,
    property: Seq<char>,
    mode: Mode,
    account: Seq<char>,
    rate: Seq<char>,
    other: Seq<char>,
)
    requires
        other != account_key(property),
        other != rate_key(property),
    ensures
        mode != Mode::Delete ==> {
            let after = changed(record, property, mode, account, rate);
            &&& after.contains_key(account_key(property))
            &&& after[account_key(property)] == account
            &&& after.contains_key(rate_key(property))
            &&& after[rate_key(property)] == rate
        },
        mode == Mode::Delete ==> {
            let after = changed(record, property, mode, account, rate);
            &&& !after.contains_key(account_key(property))
            &&& !after.contains_key(rate_key(property))
        },
        changed(record, property, mode, account, rate).contains_key(other) == record.contains_key(
            other,
        ),
        record.contains_key(other) ==> changed(record, property, mode, account, rate)[other]
            == record[other],
{
    reveal_strlit("_account");
    reveal_strlit("_rate");
    assert(account_key(property).len() != rate_key(property).len());
}

/// Different serial numbers have different numerals, so the ids that the
/// registry makes up for one batch are pairwise distinct.
pub proof fn law_made_up_ids_are_distinct(start: nat, count: nat)
    ensures
        generated(start, count).no_duplicates(),
{
    let made = generated(start, count);
    assert forall|i: int, j: int| 0 <= i < made.len() && 0 <= j < made.len() && i != j implies made[i]
        != made[j] by {
        lemma_numeral_value((start + i) as nat);
        lemma_numeral_value((start + j) as nat);
    }
}

/// The ids that the registry makes up for a batch differ from every id that
/// it made up before.
pub proof fn law_made_up_ids_are_new(start: nat, count: nat, earlier: nat)
    requires
        earlier < start,
    ensures
        !generated(start, count).contains(decimal(earlier)),
{
    let made = generated(start, count);
    assert forall|i: int| 0 <= i < made.len() implies made[i] != decimal(earlier) by {
        lemma_numeral_value((start + i) as nat);
        lemma_numeral_value(earlier);
    }
}

} // verus!
