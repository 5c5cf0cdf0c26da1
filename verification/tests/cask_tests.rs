use cask::attributes::{Commission, Meta};
use cask::record::Record;
use cask::roles::Sender;
use cask::token::{CaskToken, Policy};

const NAME: &str = "CaskNFT";
const SYMBOL: &str = "CNFT";

fn contract_meta() -> Meta {
    let mut meta = Meta::new();
    meta.insert("origin".to_string(), "small".to_string());
    meta
}

fn big_cask() -> Meta {
    let mut meta = Meta::new();
    meta.insert("size".to_string(), "big".to_string());
    meta
}

fn medium_cask() -> Meta {
    let mut meta = Meta::new();
    meta.insert("size".to_string(), "medium".to_string());
    meta
}

fn commission(properties: Vec<String>, accounts: Vec<String>, rates: Vec<String>) -> Commission {
    let mut commission = Commission::new();
    for ((property, account), rate) in properties.iter().zip(accounts.iter()).zip(rates.iter()) {
        commission.insert(format!("{}_account", property.clone()), account.to_string());
        commission.insert(format!("{}_rate", property.clone()), rate.clone());
    }
    commission
}

fn gated() -> Policy {
    Policy {
        owner_may_burn: false,
        owner_may_update: false,
        identity_check: true,
    }
}

struct TestEnv {
    users: u32,
}

impl TestEnv {
    fn next_user(&mut self) -> String {
        self.users += 1;
        format!("account-hash-{:064x}", self.users)
    }
}

/// The identity registry, the token registry and the deployer.
fn deploy() -> (TestEnv, CaskToken, CaskToken, String) {
    let mut env = TestEnv { users: 0 };
    let owner = env.next_user();
    let open = Policy {
        owner_may_burn: false,
        owner_may_update: false,
        identity_check: false,
    };
    let kyc_token = CaskToken::constructor(
        "kyc".to_string(),
        "KYC".to_string(),
        Record::new(),
        &owner,
        open,
    );
    let cask_token = CaskToken::constructor(
        NAME.to_string(),
        SYMBOL.to_string(),
        contract_meta(),
        &owner,
        gated(),
    );
    (env, kyc_token, cask_token, owner)
}

#[test]
fn cask_tests_test_deploy() {
    let (_, _, token, owner) = deploy();
    assert_eq!(token.name(), NAME);
    assert_eq!(token.symbol(), SYMBOL);
    assert!(token.meta().equals(&contract_meta()));
    assert_eq!(token.total_supply(), 0);
    assert!(token.is_admin(&owner));
}

#[test]
fn cask_tests_test_grant_admin() {
    let (mut env, _, mut token, owner) = deploy();
    let user = env.next_user();

    token.grant_admin(&Sender(owner), &user).unwrap();
    assert!(token.is_admin(&user));
}

#[test]
fn cask_tests_test_revoke_admin() {
    let (mut env, _, mut token, owner) = deploy();
    let user = env.next_user();

    token.grant_admin(&Sender(owner.clone()), &user).unwrap();
    assert!(token.is_admin(&user));

    token.revoke_admin(&Sender(owner), &user).unwrap();
    assert!(!token.is_admin(&user));
}

#[test]
fn test_grant_minter() {
    let (mut env, _, mut token, owner) = deploy();
    let alice = env.next_user();
    let bob = env.next_user();

    token.grant_admin(&Sender(owner), &alice).unwrap();
    token.grant_minter(&Sender(alice), &bob).unwrap();
    assert!(token.is_minter(&bob));
}

#[test]
fn test_revoke_minter() {
    let (mut env, _, mut token, owner) = deploy();
    let alice = env.next_user();
    let bob = env.next_user();

    token.grant_minter(&Sender(owner.clone()), &bob).unwrap();
    assert!(token.is_minter(&bob));

    token.grant_admin(&Sender(owner), &alice).unwrap();
    token.revoke_minter(&Sender(alice), &bob).unwrap();
    assert!(!token.is_minter(&bob));
}

#[test]
fn cask_tests_test_mint_from_minter() {
    let (mut env, _, mut token, owner) = deploy();
    let ali = env.next_user();
    let bob = env.next_user();
    let token_id = String::from("custom_token_id");
    let token_meta = big_cask();
    let token_commission = commission(
        vec!["artist".to_string(), "broker".to_string()],
        vec![ali.clone(), bob.clone()],
        vec!["10".to_string(), "12".to_string()],
    );

    token.grant_minter(&Sender(owner), &ali).unwrap();

    token
        .mint(
            &Sender(ali),
            &bob,
            Some(vec![token_id.clone()]),
            vec![token_meta.clone()],
            vec![token_commission.clone()],
        )
        .unwrap();

    let user_token_meta = token.token_meta(&token_id);
    assert!(user_token_meta.unwrap().equals(&token_meta));

    let user_token_commission = token.token_commission(&token_id);
    assert!(user_token_commission.unwrap().equals(&token_commission));

    let first_user_token = token.get_token_by_index(&bob, 0);
    assert_eq!(first_user_token, Some(token_id));
}

#[test]
#[should_panic]
fn cask_tests_test_mint_with_wrong_arguments() {
    let (mut env, _, mut token, owner) = deploy();
    let ali = env.next_user();
    let bob = env.next_user();
    let token_meta = big_cask();

    token.grant_minter(&Sender(owner), &ali).unwrap();

    token.mint(&Sender(ali), &bob, None, vec![token_meta], vec![]).unwrap();
}

#[test]
#[should_panic]
fn cask_tests_test_mint_from_non_minter() {
    let (mut env, _, mut token, _) = deploy();
    let ali = env.next_user();
    let bob = env.next_user();
    let token_id = String::from("custom_token_id");
    let token_meta = big_cask();
    let token_commission = commission(
        vec!["artist".to_string(), "broker".to_string()],
        vec![ali.clone(), bob.clone()],
        vec!["10".to_string(), "12".to_string()],
    );

    token
        .mint(&Sender(ali), &bob, Some(vec![token_id]), vec![token_meta], vec![token_commission])
        .unwrap();
}

#[test]
fn test_mint_copies_from_minter() {
    let (mut env, _, mut token, owner) = deploy();
    let ali = env.next_user();
    let bob = env.next_user();
    let token_meta = big_cask();
    let token_commission = commission(
        vec!["artist".to_string(), "broker".to_string()],
        vec![ali.clone(), bob.clone()],
        vec!["10".to_string(), "12".to_string()],
    );

    token.grant_minter(&Sender(owner), &ali).unwrap();

    token.mint_copies(&Sender(ali), &bob, None, token_meta.clone(), token_commission, 3).unwrap();

    let first_user_token = token.get_token_by_index(&bob, 0);
    let second_user_token = token.get_token_by_index(&bob, 1);
    let third_user_token = token.get_token_by_index(&bob, 2);
    let fourth_user_token = token.get_token_by_index(&bob, 3);
    assert_eq!(token.total_supply(), 3);
    assert_eq!(token.balance_of(&bob), 3);
    assert_eq!(fourth_user_token, None);
    assert_eq!(token.owner_of(&first_user_token.clone().unwrap()).unwrap(), bob);
    assert_eq!(token.owner_of(&second_user_token.clone().unwrap()).unwrap(), bob);
    assert_eq!(token.owner_of(&third_user_token.unwrap()).unwrap(), bob);

    let mut user_token_meta = token.token_meta(&first_user_token.unwrap());
    assert!(user_token_meta.unwrap().equals(&token_meta));

    user_token_meta = token.token_meta(&second_user_token.unwrap());
    assert!(user_token_meta.unwrap().equals(&token_meta));
}

#[test]
fn test_burn_from_minter() {
    let (mut env, _, mut token, owner) = deploy();
    let ali = env.next_user();
    let bob = env.next_user();
    let token_meta = big_cask();
    let token_commission = commission(
        vec!["artist".to_string(), "broker".to_string()],
        vec![ali.clone(), bob.clone()],
        vec!["10".to_string(), "12".to_string()],
    );

    token
        .mint_copies(&Sender(owner.clone()), &bob, None, token_meta, token_commission, 2)
        .unwrap();

    token.grant_minter(&Sender(owner), &ali).unwrap();

    let first_user_token = token.get_token_by_index(&bob, 0);
    let second_user_token = token.get_token_by_index(&bob, 1);
    token.burn(&Sender(ali), &bob, vec![first_user_token.unwrap()]).unwrap();
    assert_eq!(token.total_supply(), 1);
    assert_eq!(token.balance_of(&bob), 1);

    let new_first_user_token = token.get_token_by_index(&bob, 0);
    let new_second_user_token = token.get_token_by_index(&bob, 1);
    assert_eq!(new_first_user_token, second_user_token);
    assert_eq!(new_second_user_token, None);
}

#[test]
#[should_panic]
fn cask_tests_test_burn_from_non_minter() {
    let (mut env, _, mut token, owner) = deploy();
    let ali = env.next_user();
    let bob = env.next_user();
    let token_meta = big_cask();
    let token_commission = commission(
        vec!["artist".to_string(), "broker".to_string()],
        vec![ali.clone(), bob.clone()],
        vec!["10".to_string(), "12".to_string()],
    );

    token.mint_copies(&Sender(owner), &bob, None, token_meta, token_commission, 2).unwrap();

    let first_user_token = token.get_token_by_index(&bob, 0);
    token.burn(&Sender(ali), &bob, vec![first_user_token.unwrap()]).unwrap();
}

#[test]
fn cask_tests_test_transfer_from_owner() {
    let (mut env, mut kyc, mut token, owner) = deploy();
    let ali = env.next_user();
    let bob = env.next_user();
    let token_meta = big_cask();
    let token_commission = commission(
        vec!["artist".to_string(), "broker".to_string()],
        vec![ali.clone(), bob.clone()],
        vec!["10".to_string(), "12".to_string()],
    );

    token
        .mint_copies(&Sender(owner.clone()), &ali, None, token_meta, token_commission, 2)
        .unwrap();
    let first_ali_token = token.get_token_by_index(&ali, 0);
    let second_ali_token = token.get_token_by_index(&ali, 1);

    assert_eq!(token.total_supply(), 2);
    assert_eq!(token.balance_of(&ali), 2);
    assert_eq!(token.owner_of(&first_ali_token.clone().unwrap()).unwrap(), ali);
    assert_eq!(token.owner_of(&second_ali_token.clone().unwrap()).unwrap(), ali);
    kyc.mint(&Sender(owner), &bob, None, vec![Meta::new()], vec![Commission::new()]).unwrap();
    let bob_is_verified = kyc.balance_of(&bob) > 0;
    let moved = token.transfer_from(
        &Sender(ali.clone()),
        &ali,
        &bob,
        vec![first_ali_token.clone().unwrap()],
        bob_is_verified,
    );
    assert_eq!(moved, Ok(()));
    assert_eq!(token.total_supply(), 2);
    assert_eq!(token.balance_of(&ali), 1);
    assert_eq!(token.balance_of(&bob), 1);
    assert_eq!(token.owner_of(&first_ali_token.unwrap()).unwrap(), bob);
    assert_eq!(token.get_token_by_index(&ali, 0), second_ali_token);
}

#[test]
fn cask_tests_test_transfer_from_admin() {
    let (mut env, _, mut token, owner) = deploy();
    let ali = env.next_user();
    let bob = env.next_user();
    let token_meta = big_cask();
    let token_commission = commission(
        vec!["artist".to_string(), "broker".to_string()],
        vec![ali.clone(), bob.clone()],
        vec!["10".to_string(), "12".to_string()],
    );

    token
        .mint_copies(&Sender(owner.clone()), &ali, None, token_meta, token_commission, 2)
        .unwrap();
    let first_ali_token = token.get_token_by_index(&ali, 0);
    let second_ali_token = token.get_token_by_index(&ali, 1);

    assert_eq!(token.total_supply(), 2);
    assert_eq!(token.balance_of(&ali), 2);
    assert_eq!(token.owner_of(&first_ali_token.clone().unwrap()).unwrap(), ali);
    assert_eq!(token.owner_of(&second_ali_token.unwrap()).unwrap(), ali);
    token
        .transfer_from(&Sender(owner), &ali, &bob, vec![first_ali_token.unwrap()], false)
        .unwrap();
    let new_first_ali_token = token.get_token_by_index(&ali, 0);
    let new_second_ali_token = token.get_token_by_index(&ali, 1);
    let new_first_bob_token = token.get_token_by_index(&bob, 0);
    let new_second_bob_token = token.get_token_by_index(&bob, 1);
    println!("{:?}", new_first_ali_token);
    println!("{:?}", new_second_ali_token);
    println!("{:?}", new_first_bob_token);
    println!("{:?}", new_second_bob_token);
    assert_eq!(token.total_supply(), 2);
    assert_eq!(token.balance_of(&ali), 1);
    assert_eq!(token.balance_of(&bob), 1);
    assert_eq!(token.owner_of(&new_first_ali_token.unwrap()).unwrap(), ali);
    assert_eq!(token.owner_of(&new_first_bob_token.unwrap()).unwrap(), bob);
    assert_eq!(new_second_ali_token, None);
    assert_eq!(new_second_bob_token, None);
}

#[test]
#[should_panic]
fn cask_tests_test_transfer_from_minter() {
    let (mut env, _, mut token, owner) = deploy();
    let ali = env.next_user();
    let bob = env.next_user();
    let token_meta = big_cask();
    let token_commission = commission(
        vec!["artist".to_string(), "broker".to_string()],
        vec![ali.clone(), bob.clone()],
        vec!["10".to_string(), "12".to_string()],
    );

    token
        .mint_copies(&Sender(owner.clone()), &ali, None, token_meta, token_commission, 2)
        .unwrap();
    let first_ali_token = token.get_token_by_index(&ali, 0);
    let second_ali_token = token.get_token_by_index(&ali, 1);

    assert_eq!(token.total_supply(), 2);
    assert_eq!(token.balance_of(&ali), 2);
    assert_eq!(token.owner_of(&first_ali_token.clone().unwrap()).unwrap(), ali);
    assert_eq!(token.owner_of(&second_ali_token.unwrap()).unwrap(), ali);
    token.grant_minter(&Sender(owner), &bob).unwrap();
    token
        .transfer_from(&Sender(bob.clone()), &ali, &bob, vec![first_ali_token.unwrap()], false)
        .unwrap();
}

#[test]
fn cask_tests_test_transfer() {
    let (mut env, mut kyc, mut token, owner) = deploy();
    let ali = env.next_user();
    let bob = env.next_user();
    let token_meta = big_cask();
    let mut kyc_token_meta = Meta::new();
    kyc_token_meta.insert("status".to_string(), "active".to_string());
    let token_commission = commission(
        vec!["artist".to_string(), "broker".to_string()],
        vec![ali.clone(), bob.clone()],
        vec!["10".to_string(), "12".to_string()],
    );

    token
        .mint_copies(&Sender(owner.clone()), &ali, None, token_meta, token_commission, 2)
        .unwrap();
    let first_ali_token = token.get_token_by_index(&ali, 0);
    let second_ali_token = token.get_token_by_index(&ali, 1);

    assert_eq!(token.total_supply(), 2);
    assert_eq!(token.balance_of(&ali), 2);
    assert_eq!(token.owner_of(&first_ali_token.clone().unwrap()).unwrap(), ali);
    assert_eq!(token.owner_of(&second_ali_token.unwrap()).unwrap(), ali);
    kyc.mint(&Sender(owner), &bob, None, vec![kyc_token_meta], vec![Commission::new()]).unwrap();
    let bob_is_verified = kyc.balance_of(&bob) > 0;
    token.transfer(&Sender(ali.clone()), &bob, vec![first_ali_token.unwrap()], bob_is_verified).unwrap();
    let new_first_ali_token = token.get_token_by_index(&ali, 0);
    let new_second_ali_token = token.get_token_by_index(&ali, 1);
    let new_first_bob_token = token.get_token_by_index(&bob, 0);
    let new_second_bob_token = token.get_token_by_index(&bob, 1);
    println!("{:?}", new_first_ali_token);
    println!("{:?}", new_second_ali_token);
    println!("{:?}", new_first_bob_token);
    println!("{:?}", new_second_bob_token);
    assert_eq!(token.total_supply(), 2);
    assert_eq!(token.balance_of(&ali), 1);
    assert_eq!(token.balance_of(&bob), 1);
    assert_eq!(token.owner_of(&new_first_ali_token.unwrap()).unwrap(), ali);
    assert_eq!(token.owner_of(&new_first_bob_token.unwrap()).unwrap(), bob);
    assert_eq!(new_second_ali_token, None);
    assert_eq!(new_second_bob_token, None);
}

#[test]
fn cask_tests_test_token_meta() {
    let (mut env, _, mut token, owner) = deploy();
    let ali = env.next_user();
    let bob = env.next_user();
    let token_id = String::from("123456");
    let token_meta = big_cask();
    let token_commission = commission(
        vec!["artist".to_string(), "broker".to_string()],
        vec![ali.clone(), bob.clone()],
        vec!["10".to_string(), "12".to_string()],
    );

    token
        .mint_copies(
            &Sender(owner),
            &ali,
            Some(vec![token_id.clone()]),
            token_meta.clone(),
            token_commission.clone(),
            1,
        )
        .unwrap();

    let user_token_meta = token.token_meta(&token_id);
    assert!(user_token_meta.unwrap().equals(&token_meta));

    let user_token_commission = token.token_commission(&token_id);
    assert!(user_token_commission.unwrap().equals(&token_commission));

    let first_user_token = token.get_token_by_index(&ali, 0);
    assert_eq!(first_user_token, Some(token_id));
}

#[test]
fn test_token_metadata_set_from_minter() {
    let (mut env, _, mut token, owner) = deploy();
    let ali = env.next_user();
    let bob = env.next_user();
    let token_id = String::from("123456");
    let token_meta = big_cask();
    let token_commission = commission(
        vec!["artist".to_string(), "broker".to_string()],
        vec![ali.clone(), bob.clone()],
        vec!["10".to_string(), "12".to_string()],
    );

    token
        .mint_copies(
            &Sender(owner.clone()),
            &ali,
            Some(vec![token_id.clone()]),
            token_meta,
            token_commission,
            1,
        )
        .unwrap();
    token.grant_minter(&Sender(owner), &ali).unwrap();
    token.set_token_meta(&Sender(ali.clone()), &token_id, medium_cask()).unwrap();
    token
        .update_token_meta(&Sender(ali), &token_id, "size".to_string(), "big".to_string())
        .unwrap();
    assert!(token.token_meta(&token_id).unwrap().equals(&big_cask()));
}

#[test]
#[should_panic]
fn test_token_metadata_set_from_owner() {
    let (mut env, _, mut token, owner) = deploy();
    let ali = env.next_user();
    let bob = env.next_user();
    let token_id = String::from("123456");
    let token_meta = big_cask();
    let token_commission = commission(
        vec!["artist".to_string(), "broker".to_string()],
        vec![ali.clone(), bob.clone()],
        vec!["10".to_string(), "12".to_string()],
    );

    token
        .mint_copies(
            &Sender(owner),
            &ali,
            Some(vec![token_id.clone()]),
            token_meta,
            token_commission,
            1,
        )
        .unwrap();
    token.set_token_meta(&Sender(ali), &token_id, medium_cask()).unwrap();
}

#[test]
fn test_token_commission_update_from_admin() {
    let (mut env, _, mut token, owner) = deploy();
    let ali = env.next_user();
    let bob = env.next_user();
    let token_id = String::from("123456");
    let token_meta = big_cask();
    let token_commission =
        commission(vec!["artist".to_string()], vec![ali.clone()], vec!["10".to_string()]);

    token
        .mint_copies(
            &Sender(owner.clone()),
            &ali,
            Some(vec![token_id.clone()]),
            token_meta,
            token_commission,
            1,
        )
        .unwrap();
    token
        .update_token_commission(&Sender(owner.clone()), &token_id, "artist", "UPDATE", &owner, "12")
        .unwrap();
    let mut user_token_commission = token.token_commission(&token_id);
    assert!(user_token_commission.unwrap().equals(&commission(
        vec!["artist".to_string()],
        vec![owner.clone()],
        vec!["12".to_string()],
    )));
    token
        .update_token_commission(&Sender(owner.clone()), &token_id, "broker", "ADD", &bob, "10")
        .unwrap();
    user_token_commission = token.token_commission(&token_id);
    assert!(user_token_commission.unwrap().equals(&commission(
        vec!["artist".to_string(), "broker".to_string()],
        vec![owner.clone(), bob.clone()],
        vec!["12".to_string(), "10".to_string()],
    )));
    token
        .update_token_commission(&Sender(owner.clone()), &token_id, "broker", "DELETE", &bob, "")
        .unwrap();
    user_token_commission = token.token_commission(&token_id);
    assert!(user_token_commission.unwrap().equals(&commission(
        vec!["artist".to_string()],
        vec![owner.clone()],
        vec!["12".to_string()],
    )));
}

#[test]
#[should_panic]
fn test_token_commission_update_from_minter() {
    let (mut env, _, mut token, owner) = deploy();
    let ali = env.next_user();
    let bob = env.next_user();
    let token_id = String::from("123456");
    let token_meta = big_cask();
    let token_commission =
        commission(vec!["artist".to_string()], vec![ali.clone()], vec!["10".to_string()]);

    token
        .mint_copies(
            &Sender(owner.clone()),
            &ali,
            Some(vec![token_id.clone()]),
            token_meta,
            token_commission,
            1,
        )
        .unwrap();
    token.grant_minter(&Sender(owner.clone()), &bob).unwrap();
    token
        .update_token_commission(&Sender(bob), &token_id, "artist", "UPDATE", &owner, "12")
        .unwrap();
}

#[test]
#[should_panic]
fn test_token_commission_update_from_owner() {
    let (mut env, _, mut token, owner) = deploy();
    let ali = env.next_user();
    let token_id = String::from("123456");
    let token_meta = big_cask();
    let token_commission =
        commission(vec!["artist".to_string()], vec![ali.clone()], vec!["10".to_string()]);

    token
        .mint_copies(
            &Sender(owner.clone()),
            &ali,
            Some(vec![token_id.clone()]),
            token_meta,
            token_commission,
            1,
        )
        .unwrap();
    token
        .update_token_commission(&Sender(ali), &token_id, "artist", "UPDATE", &owner, "12")
        .unwrap();
}
