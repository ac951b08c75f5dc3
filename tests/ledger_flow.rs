use snip1155::contract::{
    handle, init, pad_response, query, HandleAnswer, HandleMsg, InitMsg, QueryAnswer, QueryMsg,
};
use snip1155::ledger::{ContractError, Ledger};
use snip1155::state::{Balance, Env, MintTokenId, Permission, TknInfo, TokenAmount, TxAction};

fn s(x: &str) -> String {
    x.to_string()
}

fn env(sender: &str) -> Env {
    Env { sender: s(sender), block_height: 12, block_time: 1_000 }
}

fn info(id: &str, is_nft: bool, enable_burn: bool) -> TknInfo {
    TknInfo { token_id: s(id), name: s(id), symbol: s("TKN"), is_nft, enable_burn }
}

fn bal(address: &str, amount: u128) -> Balance {
    Balance { address: s(address), amount }
}

fn new_ledger() -> Ledger {
    let msg = InitMsg {
        has_admin: true,
        admin: None,
        minters: vec![s("admin")],
        initial_tokens: vec![],
        entropy: s("seed entropy"),
    };
    init(&env("admin"), msg).unwrap()
}

fn create(l: &mut Ledger, id: &str, is_nft: bool, enable_burn: bool, balances: Vec<Balance>) -> Result<(), ContractError> {
    let msg = HandleMsg::MintTokenIds {
        initial_tokens: vec![MintTokenId { token_info: info(id, is_nft, enable_burn), balances }],
        memo: None,
    };
    handle(l, &env("admin"), msg).map(|_| ())
}

fn transfer(l: &mut Ledger, caller: &str, id: &str, from: &str, to: &str, amount: u128) -> Result<(), ContractError> {
    let msg = HandleMsg::Transfer {
        token_id: s(id),
        from: s(from),
        recipient: s(to),
        amount,
        memo: None,
    };
    handle(l, &env(caller), msg).map(|_| ())
}

fn grant(l: &mut Ledger, owner: &str, delegate: &str, id: &str, allowance: u128) {
    let msg = HandleMsg::GivePermission {
        address: s(delegate),
        token_id: s(id),
        view_owner: None,
        view_private_metadata: None,
        transfer: Some(allowance),
    };
    handle(l, &env(owner), msg).unwrap();
}

fn balance(l: &Ledger, id: &str, who: &str) -> u128 {
    l.balance(&s(id), &s(who))
}

#[test]
fn coin_walkthrough() {
    let mut l = new_ledger();
    create(&mut l, "coin", false, false, vec![bal("alice", 100)]).unwrap();
    transfer(&mut l, "alice", "coin", "alice", "bob", 30).unwrap();
    assert_eq!(balance(&l, "coin", "alice"), 70);
    assert_eq!(balance(&l, "coin", "bob"), 30);
    assert_eq!(
        transfer(&mut l, "bob", "coin", "alice", "bob", 10),
        Err(ContractError::NoTokenOrNoPermission)
    );
    grant(&mut l, "alice", "bob", "coin", 20);
    transfer(&mut l, "bob", "coin", "alice", "carol", 15).unwrap();
    assert_eq!(balance(&l, "coin", "alice"), 55);
    assert_eq!(balance(&l, "coin", "carol"), 15);
    assert_eq!(l.permission(&s("alice"), &s("coin"), &s("bob")).trfer_allowance_perm, 5);
    assert_eq!(
        transfer(&mut l, "bob", "coin", "alice", "carol", 10),
        Err(ContractError::InsufficientAllowance { allowance: 5 })
    );
    assert_eq!(balance(&l, "coin", "alice"), 55);
    assert_eq!(balance(&l, "coin", "carol"), 15);
    assert_eq!(balance(&l, "coin", "bob"), 30);
    assert_eq!(l.permission(&s("alice"), &s("coin"), &s("bob")).trfer_allowance_perm, 5);
}

#[test]
fn missing_token_and_missing_grant_look_alike() {
    let mut l = new_ledger();
    create(&mut l, "coin", false, false, vec![bal("alice", 10)]).unwrap();
    let no_grant = transfer(&mut l, "mallory", "coin", "alice", "mallory", 1);
    let no_token = transfer(&mut l, "mallory", "ghost", "alice", "mallory", 1);
    let own_no_token = transfer(&mut l, "alice", "ghost", "alice", "bob", 1);
    assert_eq!(no_grant, Err(ContractError::NoTokenOrNoPermission));
    assert_eq!(no_token, no_grant);
    assert_eq!(own_no_token, no_grant);
    assert_eq!(balance(&l, "coin", "alice"), 10);
}

#[test]
fn allowance_spent_over_two_transfers() {
    let mut l = new_ledger();
    create(&mut l, "coin", false, false, vec![bal("alice", 100)]).unwrap();
    grant(&mut l, "alice", "bob", "coin", 10);
    transfer(&mut l, "bob", "coin", "alice", "bob", 4).unwrap();
    transfer(&mut l, "bob", "coin", "alice", "bob", 6).unwrap();
    assert_eq!(l.permission(&s("alice"), &s("coin"), &s("bob")).trfer_allowance_perm, 0);
    assert_eq!(balance(&l, "coin", "bob"), 10);
    assert_eq!(
        transfer(&mut l, "bob", "coin", "alice", "bob", 1),
        Err(ContractError::InsufficientAllowance { allowance: 0 })
    );
}

#[test]
fn allowance_exceeded_changes_nothing() {
    let mut l = new_ledger();
    create(&mut l, "coin", false, false, vec![bal("alice", 100)]).unwrap();
    grant(&mut l, "alice", "bob", "coin", 10);
    transfer(&mut l, "bob", "coin", "alice", "bob", 7).unwrap();
    assert_eq!(
        transfer(&mut l, "bob", "coin", "alice", "bob", 4),
        Err(ContractError::InsufficientAllowance { allowance: 3 })
    );
    assert_eq!(l.permission(&s("alice"), &s("coin"), &s("bob")).trfer_allowance_perm, 3);
    assert_eq!(balance(&l, "coin", "alice"), 93);
    assert_eq!(balance(&l, "coin", "bob"), 7);
}

#[test]
fn failed_debit_keeps_allowance() {
    let mut l = new_ledger();
    create(&mut l, "coin", false, false, vec![bal("alice", 5)]).unwrap();
    grant(&mut l, "alice", "bob", "coin", 10);
    assert_eq!(
        transfer(&mut l, "bob", "coin", "alice", "bob", 8),
        Err(ContractError::InsufficientFunds)
    );
    assert_eq!(l.permission(&s("alice"), &s("coin"), &s("bob")).trfer_allowance_perm, 10);
    assert_eq!(l.config().tx_cnt, 1);
}

#[test]
fn grant_keeps_fields_not_given() {
    let mut l = new_ledger();
    let msg = HandleMsg::GivePermission {
        address: s("bob"),
        token_id: s("not-created"),
        view_owner: Some(true),
        view_private_metadata: None,
        transfer: Some(9),
    };
    handle(&mut l, &env("alice"), msg).unwrap();
    let msg = HandleMsg::GivePermission {
        address: s("bob"),
        token_id: s("not-created"),
        view_owner: None,
        view_private_metadata: Some(true),
        transfer: None,
    };
    handle(&mut l, &env("alice"), msg).unwrap();
    let p = l.permission(&s("alice"), &s("not-created"), &s("bob"));
    assert_eq!(
        p,
        Permission { view_owner_perm: true, view_pr_metadata_perm: true, trfer_allowance_perm: 9 }
    );
    let none = l.permission(&s("bob"), &s("not-created"), &s("alice"));
    assert_eq!(none, Permission::default());
}

fn burn(l: &mut Ledger, caller: &str, id: &str, from: &str, amount: u128) -> Result<(), ContractError> {
    let msg = HandleMsg::BurnTokens {
        burn_tokens: vec![TokenAmount { token_id: s(id), balances: vec![bal(from, amount)] }],
        memo: None,
    };
    handle(l, &env(caller), msg).map(|_| ())
}

#[test]
fn burn_rules() {
    let mut l = new_ledger();
    create(&mut l, "ash", false, true, vec![bal("alice", 50)]).unwrap();
    create(&mut l, "rock", false, false, vec![bal("alice", 50)]).unwrap();
    assert_eq!(burn(&mut l, "alice", "rock", "alice", 5), Err(ContractError::BurnDisabled));
    grant(&mut l, "alice", "bob", "ash", 40);
    assert_eq!(burn(&mut l, "bob", "ash", "alice", 5), Err(ContractError::NotAuthorized));
    assert_eq!(burn(&mut l, "alice", "ghost", "alice", 5), Err(ContractError::UnknownToken));
    assert_eq!(burn(&mut l, "alice", "ash", "alice", 51), Err(ContractError::InsufficientFunds));
    burn(&mut l, "alice", "ash", "alice", 20).unwrap();
    assert_eq!(balance(&l, "ash", "alice"), 30);
    assert_eq!(balance(&l, "rock", "alice"), 50);
}

#[test]
fn supply_is_conserved() {
    let mut l = new_ledger();
    create(&mut l, "ash", false, true, vec![bal("alice", 60), bal("bob", 40)]).unwrap();
    let msg = HandleMsg::MintTokens {
        mint_tokens: vec![TokenAmount { token_id: s("ash"), balances: vec![bal("carol", 25)] }],
        memo: Some(s("more")),
    };
    handle(&mut l, &env("admin"), msg).unwrap();
    transfer(&mut l, "alice", "ash", "alice", "carol", 10).unwrap();
    transfer(&mut l, "carol", "ash", "carol", "bob", 30).unwrap();
    burn(&mut l, "bob", "ash", "bob", 15).unwrap();
    let total: u128 = ["alice", "bob", "carol"].iter().map(|a| balance(&l, "ash", a)).sum();
    assert_eq!(total, 60 + 40 + 25 - 15);
    assert_eq!(l.config().tx_cnt, 6);
}

#[test]
fn unique_unit_rules() {
    let mut l = new_ledger();
    assert_eq!(
        create(&mut l, "art", true, false, vec![bal("alice", 1), bal("bob", 1)]),
        Err(ContractError::InvalidNftMint)
    );
    assert_eq!(create(&mut l, "art", true, false, vec![bal("alice", 2)]), Err(ContractError::InvalidNftMint));
    assert_eq!(create(&mut l, "art", true, false, vec![]), Err(ContractError::InvalidNftMint));
    assert!(l.token_info(&s("art")).is_none());
    create(&mut l, "art", true, false, vec![bal("alice", 1)]).unwrap();
    let msg = HandleMsg::MintTokens {
        mint_tokens: vec![TokenAmount { token_id: s("art"), balances: vec![bal("bob", 1)] }],
        memo: None,
    };
    assert_eq!(handle(&mut l, &env("admin"), msg).map(|_| ()), Err(ContractError::InvalidNftMint));
    assert_eq!(transfer(&mut l, "alice", "art", "alice", "bob", 2), Err(ContractError::InvalidNftMint));
    transfer(&mut l, "alice", "art", "alice", "bob", 1).unwrap();
    assert_eq!(balance(&l, "art", "alice"), 0);
    assert_eq!(balance(&l, "art", "bob"), 1);
    assert_eq!(transfer(&mut l, "alice", "art", "alice", "carol", 1), Err(ContractError::InsufficientFunds));
}

#[test]
fn minting_errors() {
    let mut l = new_ledger();
    let msg = HandleMsg::MintTokenIds {
        initial_tokens: vec![MintTokenId { token_info: info("coin", false, false), balances: vec![] }],
        memo: None,
    };
    assert_eq!(handle(&mut l, &env("bob"), msg).map(|_| ()), Err(ContractError::NotAuthorized));
    create(&mut l, "coin", false, false, vec![bal("alice", u128::MAX)]).unwrap();
    assert_eq!(create(&mut l, "coin", false, false, vec![]), Err(ContractError::AlreadyExists));
    let msg = HandleMsg::MintTokens {
        mint_tokens: vec![TokenAmount { token_id: s("gold"), balances: vec![bal("bob", 1)] }],
        memo: None,
    };
    assert_eq!(handle(&mut l, &env("admin"), msg).map(|_| ()), Err(ContractError::UnknownToken));
    let msg = HandleMsg::MintTokens {
        mint_tokens: vec![TokenAmount { token_id: s("coin"), balances: vec![bal("alice", 1)] }],
        memo: None,
    };
    assert_eq!(handle(&mut l, &env("admin"), msg).map(|_| ()), Err(ContractError::SupplyOverflow));
    assert_eq!(balance(&l, "coin", "alice"), u128::MAX);
}

#[test]
fn failed_batch_creates_nothing() {
    let mut l = new_ledger();
    let msg = HandleMsg::MintTokenIds {
        initial_tokens: vec![
            MintTokenId { token_info: info("a", false, false), balances: vec![bal("alice", 3)] },
            MintTokenId { token_info: info("a", false, false), balances: vec![bal("bob", 3)] },
        ],
        memo: None,
    };
    assert_eq!(handle(&mut l, &env("admin"), msg).map(|_| ()), Err(ContractError::AlreadyExists));
    assert!(l.token_info(&s("a")).is_none());
    assert_eq!(balance(&l, "a", "alice"), 0);
    assert_eq!(l.config().tx_cnt, 0);
    let (txs, total) = l.get_txs(&s("alice"), 0, 10);
    assert!(txs.is_empty());
    assert_eq!(total, 0);
}

#[test]
fn repeated_initial_holder_is_credited_twice() {
    let mut l = new_ledger();
    create(&mut l, "coin", false, false, vec![bal("alice", 3), bal("alice", 4)]).unwrap();
    assert_eq!(balance(&l, "coin", "alice"), 7);
}

fn balance_query(addr: &str, key: &str) -> QueryMsg {
    QueryMsg::Balance { address: s(addr), key: s(key), token_id: s("coin") }
}

#[test]
fn viewing_key_gate() {
    let mut l = new_ledger();
    create(&mut l, "coin", false, false, vec![bal("alice", 42)]).unwrap();
    handle(&mut l, &env("alice"), HandleMsg::SetViewingKey { key: s("open sesame") }).unwrap();
    match query(&l, &balance_query("alice", "open sesame")) {
        QueryAnswer::Balance { amount } => assert_eq!(amount, 42),
        other => panic!("unexpected {:?}", other),
    }
    let wrong = match query(&l, &balance_query("alice", "guess")) {
        QueryAnswer::ViewingKeyError { msg } => msg,
        other => panic!("unexpected {:?}", other),
    };
    let unset = match query(&l, &balance_query("bob", "guess")) {
        QueryAnswer::ViewingKeyError { msg } => msg,
        other => panic!("unexpected {:?}", other),
    };
    assert_eq!(wrong, unset);
    assert_eq!(wrong, "Wrong viewing key for this address or viewing key not set");
    let perm = QueryMsg::Permission {
        owner: s("alice"),
        perm_address: s("bob"),
        key: s("open sesame"),
        token_id: s("coin"),
    };
    assert!(matches!(query(&l, &perm), QueryAnswer::Permission(p) if p == Permission::default()));
    match query(&l, &QueryMsg::ContractInfo) {
        QueryAnswer::ContractInfo { info } => assert_eq!(info, "data"),
        other => panic!("unexpected {:?}", other),
    }
}

#[test]
fn created_viewing_key_unlocks_history() {
    let mut l = new_ledger();
    create(&mut l, "coin", false, false, vec![bal("alice", 9)]).unwrap();
    transfer(&mut l, "alice", "coin", "alice", "bob", 2).unwrap();
    transfer(&mut l, "alice", "coin", "alice", "carol", 3).unwrap();
    let r = handle(&mut l, &env("alice"), HandleMsg::CreateViewingKey { entropy: s("dice") }).unwrap();
    let key = match r.data {
        HandleAnswer::CreateViewingKey { key } => key,
        other => panic!("unexpected {:?}", other),
    };
    assert_eq!(key.len(), 44);
    let q = QueryMsg::TransferHistory { address: s("alice"), key: key.clone(), page: Some(0), page_size: 2 };
    match query(&l, &q) {
        QueryAnswer::TransferHistory { txs, total } => {
            assert_eq!(total, Some(3));
            assert_eq!(txs.len(), 2);
            assert_eq!(txs[0].tx_id, 2);
            assert_eq!(txs[1].tx_id, 1);
            assert!(matches!(&txs[0].action, TxAction::Transfer { recipient, .. } if recipient == "carol"));
        },
        other => panic!("unexpected {:?}", other),
    }
    let q = QueryMsg::TransferHistory { address: s("alice"), key, page: Some(1), page_size: 2 };
    match query(&l, &q) {
        QueryAnswer::TransferHistory { txs, total } => {
            assert_eq!(total, Some(3));
            assert_eq!(txs.len(), 1);
            assert!(matches!(&txs[0].action, TxAction::Mint { minter, recipient } if minter == "admin" && recipient == "alice"));
        },
        other => panic!("unexpected {:?}", other),
    }
}

#[test]
fn seed_is_digest_of_encoded_entropy() {
    let l = new_ledger();
    let expected = secret_toolkit_crypto::sha_256(base64::encode("seed entropy").as_bytes());
    assert_eq!(l.config().prng_seed, expected.to_vec());
    assert_eq!(l.config().admin, Some(s("admin")));
}

#[test]
fn send_notifies_receiver() {
    let mut l = new_ledger();
    create(&mut l, "coin", false, false, vec![bal("alice", 9)]).unwrap();
    let send = |to: &str, hash: Option<String>| HandleMsg::Send {
        token_id: s("coin"),
        from: s("alice"),
        recipient: s(to),
        recipient_code_hash: hash,
        amount: 1,
        msg: Some(vec![1, 2]),
        memo: None,
    };
    let r = handle(&mut l, &env("alice"), send("bob", None)).unwrap();
    assert!(r.messages.is_empty());
    handle(&mut l, &env("shop"), HandleMsg::RegisterReceive { code_hash: s("c0de") }).unwrap();
    let r = handle(&mut l, &env("alice"), send("shop", None)).unwrap();
    assert_eq!(r.messages.len(), 1);
    assert_eq!(r.messages[0].code_hash, "c0de");
    assert_eq!(r.messages[0].recipient, "shop");
    assert_eq!(r.messages[0].msg.amount, 1);
    assert_eq!(r.messages[0].msg.msg, Some(vec![1, 2]));
    let r = handle(&mut l, &env("alice"), send("bob", Some(s("beef")))).unwrap();
    assert_eq!(r.messages.len(), 1);
    assert_eq!(r.messages[0].code_hash, "beef");
    assert_eq!(balance(&l, "coin", "alice"), 6);
}

#[test]
fn responses_are_padded_to_blocks() {
    let padded = pad_response(b"{\"ok\":1}".to_vec());
    assert_eq!(padded.len(), 256);
    assert_eq!(&padded[..8], b"{\"ok\":1}");
    assert!(padded[8..].iter().all(|b| *b == b' '));
    let full = vec![7u8; 256];
    assert_eq!(pad_response(full.clone()), full);
    assert_eq!(pad_response(vec![7u8; 257]).len(), 512);
}
