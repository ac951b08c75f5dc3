//! Laws of the ledger, proved over the rules that its operations follow.
use vstd::prelude::*;
use crate::contract::{handle_result, HandleMsg, HandleResponse};
use crate::ledger::{
    allowance_spec, amounts_spec, bal, delta_spec, granted, mint_ids_spec, perm_of, steps_spec,
    transfer_spec, Balances, ContractError, Ledger, Permissions, Tokens,
};
use crate::state::{balance_key, permission_key, token_key, Balance, Env, MintTokenId, TokenAmount};

verus! {

/// Sum of the balances in `tid` of the accounts `accts`.
pub open spec fn supply_over(m: Balances, tid: Seq<char>, accts: Seq<Seq<char>>) -> int
    decreases accts.len(),
{
    if accts.len() == 0 {
        0
    } else {
        supply_over(m, tid, accts.drop_last()) + bal(m, tid, accts.last())
    }
}

/// Sum of the listed amounts.
pub open spec fn amount_sum(xs: Seq<Balance>) -> int
    decreases xs.len(),
{
    if xs.len() == 0 {
        0
    } else {
        amount_sum(xs.drop_last()) + xs.last().amount
    }
}

proof fn lemma_balance_key_injective(tid: Seq<char>, a: Seq<char>, b: Seq<char>)
    ensures
        (balance_key(tid, a) == balance_key(tid, b)) == (a == b),
{
    if balance_key(tid, a) == balance_key(tid, b) {
        assert(balance_key(tid, a)[1] == balance_key(tid, b)[1]);
    }
}

/// Setting one balance changes the sum over distinct accounts by the change
/// of that balance, when the account is among them.
proof fn lemma_supply_insert(m: Balances, tid: Seq<char>, a: Seq<char>, v: u128, accts: Seq<Seq<char>>)
    requires
        accts.no_duplicates(),
    ensures
        supply_over(m.insert(balance_key(tid, a), v), tid, accts) == supply_over(m, tid, accts) + if accts.contains(a) {
            v - bal(m, tid, a)
        } else {
            0
        },
    decreases accts.len(),
{
    if accts.len() > 0 {
        let rest = accts.drop_last();
        let last = accts.last();
        assert(rest.no_duplicates()) by {
            assert forall|i: int, j: int| 0 <= i < rest.len() && 0 <= j < rest.len() && i != j implies rest[i] != rest[j] by {
                assert(rest[i] == accts[i] && rest[j] == accts[j]);
            }
        }
        lemma_supply_insert(m, tid, a, v, rest);
        lemma_balance_key_injective(tid, a, last);
        if last == a {
            assert(accts.contains(a)) by {
                assert(accts[accts.len() - 1] == a);
            }
            assert(!rest.contains(a)) by {
                if rest.contains(a) {
                    let i = choose|i: int| 0 <= i < rest.len() && rest[i] == a;
                    assert(accts[i] == accts[accts.len() - 1]);
                }
            }
        } else {
            assert(accts.contains(a) == rest.contains(a)) by {
                if accts.contains(a) {
                    let i = choose|i: int| 0 <= i < accts.len() && accts[i] == a;
                    assert(rest[i] == a);
                }
                if rest.contains(a) {
                    let i = choose|i: int| 0 <= i < rest.len() && rest[i] == a;
                    assert(accts[i] == a);
                }
            }
        }
    }
}

/// Conservation of supply, one movement at a time: over any distinct
/// accounts that include those named, a movement of a fungible token adds
/// what it mints and takes away what it burns, and a transfer keeps the sum.
pub proof fn lemma_delta_conserves(
    m: Balances,
    tid: Seq<char>,
    remove_from: Option<Seq<char>>,
    add_to: Option<Seq<char>>,
    amount: u128,
    accts: Seq<Seq<char>>,
)
    requires
        accts.no_duplicates(),
        remove_from matches Some(f) ==> accts.contains(f),
        add_to matches Some(t) ==> accts.contains(t),
        delta_spec(m, tid, remove_from, add_to, amount, false) is Ok,
    ensures
        supply_over(delta_spec(m, tid, remove_from, add_to, amount, false)->Ok_0, tid, accts)
            == supply_over(m, tid, accts) + (if add_to is Some {
            amount as int
        } else {
            0
        }) - (if remove_from is Some {
            amount as int
        } else {
            0
        }),
{
    let d = match remove_from {
        Some(f) => m.insert(balance_key(tid, f), (bal(m, tid, f) - amount) as u128),
        None => m,
    };
    if let Some(f) = remove_from {
        lemma_supply_insert(m, tid, f, (bal(m, tid, f) - amount) as u128, accts);
    }
    if let Some(t) = add_to {
        lemma_supply_insert(d, tid, t, (bal(d, tid, t) + amount) as u128, accts);
    }
}

/// Conservation of supply across a transfer.
pub proof fn lemma_transfer_conserves(
    tokens: Tokens,
    perms: Permissions,
    bals: Balances,
    tx_cnt: u64,
    sender: Seq<char>,
    tid: Seq<char>,
    from: Seq<char>,
    to: Seq<char>,
    amount: u128,
    accts: Seq<Seq<char>>,
)
    requires
        accts.no_duplicates(),
        accts.contains(from),
        accts.contains(to),
        transfer_spec(tokens, perms, bals, tx_cnt, sender, tid, from, to, amount) is Ok,
    ensures
        supply_over(
            transfer_spec(tokens, perms, bals, tx_cnt, sender, tid, from, to, amount)->Ok_0.1,
            tid,
            accts,
        ) == supply_over(bals, tid, accts),
{
    if !tokens[token_key(tid)].is_nft {
        lemma_delta_conserves(bals, tid, Some(from), Some(to), amount, accts);
    } else {
        lemma_delta_nft_conserves(bals, tid, from, to, accts);
    }
}

proof fn lemma_delta_nft_conserves(m: Balances, tid: Seq<char>, from: Seq<char>, to: Seq<char>, accts: Seq<Seq<char>>)
    requires
        accts.no_duplicates(),
        accts.contains(from),
        accts.contains(to),
        delta_spec(m, tid, Some(from), Some(to), 1, true) is Ok,
    ensures
        supply_over(delta_spec(m, tid, Some(from), Some(to), 1, true)->Ok_0, tid, accts)
            == supply_over(m, tid, accts),
{
    let d = m.insert(balance_key(tid, from), (bal(m, tid, from) - 1) as u128);
    lemma_supply_insert(m, tid, from, (bal(m, tid, from) - 1) as u128, accts);
    lemma_supply_insert(d, tid, to, (bal(d, tid, to) + 1) as u128, accts);
}

/// Conservation of supply across a run of mints (or of burns) of one
/// fungible token: the sum over any distinct accounts that include every
/// listed address grows (or shrinks) by the sum of the listed amounts.
pub proof fn lemma_steps_conserve(
    b: Balances,
    cnt: nat,
    sender: Seq<char>,
    tid: Seq<char>,
    burn: bool,
    xs: Seq<Balance>,
    accts: Seq<Seq<char>>,
)
    requires
        accts.no_duplicates(),
        forall|i: int| 0 <= i < xs.len() ==> accts.contains(#[trigger] xs[i].address@),
        steps_spec(b, cnt, sender, tid, false, burn, xs) is Ok,
    ensures
        supply_over(steps_spec(b, cnt, sender, tid, false, burn, xs)->Ok_0.0, tid, accts)
            == supply_over(b, tid, accts) + if burn {
            -amount_sum(xs)
        } else {
            amount_sum(xs)
        },
    decreases xs.len(),
{
    if xs.len() > 0 {
        let rest = xs.drop_last();
        assert forall|i: int| 0 <= i < rest.len() implies accts.contains(#[trigger] rest[i].address@) by {
            assert(rest[i] == xs[i]);
        }
        lemma_steps_conserve(b, cnt, sender, tid, burn, rest, accts);
        let (b2, c2) = steps_spec(b, cnt, sender, tid, false, burn, rest)->Ok_0;
        let x = xs.last();
        assert(accts.contains(xs[xs.len() - 1].address@));
        if burn {
            lemma_delta_conserves(b2, tid, Some(x.address@), None, x.amount, accts);
        } else {
            lemma_delta_conserves(b2, tid, None, Some(x.address@), x.amount, accts);
        }
    }
}

/// One movement of balances: debit the first account and credit the second,
/// each when present, by the amount.
pub type Movement = (Option<Seq<char>>, Option<Seq<char>>, u128);

/// A run of movements of one fungible token, in order; the first refusal
/// ends it.
pub open spec fn movements_spec(m: Balances, tid: Seq<char>, ops: Seq<Movement>) -> Result<Balances, ContractError>
    decreases ops.len(),
{
    if ops.len() == 0 {
        Ok(m)
    } else {
        match movements_spec(m, tid, ops.drop_last()) {
            Err(e) => Err(e),
            Ok(m2) => delta_spec(m2, tid, ops.last().0, ops.last().1, ops.last().2, false),
        }
    }
}

/// What a run of movements mints: the amounts that debit nobody.
pub open spec fn minted(ops: Seq<Movement>) -> int
    decreases ops.len(),
{
    if ops.len() == 0 {
        0
    } else {
        minted(ops.drop_last()) + if ops.last().0 is None {
            ops.last().2 as int
        } else {
            0
        }
    }
}

/// What a run of movements burns: the amounts that credit nobody.
pub open spec fn burned(ops: Seq<Movement>) -> int
    decreases ops.len(),
{
    if ops.len() == 0 {
        0
    } else {
        burned(ops.drop_last()) + if ops.last().1 is None {
            ops.last().2 as int
        } else {
            0
        }
    }
}

/// Conservation of supply: after any run of mints, transfers and burns of a
/// fungible token that goes through, the sum of its balances over any
/// distinct accounts that include every account named is the sum before,
/// plus all that was minted, minus all that was burnt.
pub proof fn lemma_movements_conserve(m: Balances, tid: Seq<char>, ops: Seq<Movement>, accts: Seq<Seq<char>>)
    requires
        accts.no_duplicates(),
        forall|i: int| 0 <= i < ops.len() ==> ((#[trigger] ops[i]).0 matches Some(f) ==> accts.contains(f)),
        forall|i: int| 0 <= i < ops.len() ==> ((#[trigger] ops[i]).1 matches Some(t) ==> accts.contains(t)),
        movements_spec(m, tid, ops) is Ok,
    ensures
        supply_over(movements_spec(m, tid, ops)->Ok_0, tid, accts) == supply_over(m, tid, accts)
            + minted(ops) - burned(ops),
    decreases ops.len(),
{
    if ops.len() > 0 {
        let rest = ops.drop_last();
        assert forall|i: int| 0 <= i < rest.len() implies ((#[trigger] rest[i]).0 matches Some(f) ==> accts.contains(f)) by {
            assert(rest[i] == ops[i]);
        }
        assert forall|i: int| 0 <= i < rest.len() implies ((#[trigger] rest[i]).1 matches Some(t) ==> accts.contains(t)) by {
            assert(rest[i] == ops[i]);
        }
        lemma_movements_conserve(m, tid, rest, accts);
        let last = ops[ops.len() - 1];
        lemma_delta_conserves(movements_spec(m, tid, rest)->Ok_0, tid, last.0, last.1, last.2, accts);
    }
}

/// Every unique-unit token is held by at most one account, with one unit,
/// and no account holds a token that was never created.
pub open spec fn units_ok(tokens: Tokens, m: Balances) -> bool {
    &&& forall|tid: Seq<char>|
        #![trigger tokens.contains_key(token_key(tid))]
        tokens.contains_key(token_key(tid)) && tokens[token_key(tid)].is_nft ==> held_once(m, tid)
    &&& forall|tid: Seq<char>, a: Seq<char>|
        !tokens.contains_key(token_key(tid)) ==> #[trigger] bal(m, tid, a) == 0
}

/// Balances of other tokens do not move.
pub open spec fn others_unmoved(m: Balances, n: Balances, tid: Seq<char>) -> bool {
    forall|t: Seq<char>, a: Seq<char>| t != tid ==> #[trigger] bal(n, t, a) == bal(m, t, a)
}

proof fn lemma_insert_other(m: Balances, tid: Seq<char>, x: Seq<char>, v: u128)
    ensures
        others_unmoved(m, m.insert(balance_key(tid, x), v), tid),
{
    assert forall|t: Seq<char>, a: Seq<char>| t != tid implies #[trigger] bal(m.insert(balance_key(tid, x), v), t, a)
        == bal(m, t, a) by {
        assert(balance_key(tid, x)[0] != balance_key(t, a)[0]);
    }
}

proof fn lemma_delta_other(
    m: Balances,
    tid: Seq<char>,
    remove_from: Option<Seq<char>>,
    add_to: Option<Seq<char>>,
    amount: u128,
    is_nft: bool,
)
    requires
        delta_spec(m, tid, remove_from, add_to, amount, is_nft) is Ok,
    ensures
        others_unmoved(m, delta_spec(m, tid, remove_from, add_to, amount, is_nft)->Ok_0, tid),
{
    let d = match remove_from {
        Some(f) => m.insert(balance_key(tid, f), (bal(m, tid, f) - amount) as u128),
        None => m,
    };
    if let Some(f) = remove_from {
        lemma_insert_other(m, tid, f, (bal(m, tid, f) - amount) as u128);
    }
    if let Some(t) = add_to {
        lemma_insert_other(d, tid, t, (bal(d, tid, t) + amount) as u128);
    }
}

proof fn lemma_steps_other(
    b: Balances,
    cnt: nat,
    sender: Seq<char>,
    tid: Seq<char>,
    is_nft: bool,
    burn: bool,
    xs: Seq<Balance>,
)
    requires
        steps_spec(b, cnt, sender, tid, is_nft, burn, xs) is Ok,
    ensures
        others_unmoved(b, steps_spec(b, cnt, sender, tid, is_nft, burn, xs)->Ok_0.0, tid),
        is_nft && held_once(b, tid) ==> held_once(steps_spec(b, cnt, sender, tid, is_nft, burn, xs)->Ok_0.0, tid),
    decreases xs.len(),
{
    if xs.len() > 0 {
        lemma_steps_other(b, cnt, sender, tid, is_nft, burn, xs.drop_last());
        let (b2, c2) = steps_spec(b, cnt, sender, tid, is_nft, burn, xs.drop_last())->Ok_0;
        let x = xs.last();
        let from = if burn {
            Some(x.address@)
        } else {
            None
        };
        let to = if burn {
            None
        } else {
            Some(x.address@)
        };
        lemma_delta_other(b2, tid, from, to, x.amount, is_nft);
        if is_nft && held_once(b, tid) {
            lemma_nft_stays_unique(b2, tid, from, to, x.amount);
        }
    }
}

proof fn lemma_amounts_units(tokens: Tokens, b: Balances, cnt: nat, sender: Seq<char>, burn: bool, tas: Seq<TokenAmount>)
    requires
        units_ok(tokens, b),
        amounts_spec(tokens, b, cnt, sender, burn, tas) is Ok,
    ensures
        units_ok(tokens, amounts_spec(tokens, b, cnt, sender, burn, tas)->Ok_0.0),
    decreases tas.len(),
{
    if tas.len() > 0 {
        lemma_amounts_units(tokens, b, cnt, sender, burn, tas.drop_last());
        let (b2, c2) = amounts_spec(tokens, b, cnt, sender, burn, tas.drop_last())->Ok_0;
        let tid = tas.last().token_id@;
        let is_nft = tokens[token_key(tid)].is_nft;
        lemma_steps_other(b2, c2, sender, tid, is_nft, burn, tas.last().balances@);
        let n = amounts_spec(tokens, b, cnt, sender, burn, tas)->Ok_0.0;
        assert forall|t: Seq<char>| #![trigger tokens.contains_key(token_key(t))]
            tokens.contains_key(token_key(t)) && tokens[token_key(t)].is_nft implies held_once(n, t) by {
            if t != tid {
                assert(held_once(b2, t));
                assert forall|a: Seq<char>| #[trigger] bal(n, t, a) == bal(b2, t, a) by {}
            }
        }
    }
}

proof fn lemma_mint_ids_units(tokens: Tokens, b: Balances, cnt: nat, sender: Seq<char>, ts: Seq<MintTokenId>)
    requires
        units_ok(tokens, b),
        mint_ids_spec(tokens, b, cnt, sender, ts) is Ok,
    ensures
        ({
            let (k, n, c) = mint_ids_spec(tokens, b, cnt, sender, ts)->Ok_0;
            units_ok(k, n)
        }),
    decreases ts.len(),
{
    if ts.len() > 0 {
        lemma_mint_ids_units(tokens, b, cnt, sender, ts.drop_last());
        let (k2, b2, c2) = mint_ids_spec(tokens, b, cnt, sender, ts.drop_last())->Ok_0;
        let t = ts.last();
        let tid = t.token_info.token_id@;
        lemma_steps_other(b2, c2, sender, tid, false, false, t.balances@);
        let (k, n, c) = mint_ids_spec(tokens, b, cnt, sender, ts)->Ok_0;
        assert(k == k2.insert(token_key(tid), t.token_info));
        assert forall|u: Seq<char>| #[trigger] k.contains_key(token_key(u)) == (k2.contains_key(token_key(u)) || u == tid) by {
            if k.contains_key(token_key(u)) && !k2.contains_key(token_key(u)) {
                assert(token_key(u)[0] == token_key(tid)[0]);
            }
        }
        assert forall|a: Seq<char>| #[trigger] bal(b2, tid, a) == 0 by {}
        if t.token_info.is_nft {
            lemma_nft_created_once(b2, c2, sender, tid, t.balances@);
        }
        assert forall|u: Seq<char>| #![trigger k.contains_key(token_key(u))]
            k.contains_key(token_key(u)) && k[token_key(u)].is_nft implies held_once(n, u) by {
            if u != tid {
                assert(k2.contains_key(token_key(u)));
                assert(k[token_key(u)] == k2[token_key(u)]);
                assert(held_once(b2, u));
                assert forall|a: Seq<char>| #[trigger] bal(n, u, a) == bal(b2, u, a) by {}
            }
        }
        assert forall|u: Seq<char>, a: Seq<char>| !k.contains_key(token_key(u)) implies #[trigger] bal(n, u, a) == 0 by {
            assert(u != tid);
            assert(bal(n, u, a) == bal(b2, u, a));
        }
    }
}

/// A ledger built from no tokens, with any initial tokens, keeps unique
/// units held once.
pub proof fn lemma_init_units(sender: Seq<char>, ts: Seq<MintTokenId>)
    requires
        mint_ids_spec(Tokens::empty(), Balances::empty(), 0, sender, ts) is Ok,
    ensures
        ({
            let (k, n, c) = mint_ids_spec(Tokens::empty(), Balances::empty(), 0, sender, ts)->Ok_0;
            units_ok(k, n)
        }),
{
    assert forall|tid: Seq<char>, a: Seq<char>| #[trigger] bal(Balances::empty(), tid, a) == 0 by {}
    lemma_mint_ids_units(Tokens::empty(), Balances::empty(), 0, sender, ts);
}

/// Every request keeps each unique-unit token held by at most one account,
/// with a single unit, and keeps tokens that were never created unheld.
pub proof fn lemma_handle_keeps_units(
    old: Ledger,
    new: Ledger,
    env: Env,
    msg: HandleMsg,
    r: Result<HandleResponse, ContractError>,
)
    requires
        units_ok(old.tokens(), old.balances()),
        handle_result(old, new, env, msg, r),
    ensures
        units_ok(new.tokens(), new.balances()),
{
    let tokens = old.tokens();
    let b = old.balances();
    let cnt = old.conf().tx_cnt as nat;
    match msg {
        HandleMsg::MintTokenIds { initial_tokens, memo } => {
            if mint_ids_spec(tokens, b, cnt, env.sender@, initial_tokens@) is Ok {
                lemma_mint_ids_units(tokens, b, cnt, env.sender@, initial_tokens@);
            }
        },
        HandleMsg::MintTokens { mint_tokens, memo } => {
            if amounts_spec(tokens, b, cnt, env.sender@, false, mint_tokens@) is Ok {
                lemma_amounts_units(tokens, b, cnt, env.sender@, false, mint_tokens@);
            }
        },
        HandleMsg::BurnTokens { burn_tokens, memo } => {
            if amounts_spec(tokens, b, cnt, env.sender@, true, burn_tokens@) is Ok {
                lemma_amounts_units(tokens, b, cnt, env.sender@, true, burn_tokens@);
            }
        },
        HandleMsg::Transfer { token_id, from, recipient, amount, memo } => {
            lemma_transfer_units(old, env.sender@, token_id@, from@, recipient@, amount);
        },
        HandleMsg::Send { token_id, from, recipient, recipient_code_hash, amount, msg, memo } => {
            lemma_transfer_units(old, env.sender@, token_id@, from@, recipient@, amount);
        },
        _ => {},
    }
}

proof fn lemma_transfer_units(old: Ledger, sender: Seq<char>, tid: Seq<char>, from: Seq<char>, to: Seq<char>, amount: u128)
    requires
        units_ok(old.tokens(), old.balances()),
    ensures
        transfer_spec(old.tokens(), old.permissions(), old.balances(), old.conf().tx_cnt, sender, tid, from, to, amount) matches Ok(
            (p, n),
        ) ==> units_ok(old.tokens(), n),
{
    let tokens = old.tokens();
    let b = old.balances();
    if let Ok((p, n)) = transfer_spec(tokens, old.permissions(), b, old.conf().tx_cnt, sender, tid, from, to, amount) {
        let is_nft = tokens[token_key(tid)].is_nft;
        lemma_delta_other(b, tid, Some(from), Some(to), amount, is_nft);
        if is_nft {
            lemma_nft_stays_unique(b, tid, Some(from), Some(to), amount);
        }
        assert forall|t: Seq<char>| #![trigger tokens.contains_key(token_key(t))]
            tokens.contains_key(token_key(t)) && tokens[token_key(t)].is_nft implies held_once(n, t) by {
            if t != tid {
                assert(held_once(b, t));
                assert forall|a: Seq<char>| #[trigger] bal(n, t, a) == bal(b, t, a) by {}
            }
        }
    }
}

/// At most one account holds a unique-unit token, and it holds exactly one.
pub open spec fn held_once(m: Balances, tid: Seq<char>) -> bool {
    &&& forall|a: Seq<char>| #[trigger] bal(m, tid, a) <= 1
    &&& forall|a: Seq<char>, b: Seq<char>|
        #[trigger] bal(m, tid, a) == 1 && #[trigger] bal(m, tid, b) == 1 ==> a == b
}

/// A unique-unit token can never be minted through a movement of balances,
/// and every movement that succeeds keeps it held by at most one account.
pub proof fn lemma_nft_stays_unique(
    m: Balances,
    tid: Seq<char>,
    remove_from: Option<Seq<char>>,
    add_to: Option<Seq<char>>,
    amount: u128,
)
    requires
        held_once(m, tid),
    ensures
        remove_from is None ==> delta_spec(m, tid, remove_from, add_to, amount, true) is Err,
        delta_spec(m, tid, remove_from, add_to, amount, true) matches Ok(n) ==> held_once(n, tid),
{
    if let Ok(n) = delta_spec(m, tid, remove_from, add_to, amount, true) {
        let f = remove_from->Some_0;
        assert(bal(m, tid, f) == 1);
        let d = m.insert(balance_key(tid, f), 0u128);
        assert forall|a: Seq<char>| #[trigger] bal(d, tid, a) == if a == f { 0nat } else { bal(m, tid, a) } by {
            lemma_balance_key_injective(tid, a, f);
        }
        assert forall|a: Seq<char>| #[trigger] bal(d, tid, a) == 0 by {
            if a != f && bal(m, tid, a) == 1 {
                assert(bal(m, tid, a) == 1 && bal(m, tid, f) == 1);
            }
        }
        match add_to {
            Some(t) => {
                assert(bal(d, tid, t) == 0);
                assert(n == d.insert(balance_key(tid, t), (bal(d, tid, t) + 1) as u128));
                assert forall|a: Seq<char>| #[trigger] bal(n, tid, a) == if a == t { 1nat } else { 0nat } by {
                    lemma_balance_key_injective(tid, a, t);
                    assert(bal(d, tid, a) == 0);
                }
            },
            None => {
                assert forall|a: Seq<char>| #[trigger] bal(n, tid, a) == 0 by {}
            },
        }
    }
}

/// Creating a unique-unit token from no holders leaves exactly one holder,
/// with one unit: the only one that can ever be minted.
pub proof fn lemma_nft_created_once(b: Balances, cnt: nat, sender: Seq<char>, tid: Seq<char>, xs: Seq<Balance>)
    requires
        forall|a: Seq<char>| #[trigger] bal(b, tid, a) == 0,
        xs.len() == 1,
        xs[0].amount == 1,
        steps_spec(b, cnt, sender, tid, false, false, xs) is Ok,
    ensures
        held_once(steps_spec(b, cnt, sender, tid, false, false, xs)->Ok_0.0, tid),
        bal(steps_spec(b, cnt, sender, tid, false, false, xs)->Ok_0.0, tid, xs[0].address@) == 1,
{
    assert(xs.drop_last() =~= Seq::<Balance>::empty());
    let n = steps_spec(b, cnt, sender, tid, false, false, xs)->Ok_0.0;
    let t = xs[0].address@;
    assert(steps_spec(b, cnt, sender, tid, false, false, xs.drop_last()) == Ok::<(Balances, nat), ContractError>((b, cnt)));
    assert(bal(b, tid, t) == 0);
    assert(n == b.insert(balance_key(tid, t), (bal(b, tid, t) + 1) as u128));
    assert forall|a: Seq<char>| #[trigger] bal(n, tid, a) == if a == t { 1nat } else { 0nat } by {
        lemma_balance_key_injective(tid, a, t);
        assert(bal(b, tid, a) == 0);
    }
}

/// Without a grant, nobody but the owner can transfer, whether the token
/// exists or not, and the refusal does not say which.
pub proof fn lemma_no_grant_no_transfer(
    tokens: Tokens,
    perms: Permissions,
    bals: Balances,
    tx_cnt: u64,
    sender: Seq<char>,
    tid: Seq<char>,
    from: Seq<char>,
    to: Seq<char>,
    amount: u128,
)
    requires
        sender != from,
        !perms.contains_key(permission_key(from, tid, sender)),
    ensures
        transfer_spec(tokens, perms, bals, tx_cnt, sender, tid, from, to, amount) == Err::<
            (Permissions, Balances),
            ContractError,
        >(ContractError::NoTokenOrNoPermission),
{
}

/// An allowance of `n` granted to a delegate covers two transfers exactly
/// when their sum is at most `n`; what is left is `n` minus what was moved,
/// and a transfer that the rest does not cover is refused with the rest.
pub proof fn lemma_allowance_twice(
    perms: Permissions,
    owner: Seq<char>,
    delegate: Seq<char>,
    tid: Seq<char>,
    n: u128,
    a1: u128,
    a2: u128,
)
    requires
        owner != delegate,
        a1 <= n,
    ensures
        ({
            let k = permission_key(owner, tid, delegate);
            let p0 = perms.insert(k, granted(perm_of(perms, owner, tid, delegate), None, None, Some(n)));
            let r1 = allowance_spec(p0, owner, delegate, tid, a1);
            &&& r1 is Ok
            &&& r1->Ok_0[k].trfer_allowance_perm == n - a1
            &&& {
                let r2 = allowance_spec(r1->Ok_0, owner, delegate, tid, a2);
                &&& (r2 is Ok <==> a1 + a2 <= n)
                &&& r2 is Ok ==> r2->Ok_0[k].trfer_allowance_perm == n - a1 - a2
                &&& a1 + a2 > n ==> r2 == Err::<Permissions, ContractError>(
                    ContractError::InsufficientAllowance { allowance: (n - a1) as u128 },
                )
            }
        }),
{
}

/// A delegate whose allowance does not cover a transfer is refused, which
/// leaves balances and allowance as they were.
pub proof fn lemma_allowance_exceeded(
    tokens: Tokens,
    perms: Permissions,
    bals: Balances,
    tx_cnt: u64,
    sender: Seq<char>,
    tid: Seq<char>,
    from: Seq<char>,
    to: Seq<char>,
    amount: u128,
)
    requires
        sender != from,
        perms.contains_key(permission_key(from, tid, sender)),
        perms[permission_key(from, tid, sender)].trfer_allowance_perm < amount,
    ensures
        transfer_spec(tokens, perms, bals, tx_cnt, sender, tid, from, to, amount) == Err::<
            (Permissions, Balances),
            ContractError,
        >(
            ContractError::InsufficientAllowance {
                allowance: perms[permission_key(from, tid, sender)].trfer_allowance_perm,
            },
        ),
{
}

proof fn lemma_burn_steps_by_owner(
    b: Balances,
    cnt: nat,
    sender: Seq<char>,
    tid: Seq<char>,
    is_nft: bool,
    xs: Seq<Balance>,
)
    requires
        steps_spec(b, cnt, sender, tid, is_nft, true, xs) is Ok,
    ensures
        forall|j: int| 0 <= j < xs.len() ==> (#[trigger] xs[j]).address@ == sender,
    decreases xs.len(),
{
    if xs.len() > 0 {
        lemma_burn_steps_by_owner(b, cnt, sender, tid, is_nft, xs.drop_last());
        assert forall|j: int| 0 <= j < xs.len() implies (#[trigger] xs[j]).address@ == sender by {
            if j < xs.len() - 1 {
                assert(xs[j] == xs.drop_last()[j]);
            }
        }
    }
}

/// A burn goes through only for tokens that exist and allow burning, and
/// only from the caller's own balances: no grant or allowance lets anyone
/// burn for another.
pub proof fn lemma_burn_only_by_owner(
    tokens: Tokens,
    b: Balances,
    cnt: nat,
    sender: Seq<char>,
    tas: Seq<TokenAmount>,
)
    requires
        amounts_spec(tokens, b, cnt, sender, true, tas) is Ok,
    ensures
        forall|i: int|
            0 <= i < tas.len() ==> {
                &&& tokens.contains_key(token_key((#[trigger] tas[i]).token_id@))
                &&& tokens[token_key(tas[i].token_id@)].enable_burn
                &&& forall|j: int| 0 <= j < tas[i].balances@.len() ==> (#[trigger] tas[i].balances@[j]).address@ == sender
            },
    decreases tas.len(),
{
    if tas.len() > 0 {
        let rest = tas.drop_last();
        lemma_burn_only_by_owner(tokens, b, cnt, sender, rest);
        let (b2, c2) = amounts_spec(tokens, b, cnt, sender, true, rest)->Ok_0;
        let last = tas.last();
        lemma_burn_steps_by_owner(b2, c2, sender, last.token_id@, tokens[token_key(last.token_id@)].is_nft, last.balances@);
        assert forall|i: int| 0 <= i < tas.len() implies {
            &&& tokens.contains_key(token_key((#[trigger] tas[i]).token_id@))
            &&& tokens[token_key(tas[i].token_id@)].enable_burn
            &&& forall|j: int| 0 <= j < tas[i].balances@.len() ==> (#[trigger] tas[i].balances@[j]).address@ == sender
        } by {
            if i < tas.len() - 1 {
                assert(tas[i] == rest[i]);
            }
        }
    }
}

} // verus!
