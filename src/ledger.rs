//! The ledger's stores, the balance rule every movement of tokens goes
//! through, and the allowance rule that lets a delegate move an owner's tokens.
use vstd::prelude::*;
use crate::state::{
    balance_key, balance_key_of, copy_opt, permission_key, permission_key_of, token_key, token_key_of,
    account_key, account_key_of, account_txs, action_involves, page_of, Balance, ContrConf, Env,
    MintTokenId, Permission, TknInfo, TokenAmount, Tx, TxAction,
};
use crate::table::{key_view, Duplicate, Table};

verus! {

/// Why a request was refused.
#[derive(Clone, Copy, Debug, PartialEq, Eq, Structural)]
pub enum ContractError {
    AlreadyExists,
    UnknownToken,
    NotAuthorized,
    InsufficientAllowance { allowance: u128 },
    InsufficientFunds,
    SupplyOverflow,
    InvalidNftMint,
    BurnDisabled,
    NoTokenOrNoPermission,
    TxCountOverflow,
}

pub type Balances = Map<Seq<Seq<char>>, u128>;

pub type Permissions = Map<Seq<Seq<char>>, Permission>;

pub type Tokens = Map<Seq<Seq<char>>, TknInfo>;

/// Balance of `addr` in `tid`; a missing record is zero.
pub open spec fn bal(m: Balances, tid: Seq<char>, addr: Seq<char>) -> nat {
    if m.contains_key(balance_key(tid, addr)) {
        m[balance_key(tid, addr)] as nat
    } else {
        0
    }
}

/// The balance rule: debit `remove_from`, then credit `add_to`, each when
/// present, as one step.
pub open spec fn delta_spec(
    m: Balances,
    tid: Seq<char>,
    remove_from: Option<Seq<char>>,
    add_to: Option<Seq<char>>,
    amount: u128,
    is_nft: bool,
) -> Result<Balances, ContractError> {
    if is_nft && remove_from is None {
        Err(ContractError::InvalidNftMint)
    } else if is_nft && amount != 1 {
        Err(ContractError::InvalidNftMint)
    } else {
        let debited: Result<Balances, ContractError> = match remove_from {
            Some(f) => if bal(m, tid, f) < amount {
                Err(ContractError::InsufficientFunds)
            } else {
                Ok(m.insert(balance_key(tid, f), (bal(m, tid, f) - amount) as u128))
            },
            None => Ok(m),
        };
        match debited {
            Err(e) => Err(e),
            Ok(d) => match add_to {
                Some(t) => if bal(d, tid, t) + amount > u128::MAX {
                    Err(ContractError::SupplyOverflow)
                } else {
                    Ok(d.insert(balance_key(tid, t), (bal(d, tid, t) + amount) as u128))
                },
                None => Ok(d),
            },
        }
    }
}

pub fn balance_of(bals: &Table<u128>, tid: &String, addr: &String) -> (r: u128)
    ensures
        r == bal(bals@, tid@, addr@),
{
    let k = balance_key_of(tid, addr);
    match bals.get(&k) {
        Some(v) => *v,
        None => 0,
    }
}

/// Moves `amount` of `tid` out of `remove_from` and into `add_to`. Nothing
/// is written unless both halves succeed.
pub fn exec_change_balance(
    bals: &mut Table<u128>,
    tid: &String,
    remove_from: Option<&String>,
    add_to: Option<&String>,
    amount: u128,
    is_nft: bool,
) -> (r: Result<(), ContractError>)
    ensures
        match delta_spec(
            old(bals)@,
            tid@,
            match remove_from {
                Some(f) => Some(f@),
                None => None,
            },
            match add_to {
                Some(t) => Some(t@),
                None => None,
            },
            amount,
            is_nft,
        ) {
            Ok(m) => r is Ok && final(bals)@ == m,
            Err(e) => r == Err::<(), ContractError>(e) && *final(bals) == *old(bals),
        },
{
    if is_nft && remove_from.is_none() {
        return Err(ContractError::InvalidNftMint);
    }
    if is_nft && amount != 1 {
        return Err(ContractError::InvalidNftMint);
    }
    let mut debit: Option<u128> = None;
    if let Some(f) = remove_from {
        let have = balance_of(bals, tid, f);
        if have < amount {
            return Err(ContractError::InsufficientFunds);
        }
        debit = Some(have - amount);
    }
    if let Some(t) = add_to {
        let have: u128 = match (remove_from, debit) {
            (Some(f), Some(d)) => if *f == *t {
                d
            } else {
                balance_of(bals, tid, t)
            },
            _ => balance_of(bals, tid, t),
        };
        if have > u128::MAX - amount {
            return Err(ContractError::SupplyOverflow);
        }
        if let (Some(f), Some(d)) = (remove_from, debit) {
            bals.set(balance_key_of(tid, f), d);
        }
        bals.set(balance_key_of(tid, t), have + amount);
    } else if let (Some(f), Some(d)) = (remove_from, debit) {
        bals.set(balance_key_of(tid, f), d);
    }
    Ok(())
}

/// The allowance rule: an owner moves their own tokens freely; a delegate
/// needs a grant whose allowance covers `amount`, and uses it up.
pub open spec fn allowance_spec(
    perms: Permissions,
    owner: Seq<char>,
    delegate: Seq<char>,
    tid: Seq<char>,
    amount: u128,
) -> Result<Permissions, ContractError> {
    let k = permission_key(owner, tid, delegate);
    if delegate == owner {
        Ok(perms)
    } else if !perms.contains_key(k) {
        Err(ContractError::NotAuthorized)
    } else if perms[k].trfer_allowance_perm < amount {
        Err(ContractError::InsufficientAllowance { allowance: perms[k].trfer_allowance_perm })
    } else {
        Ok(
            perms.insert(
                k,
                Permission {
                    trfer_allowance_perm: (perms[k].trfer_allowance_perm - amount) as u128,
                    ..perms[k]
                },
            ),
        )
    }
}

/// A transfer of `amount` of `tid` from `from` to `to`, asked for by
/// `sender`: the new permissions and balances, or why it is refused. A
/// missing token and a missing grant give one and the same error.
pub open spec fn transfer_spec(
    tokens: Tokens,
    perms: Permissions,
    bals: Balances,
    tx_cnt: u64,
    sender: Seq<char>,
    tid: Seq<char>,
    from: Seq<char>,
    to: Seq<char>,
    amount: u128,
) -> Result<(Permissions, Balances), ContractError> {
    let auth = allowance_spec(perms, from, sender, tid, amount);
    if auth is Err && auth->Err_0 is InsufficientAllowance {
        Err(auth->Err_0)
    } else if auth is Err || !tokens.contains_key(token_key(tid)) {
        Err(ContractError::NoTokenOrNoPermission)
    } else if tx_cnt == u64::MAX {
        Err(ContractError::TxCountOverflow)
    } else {
        match delta_spec(bals, tid, Some(from), Some(to), amount, tokens[token_key(tid)].is_nft) {
            Err(e) => Err(e),
            Ok(b) => Ok((auth.unwrap(), b)),
        }
    }
}

/// `tx` records a transfer with number `id`.
pub open spec fn is_transfer_tx(
    tx: Tx,
    id: u64,
    env: Env,
    tid: Seq<char>,
    from: Seq<char>,
    to: Seq<char>,
    amount: u128,
    memo: Option<String>,
) -> bool {
    &&& tx.tx_id == id
    &&& tx.block_height == env.block_height
    &&& tx.block_time == env.block_time
    &&& tx.token_id@ == tid
    &&& tx.amount == amount
    &&& tx.memo == memo
    &&& tx.action matches TxAction::Transfer { from: f, sender: None, recipient: t } && f@ == from
        && t@ == to
}

/// One listed balance of a mint (credit `address`) or of a burn (debit
/// `address`, who must be the caller), followed by its history entry.
pub open spec fn step_spec(
    b: Balances,
    cnt: nat,
    sender: Seq<char>,
    tid: Seq<char>,
    is_nft: bool,
    burn: bool,
    x: Balance,
) -> Result<(Balances, nat), ContractError> {
    if burn && x.address@ != sender {
        Err(ContractError::NotAuthorized)
    } else {
        let from = if burn {
            Some(x.address@)
        } else {
            None
        };
        let to = if burn {
            None
        } else {
            Some(x.address@)
        };
        match delta_spec(b, tid, from, to, x.amount, is_nft) {
            Err(e) => Err(e),
            Ok(b2) => if cnt >= u64::MAX {
                Err(ContractError::TxCountOverflow)
            } else {
                Ok((b2, cnt + 1))
            },
        }
    }
}

/// The listed balances of one token, in order; the first refusal ends it.
pub open spec fn steps_spec(
    b: Balances,
    cnt: nat,
    sender: Seq<char>,
    tid: Seq<char>,
    is_nft: bool,
    burn: bool,
    xs: Seq<Balance>,
) -> Result<(Balances, nat), ContractError>
    decreases xs.len(),
{
    if xs.len() == 0 {
        Ok((b, cnt))
    } else {
        match steps_spec(b, cnt, sender, tid, is_nft, burn, xs.drop_last()) {
            Err(e) => Err(e),
            Ok((b2, c2)) => step_spec(b2, c2, sender, tid, is_nft, burn, xs.last()),
        }
    }
}

/// Mint or burn amounts of existing tokens, token by token; the first
/// refusal ends it.
pub open spec fn amounts_spec(
    tokens: Tokens,
    b: Balances,
    cnt: nat,
    sender: Seq<char>,
    burn: bool,
    tas: Seq<TokenAmount>,
) -> Result<(Balances, nat), ContractError>
    decreases tas.len(),
{
    if tas.len() == 0 {
        Ok((b, cnt))
    } else {
        match amounts_spec(tokens, b, cnt, sender, burn, tas.drop_last()) {
            Err(e) => Err(e),
            Ok((b2, c2)) => {
                let tid = tas.last().token_id@;
                if !tokens.contains_key(token_key(tid)) {
                    Err(ContractError::UnknownToken)
                } else if burn && !tokens[token_key(tid)].enable_burn {
                    Err(ContractError::BurnDisabled)
                } else {
                    steps_spec(
                        b2,
                        c2,
                        sender,
                        tid,
                        tokens[token_key(tid)].is_nft,
                        burn,
                        tas.last().balances@,
                    )
                }
            },
        }
    }
}

/// Creation of one token identifier with its initial holders.
pub open spec fn mint_id_spec(tokens: Tokens, b: Balances, cnt: nat, sender: Seq<char>, t: MintTokenId)
    -> Result<(Tokens, Balances, nat), ContractError> {
    let tid = t.token_info.token_id@;
    if tokens.contains_key(token_key(tid)) {
        Err(ContractError::AlreadyExists)
    } else if t.token_info.is_nft && (t.balances@.len() != 1 || t.balances@[0].amount != 1) {
        Err(ContractError::InvalidNftMint)
    } else {
        match steps_spec(b, cnt, sender, tid, false, false, t.balances@) {
            Err(e) => Err(e),
            Ok((b2, c2)) => Ok((tokens.insert(token_key(tid), t.token_info), b2, c2)),
        }
    }
}

/// Creation of several token identifiers, in order; the first refusal ends it.
pub open spec fn mint_ids_spec(
    tokens: Tokens,
    b: Balances,
    cnt: nat,
    sender: Seq<char>,
    ts: Seq<MintTokenId>,
) -> Result<(Tokens, Balances, nat), ContractError>
    decreases ts.len(),
{
    if ts.len() == 0 {
        Ok((tokens, b, cnt))
    } else {
        match mint_ids_spec(tokens, b, cnt, sender, ts.drop_last()) {
            Err(e) => Err(e),
            Ok((k2, b2, c2)) => mint_id_spec(k2, b2, c2, sender, ts.last()),
        }
    }
}

proof fn lemma_steps_err(
    b: Balances,
    cnt: nat,
    sender: Seq<char>,
    tid: Seq<char>,
    is_nft: bool,
    burn: bool,
    xs: Seq<Balance>,
    i: int,
    e: ContractError,
)
    requires
        0 <= i <= xs.len(),
        steps_spec(b, cnt, sender, tid, is_nft, burn, xs.take(i)) == Err::<(Balances, nat), ContractError>(e),
    ensures
        steps_spec(b, cnt, sender, tid, is_nft, burn, xs) == Err::<(Balances, nat), ContractError>(e),
    decreases xs.len() - i,
{
    if i == xs.len() {
        assert(xs.take(i) =~= xs);
    } else {
        assert(xs.take(i + 1).drop_last() =~= xs.take(i));
        lemma_steps_err(b, cnt, sender, tid, is_nft, burn, xs, i + 1, e);
    }
}

proof fn lemma_amounts_err(
    tokens: Tokens,
    b: Balances,
    cnt: nat,
    sender: Seq<char>,
    burn: bool,
    tas: Seq<TokenAmount>,
    i: int,
    e: ContractError,
)
    requires
        0 <= i <= tas.len(),
        amounts_spec(tokens, b, cnt, sender, burn, tas.take(i)) == Err::<(Balances, nat), ContractError>(e),
    ensures
        amounts_spec(tokens, b, cnt, sender, burn, tas) == Err::<(Balances, nat), ContractError>(e),
    decreases tas.len() - i,
{
    if i == tas.len() {
        assert(tas.take(i) =~= tas);
    } else {
        assert(tas.take(i + 1).drop_last() =~= tas.take(i));
        lemma_amounts_err(tokens, b, cnt, sender, burn, tas, i + 1, e);
    }
}

proof fn lemma_mint_ids_err(
    tokens: Tokens,
    b: Balances,
    cnt: nat,
    sender: Seq<char>,
    ts: Seq<MintTokenId>,
    i: int,
    e: ContractError,
)
    requires
        0 <= i <= ts.len(),
        mint_ids_spec(tokens, b, cnt, sender, ts.take(i)) == Err::<(Tokens, Balances, nat), ContractError>(e),
    ensures
        mint_ids_spec(tokens, b, cnt, sender, ts) == Err::<(Tokens, Balances, nat), ContractError>(e),
    decreases ts.len() - i,
{
    if i == ts.len() {
        assert(ts.take(i) =~= ts);
    } else {
        assert(ts.take(i + 1).drop_last() =~= ts.take(i));
        lemma_mint_ids_err(tokens, b, cnt, sender, ts, i + 1, e);
    }
}

/// `a` is one of `minters`.
pub open spec fn is_minter(minters: Seq<String>, a: Seq<char>) -> bool {
    exists|i: int| 0 <= i < minters.len() && (#[trigger] minters[i])@ == a
}

/// Whether `a` is one of `minters`.
pub fn verify_minter(minters: &Vec<String>, a: &String) -> (r: bool)
    ensures
        r == is_minter(minters@, a@),
{
    let mut i: usize = 0;
    while i < minters.len()
        invariant
            0 <= i <= minters@.len(),
            forall|j: int| 0 <= j < i ==> (#[trigger] minters@[j])@ != a@,
        decreases minters@.len() - i,
    {
        if minters[i] == *a {
            return true;
        }
        i = i + 1;
    }
    false
}

/// Applies the listed balances of one token to working copies of the
/// balances and the counter, appending a history entry for each.
fn apply_steps(
    bals: &mut Table<u128>,
    cnt: &mut u64,
    txs: &mut Vec<Tx>,
    env: &Env,
    tid: &String,
    is_nft: bool,
    burn: bool,
    xs: &Vec<Balance>,
    memo: &Option<String>,
) -> (r: Result<(), ContractError>)
    ensures
        old(txs)@.len() <= final(txs)@.len(),
        final(txs)@.take(old(txs)@.len() as int) == old(txs)@,
        match steps_spec(old(bals)@, *old(cnt) as nat, env.sender@, tid@, is_nft, burn, xs@) {
            Ok((b, c)) => r is Ok && final(bals)@ == b && *final(cnt) == c && final(txs)@.len()
                == old(txs)@.len() + (c - *old(cnt)),
            Err(e) => r == Err::<(), ContractError>(e),
        },
{
    let ghost b0 = bals@;
    let ghost c0 = *cnt as nat;
    let ghost t0 = txs@;
    let mut i: usize = 0;
    while i < xs.len()
        invariant
            0 <= i <= xs@.len(),
            t0 == old(txs)@,
            b0 == old(bals)@,
            c0 == *old(cnt) as nat,
            t0.len() <= txs@.len(),
            txs@.take(t0.len() as int) == t0,
            steps_spec(b0, c0, env.sender@, tid@, is_nft, burn, xs@.take(i as int)) == Ok::<
                (Balances, nat),
                ContractError,
            >((bals@, *cnt as nat)),
            txs@.len() == t0.len() + (*cnt - c0),
        decreases xs@.len() - i,
    {
        proof {
            assert(xs@.take(i + 1).drop_last() =~= xs@.take(i as int));
        }
        let x = &xs[i];
        if burn && !(x.address == env.sender) {
            proof {
                lemma_steps_err(b0, c0, env.sender@, tid@, is_nft, burn, xs@, i + 1, ContractError::NotAuthorized);
            }
            return Err(ContractError::NotAuthorized);
        }
        let res = if burn {
            exec_change_balance(bals, tid, Some(&x.address), None, x.amount, is_nft)
        } else {
            exec_change_balance(bals, tid, None, Some(&x.address), x.amount, is_nft)
        };
        if let Err(e) = res {
            proof {
                lemma_steps_err(b0, c0, env.sender@, tid@, is_nft, burn, xs@, i + 1, e);
            }
            return Err(e);
        }
        if *cnt == u64::MAX {
            proof {
                lemma_steps_err(b0, c0, env.sender@, tid@, is_nft, burn, xs@, i + 1, ContractError::TxCountOverflow);
            }
            return Err(ContractError::TxCountOverflow);
        }
        let action = if burn {
            TxAction::Burn { burner: None, owner: x.address.clone() }
        } else {
            TxAction::Mint { minter: env.sender.clone(), recipient: x.address.clone() }
        };
        txs.push(
            Tx {
                tx_id: *cnt,
                block_height: env.block_height,
                block_time: env.block_time,
                token_id: tid.clone(),
                action,
                amount: x.amount,
                memo: copy_opt(memo),
            },
        );
        *cnt = *cnt + 1;
        i = i + 1;
        proof {
            assert(txs@.take(t0.len() as int) =~= t0);
        }
    }
    proof {
        assert(xs@.take(xs@.len() as int) =~= xs@);
    }
    Ok(())
}

/// Applies mints or burns of existing tokens to working copies.
fn apply_amounts(
    tokens: &Table<TknInfo>,
    bals: &mut Table<u128>,
    cnt: &mut u64,
    txs: &mut Vec<Tx>,
    env: &Env,
    burn: bool,
    tas: &Vec<TokenAmount>,
    memo: &Option<String>,
) -> (r: Result<(), ContractError>)
    ensures
        old(txs)@.len() <= final(txs)@.len(),
        final(txs)@.take(old(txs)@.len() as int) == old(txs)@,
        match amounts_spec(tokens@, old(bals)@, *old(cnt) as nat, env.sender@, burn, tas@) {
            Ok((b, c)) => r is Ok && final(bals)@ == b && *final(cnt) == c && final(txs)@.len()
                == old(txs)@.len() + (c - *old(cnt)),
            Err(e) => r == Err::<(), ContractError>(e),
        },
{
    let ghost b0 = bals@;
    let ghost c0 = *cnt as nat;
    let ghost t0 = txs@;
    let mut i: usize = 0;
    while i < tas.len()
        invariant
            0 <= i <= tas@.len(),
            t0 == old(txs)@,
            b0 == old(bals)@,
            c0 == *old(cnt) as nat,
            t0.len() <= txs@.len(),
            txs@.take(t0.len() as int) == t0,
            amounts_spec(tokens@, b0, c0, env.sender@, burn, tas@.take(i as int)) == Ok::<
                (Balances, nat),
                ContractError,
            >((bals@, *cnt as nat)),
            txs@.len() == t0.len() + (*cnt - c0),
        decreases tas@.len() - i,
    {
        proof {
            assert(tas@.take(i + 1).drop_last() =~= tas@.take(i as int));
        }
        let ta = &tas[i];
        let info = match tokens.get(&token_key_of(&ta.token_id)) {
            Some(info) => info,
            None => {
                proof {
                    lemma_amounts_err(tokens@, b0, c0, env.sender@, burn, tas@, i + 1, ContractError::UnknownToken);
                }
                return Err(ContractError::UnknownToken);
            },
        };
        if burn && !info.enable_burn {
            proof {
                lemma_amounts_err(tokens@, b0, c0, env.sender@, burn, tas@, i + 1, ContractError::BurnDisabled);
            }
            return Err(ContractError::BurnDisabled);
        }
        let ghost t1 = txs@;
        let res = apply_steps(bals, cnt, txs, env, &ta.token_id, info.is_nft, burn, &ta.balances, memo);
        proof {
            assert(txs@.take(t0.len() as int) =~= t1.take(t0.len() as int));
        }
        if let Err(e) = res {
            proof {
                lemma_amounts_err(tokens@, b0, c0, env.sender@, burn, tas@, i + 1, e);
            }
            return Err(e);
        }
        i = i + 1;
    }
    proof {
        assert(tas@.take(tas@.len() as int) =~= tas@);
    }
    Ok(())
}

/// Creates token identifiers with their initial holders in working copies.
fn apply_mint_ids(
    tokens: &mut Table<TknInfo>,
    bals: &mut Table<u128>,
    cnt: &mut u64,
    txs: &mut Vec<Tx>,
    env: &Env,
    ts: &Vec<MintTokenId>,
    memo: &Option<String>,
) -> (r: Result<(), ContractError>)
    ensures
        old(txs)@.len() <= final(txs)@.len(),
        final(txs)@.take(old(txs)@.len() as int) == old(txs)@,
        match mint_ids_spec(old(tokens)@, old(bals)@, *old(cnt) as nat, env.sender@, ts@) {
            Ok((k, b, c)) => r is Ok && final(tokens)@ == k && final(bals)@ == b && *final(cnt)
                == c && final(txs)@.len() == old(txs)@.len() + (c - *old(cnt)),
            Err(e) => r == Err::<(), ContractError>(e),
        },
{
    let ghost k0 = tokens@;
    let ghost b0 = bals@;
    let ghost c0 = *cnt as nat;
    let ghost t0 = txs@;
    let mut i: usize = 0;
    while i < ts.len()
        invariant
            0 <= i <= ts@.len(),
            k0 == old(tokens)@,
            t0 == old(txs)@,
            b0 == old(bals)@,
            c0 == *old(cnt) as nat,
            t0.len() <= txs@.len(),
            txs@.take(t0.len() as int) == t0,
            mint_ids_spec(k0, b0, c0, env.sender@, ts@.take(i as int)) == Ok::<
                (Tokens, Balances, nat),
                ContractError,
            >((tokens@, bals@, *cnt as nat)),
            txs@.len() == t0.len() + (*cnt - c0),
        decreases ts@.len() - i,
    {
        proof {
            assert(ts@.take(i + 1).drop_last() =~= ts@.take(i as int));
        }
        let t = &ts[i];
        let tk = token_key_of(&t.token_info.token_id);
        if tokens.contains(&tk) {
            proof {
                lemma_mint_ids_err(k0, b0, c0, env.sender@, ts@, i + 1, ContractError::AlreadyExists);
            }
            return Err(ContractError::AlreadyExists);
        }
        if t.token_info.is_nft && (t.balances.len() != 1 || t.balances[0].amount != 1) {
            proof {
                lemma_mint_ids_err(k0, b0, c0, env.sender@, ts@, i + 1, ContractError::InvalidNftMint);
            }
            return Err(ContractError::InvalidNftMint);
        }
        let ghost t1 = txs@;
        let res = apply_steps(bals, cnt, txs, env, &t.token_info.token_id, false, false, &t.balances, memo);
        proof {
            assert(txs@.take(t0.len() as int) =~= t1.take(t0.len() as int));
        }
        if let Err(e) = res {
            proof {
                lemma_mint_ids_err(k0, b0, c0, env.sender@, ts@, i + 1, e);
            }
            return Err(e);
        }
        tokens.set(tk, t.token_info.duplicate());
        i = i + 1;
    }
    proof {
        assert(ts@.take(ts@.len() as int) =~= ts@);
    }
    Ok(())
}

/// The stores of the ledger and its settings.
pub struct Ledger {
    config: ContrConf,
    tokens: Table<TknInfo>,
    balances: Table<u128>,
    permissions: Table<Permission>,
    viewing_keys: Table<[u8; 32]>,
    receivers: Table<String>,
    txs: Vec<Tx>,
}

impl Ledger {
    /// The ledger's settings and counter.
    pub closed spec fn conf(&self) -> ContrConf {
        self.config
    }

    pub fn config(&self) -> (r: &ContrConf)
        ensures
            *r == self.conf(),
    {
        &self.config
    }

    /// Token metadata by `token_key`.
    pub closed spec fn tokens(&self) -> Tokens {
        self.tokens@
    }

    /// Amounts by `balance_key`.
    pub closed spec fn balances(&self) -> Balances {
        self.balances@
    }

    /// Grants by `permission_key`.
    pub closed spec fn permissions(&self) -> Permissions {
        self.permissions@
    }

    /// Digests of viewing keys by `account_key`.
    pub closed spec fn viewing_keys(&self) -> Map<Seq<Seq<char>>, [u8; 32]> {
        self.viewing_keys@
    }

    /// Registered receiver code hashes by `account_key`.
    pub closed spec fn receivers(&self) -> Map<Seq<Seq<char>>, String> {
        self.receivers@
    }

    /// The transaction history, oldest first.
    pub closed spec fn txs(&self) -> Seq<Tx> {
        self.txs@
    }

    /// An empty ledger with the given settings.
    pub fn new(config: ContrConf) -> (r: Ledger)
        ensures
            r.conf() == config,
            r.tokens() == Tokens::empty(),
            r.balances() == Balances::empty(),
            r.permissions() == Permissions::empty(),
            r.viewing_keys() == Map::<Seq<Seq<char>>, [u8; 32]>::empty(),
            r.receivers() == Map::<Seq<Seq<char>>, String>::empty(),
            r.txs() == Seq::<Tx>::empty(),
    {
        Ledger {
            config,
            tokens: Table::new(),
            balances: Table::new(),
            permissions: Table::new(),
            viewing_keys: Table::new(),
            receivers: Table::new(),
            txs: Vec::new(),
        }
    }

    /// Balance of `addr` in `tid`.
    pub fn balance(&self, tid: &String, addr: &String) -> (r: u128)
        ensures
            r == bal(self.balances(), tid@, addr@),
    {
        balance_of(&self.balances, tid, addr)
    }

    /// What `owner` has granted `delegate` for `tid`; nothing if no grant.
    pub fn permission(&self, owner: &String, tid: &String, delegate: &String) -> (r: Permission)
        ensures
            r == perm_of(self.permissions(), owner@, tid@, delegate@),
    {
        match self.permissions.get(&permission_key_of(owner, tid, delegate)) {
            Some(p) => *p,
            None => Permission::default(),
        }
    }

    /// Metadata of `tid`, if it was created.
    pub fn token_info(&self, tid: &String) -> (r: Option<&TknInfo>)
        ensures
            r is Some == self.tokens().contains_key(token_key(tid@)),
            r matches Some(i) ==> *i == self.tokens()[token_key(tid@)],
    {
        self.tokens.get(&token_key_of(tid))
    }

    /// Sets the fields of `owner`'s grant to `delegate` that are given, and
    /// keeps the others. Whether `tid` exists is not looked at.
    pub fn grant(
        &mut self,
        owner: &String,
        delegate: &String,
        tid: &String,
        view_owner: Option<bool>,
        view_private_metadata: Option<bool>,
        transfer: Option<u128>,
    ) -> (r: Permission)
        ensures
            r == granted(perm_of(old(self).permissions(), owner@, tid@, delegate@), view_owner, view_private_metadata, transfer),
            grant_result(*old(self), *final(self), owner@, delegate@, tid@, r),
    {
        let mut p = self.permission(owner, tid, delegate);
        if let Some(v) = view_owner {
            p.view_owner_perm = v;
        }
        if let Some(v) = view_private_metadata {
            p.view_pr_metadata_perm = v;
        }
        if let Some(v) = transfer {
            p.trfer_allowance_perm = v;
        }
        self.permissions.set(permission_key_of(owner, tid, delegate), p);
        p
    }

    /// Moves `amount` of `tid` from `from` to `recipient` on behalf of the
    /// caller, spending the caller's allowance when the caller is not `from`,
    /// and records it. A refused transfer changes nothing.
    pub fn impl_transfer(
        &mut self,
        env: &Env,
        token_id: &String,
        from: &String,
        recipient: &String,
        amount: u128,
        memo: Option<String>,
    ) -> (r: Result<(), ContractError>)
        ensures
            transfer_result(*old(self), *final(self), *env, token_id@, from@, recipient@, amount, memo, r),
    {
        let pk = permission_key_of(from, token_id, &env.sender);
        let mut new_perm: Option<Permission> = None;
        let mut throw_err = false;
        if !(*from == env.sender) {
            match self.permissions.get(&pk) {
                None => {
                    throw_err = true;
                },
                Some(p) => {
                    if p.trfer_allowance_perm < amount {
                        return Err(
                            ContractError::InsufficientAllowance {
                                allowance: p.trfer_allowance_perm,
                            },
                        );
                    }
                    new_perm = Some(
                        Permission {
                            view_owner_perm: p.view_owner_perm,
                            view_pr_metadata_perm: p.view_pr_metadata_perm,
                            trfer_allowance_perm: p.trfer_allowance_perm - amount,
                        },
                    );
                },
            }
        }
        let is_nft = match self.tokens.get(&token_key_of(token_id)) {
            Some(info) => info.is_nft,
            None => {
                throw_err = true;
                false
            },
        };
        if throw_err {
            return Err(ContractError::NoTokenOrNoPermission);
        }
        if self.config.tx_cnt == u64::MAX {
            return Err(ContractError::TxCountOverflow);
        }
        exec_change_balance(
            &mut self.balances,
            token_id,
            Some(from),
            Some(recipient),
            amount,
            is_nft,
        )?;
        if let Some(p) = new_perm {
            self.permissions.set(pk, p);
        }
        let tx = Tx {
            tx_id: self.config.tx_cnt,
            block_height: env.block_height,
            block_time: env.block_time,
            token_id: token_id.clone(),
            action: TxAction::Transfer {
                from: from.clone(),
                sender: None,
                recipient: recipient.clone(),
            },
            amount,
            memo,
        };
        self.txs.push(tx);
        self.config.tx_cnt = self.config.tx_cnt + 1;
        proof {
            assert(self.txs@.drop_last() =~= old(self).txs@);
        }
        Ok(())
    }

    /// Creates token identifiers with their initial holders, all or none.
    fn run_mint_ids(&mut self, env: &Env, ts: &Vec<MintTokenId>, memo: &Option<String>) -> (r: Result<
        (),
        ContractError,
    >)
        ensures
            mint_ids_result(*old(self), *final(self), env.sender@, ts@, r),
    {
        let mut tokens = self.tokens.duplicate();
        let mut bals = self.balances.duplicate();
        let mut cnt = self.config.tx_cnt;
        let n0 = self.txs.len();
        match apply_mint_ids(&mut tokens, &mut bals, &mut cnt, &mut self.txs, env, ts, memo) {
            Ok(()) => {
                self.tokens = tokens;
                self.balances = bals;
                self.config.tx_cnt = cnt;
                Ok(())
            },
            Err(e) => {
                self.txs.truncate(n0);
                proof {
                    assert(self.txs@ =~= old(self).txs@);
                }
                Err(e)
            },
        }
    }

    /// Mints (`burn` false) or burns amounts of existing tokens, all or none.
    fn run_amounts(&mut self, env: &Env, burn: bool, tas: &Vec<TokenAmount>, memo: &Option<String>) -> (r:
        Result<(), ContractError>)
        ensures
            amounts_result(*old(self), *final(self), env.sender@, burn, tas@, r),
    {
        let mut bals = self.balances.duplicate();
        let mut cnt = self.config.tx_cnt;
        let n0 = self.txs.len();
        match apply_amounts(&self.tokens, &mut bals, &mut cnt, &mut self.txs, env, burn, tas, memo) {
            Ok(()) => {
                self.balances = bals;
                self.config.tx_cnt = cnt;
                Ok(())
            },
            Err(e) => {
                self.txs.truncate(n0);
                proof {
                    assert(self.txs@ =~= old(self).txs@);
                }
                Err(e)
            },
        }
    }

    /// Creates the initial token identifiers of a new ledger; no minter
    /// check applies.
    pub fn mint_initial(&mut self, env: &Env, ts: &Vec<MintTokenId>) -> (r: Result<(), ContractError>)
        ensures
            mint_ids_result(*old(self), *final(self), env.sender@, ts@, r),
    {
        self.run_mint_ids(env, ts, &None)
    }

    /// Creates new token identifiers with their initial holders. Only a
    /// minter may; all or none are created.
    pub fn try_mint_token_ids(&mut self, env: &Env, initial_tokens: &Vec<MintTokenId>, memo: Option<String>) -> (r:
        Result<(), ContractError>)
        ensures
            minter_gated(
                *old(self),
                *final(self),
                env.sender@,
                r,
                mint_ids_result(*old(self), *final(self), env.sender@, initial_tokens@, r),
            ),
    {
        if !verify_minter(&self.config.minters, &env.sender) {
            return Err(ContractError::NotAuthorized);
        }
        self.run_mint_ids(env, initial_tokens, &memo)
    }

    /// Adds supply to existing fungible tokens. Only a minter may; all or
    /// none are minted.
    pub fn try_mint_tokens(&mut self, env: &Env, mint_tokens: &Vec<TokenAmount>, memo: Option<String>) -> (r:
        Result<(), ContractError>)
        ensures
            minter_gated(
                *old(self),
                *final(self),
                env.sender@,
                r,
                amounts_result(*old(self), *final(self), env.sender@, false, mint_tokens@, r),
            ),
    {
        if !verify_minter(&self.config.minters, &env.sender) {
            return Err(ContractError::NotAuthorized);
        }
        self.run_amounts(env, false, mint_tokens, &memo)
    }

    /// Burns amounts of tokens whose burning is enabled. Each debited
    /// address must be the caller; all or none are burnt.
    pub fn try_burn_tokens(&mut self, env: &Env, burn_tokens: &Vec<TokenAmount>, memo: Option<String>) -> (r:
        Result<(), ContractError>)
        ensures
            amounts_result(*old(self), *final(self), env.sender@, true, burn_tokens@, r),
    {
        self.run_amounts(env, true, burn_tokens, &memo)
    }

    /// Digest of the viewing key of `addr`, if one was set.
    pub fn read_viewing_key(&self, addr: &String) -> (r: Option<[u8; 32]>)
        ensures
            r == (if self.viewing_keys().contains_key(account_key(addr@)) {
                Some(self.viewing_keys()[account_key(addr@)])
            } else {
                None
            }),
    {
        match self.viewing_keys.get(&account_key_of(addr)) {
            Some(d) => Some(*d),
            None => None,
        }
    }

    /// Stores `digest` as the digest of the viewing key of `addr`.
    pub fn write_viewing_key(&mut self, addr: &String, digest: [u8; 32])
        ensures
            final(self).viewing_keys() == old(self).viewing_keys().insert(account_key(addr@), digest),
            same_except_keys(*old(self), *final(self)),
    {
        self.viewing_keys.set(account_key_of(addr), digest);
    }

    /// Code hash that `addr` registered for notifications, if any.
    pub fn get_receiver_hash(&self, addr: &String) -> (r: Option<String>)
        ensures
            r == (if self.receivers().contains_key(account_key(addr@)) {
                Some(self.receivers()[account_key(addr@)])
            } else {
                None
            }),
    {
        match self.receivers.get(&account_key_of(addr)) {
            Some(h) => Some(h.clone()),
            None => None,
        }
    }

    /// Registers `code_hash` as the code hash to notify `addr` with.
    pub fn set_receiver_hash(&mut self, addr: &String, code_hash: String)
        ensures
            final(self).receivers() == old(self).receivers().insert(account_key(addr@), code_hash),
            same_except_receivers(*old(self), *final(self)),
    {
        self.receivers.set(account_key_of(addr), code_hash);
    }

    /// Page `page` of the history entries that `addr` takes part in, newest
    /// first, and how many such entries there are.
    pub fn get_txs(&self, addr: &String, page: u32, page_size: u32) -> (r: (Vec<Tx>, u64))
        ensures
            r.0@ == page_of(account_txs(self.txs(), addr@), page as nat, page_size as nat),
            r.1 == account_txs(self.txs(), addr@).len(),
    {
        proof {
            assert(page as u64 * page_size as u64 <= 0xffff_fffe_0000_0001u64) by (nonlinear_arith)
                requires
                    page <= 0xffff_ffffu32,
                    page_size <= 0xffff_ffffu32,
            ;
        }
        let start: u64 = page as u64 * page_size as u64;
        let end: u64 = start + page_size as u64;
        let ghost s = self.txs@;
        let mut out: Vec<Tx> = Vec::new();
        let mut seen: usize = 0;
        let n: usize = self.txs.len();
        let mut i: usize = n;
        proof {
            assert(s.subrange(i as int, s.len() as int) =~= Seq::<Tx>::empty());
        }
        while i > 0
            invariant
                s == self.txs@,
                s.len() == n,
                i <= s.len(),
                start == page as nat * page_size as nat,
                end == start + page_size,
                seen == account_txs(s.subrange(i as int, s.len() as int), addr@).len(),
                seen <= s.len() - i,
                out@ == page_of(
                    account_txs(s.subrange(i as int, s.len() as int), addr@),
                    page as nat,
                    page_size as nat,
                ),
            decreases i,
        {
            let ghost before = account_txs(s.subrange(i as int, s.len() as int), addr@);
            i = i - 1;
            let ghost sub = s.subrange(i as int, s.len() as int);
            proof {
                assert(sub.drop_first() =~= s.subrange(i + 1, s.len() as int));
                assert(sub[0] == s[i as int]);
            }
            let tx = &self.txs[i];
            if action_involves(&tx.action, addr) {
                if start <= seen as u64 && (seen as u64) < end {
                    out.push(tx.duplicate());
                }
                proof {
                    let after = account_txs(sub, addr@);
                    assert(after == before.push(s[i as int]));
                    if start <= seen as u64 && (seen as u64) < end {
                        assert(page_of(after, page as nat, page_size as nat) =~= page_of(
                            before,
                            page as nat,
                            page_size as nat,
                        ).push(s[i as int]));
                    } else {
                        assert(page_of(after, page as nat, page_size as nat) =~= page_of(
                            before,
                            page as nat,
                            page_size as nat,
                        ));
                    }
                }
                seen = seen + 1;
            } else {
                proof {
                    assert(account_txs(sub, addr@) =~= before);
                }
            }
        }
        proof {
            assert(s.subrange(0, s.len() as int) =~= s);
        }
        (out, seen as u64)
    }
}

/// Outcome of creating the token identifiers `ts` on behalf of `sender`.
pub open spec fn mint_ids_result(
    old: Ledger,
    new: Ledger,
    sender: Seq<char>,
    ts: Seq<MintTokenId>,
    r: Result<(), ContractError>,
) -> bool {
    match mint_ids_spec(old.tokens(), old.balances(), old.conf().tx_cnt as nat, sender, ts) {
        Ok((k, b, c)) => r is Ok && updated(old, new, k, b, old.permissions(), c),
        Err(e) => r == Err::<(), ContractError>(e) && same_ledger(new, old),
    }
}

/// Outcome of minting (`burn` false) or burning the amounts `tas` on behalf
/// of `sender`.
pub open spec fn amounts_result(
    old: Ledger,
    new: Ledger,
    sender: Seq<char>,
    burn: bool,
    tas: Seq<TokenAmount>,
    r: Result<(), ContractError>,
) -> bool {
    match amounts_spec(old.tokens(), old.balances(), old.conf().tx_cnt as nat, sender, burn, tas) {
        Ok((b, c)) => r is Ok && updated(old, new, old.tokens(), b, old.permissions(), c),
        Err(e) => r == Err::<(), ContractError>(e) && same_ledger(new, old),
    }
}

/// A request that only a minter may make: `outcome` when `sender` is one,
/// else refused with nothing changed.
pub open spec fn minter_gated(
    old: Ledger,
    new: Ledger,
    sender: Seq<char>,
    r: Result<(), ContractError>,
    outcome: bool,
) -> bool {
    if is_minter(old.conf().minters@, sender) {
        outcome
    } else {
        r == Err::<(), ContractError>(ContractError::NotAuthorized) && same_ledger(new, old)
    }
}

/// Outcome of a transfer of `amount` of `tid` from `from` to `to` asked for
/// by `env.sender`.
pub open spec fn transfer_result(
    old: Ledger,
    new: Ledger,
    env: Env,
    tid: Seq<char>,
    from: Seq<char>,
    to: Seq<char>,
    amount: u128,
    memo: Option<String>,
    r: Result<(), ContractError>,
) -> bool {
    match transfer_spec(
        old.tokens(),
        old.permissions(),
        old.balances(),
        old.conf().tx_cnt,
        env.sender@,
        tid,
        from,
        to,
        amount,
    ) {
        Ok((p, b)) => {
            &&& r is Ok
            &&& updated(old, new, old.tokens(), b, p, (old.conf().tx_cnt + 1) as nat)
            &&& new.txs().len() == old.txs().len() + 1
            &&& new.txs().drop_last() == old.txs()
            &&& is_transfer_tx(new.txs().last(), old.conf().tx_cnt, env, tid, from, to, amount, memo)
        },
        Err(e) => r == Err::<(), ContractError>(e) && same_ledger(new, old),
    }
}

/// What `owner` has granted `delegate` for `tid`; no record grants nothing.
pub open spec fn perm_of(perms: Permissions, owner: Seq<char>, tid: Seq<char>, delegate: Seq<char>) -> Permission {
    let k = permission_key(owner, tid, delegate);
    if perms.contains_key(k) {
        perms[k]
    } else {
        Permission::none()
    }
}

/// `before` with the fields that are given replaced.
pub open spec fn granted(
    before: Permission,
    view_owner: Option<bool>,
    view_private_metadata: Option<bool>,
    transfer: Option<u128>,
) -> Permission {
    Permission {
        view_owner_perm: match view_owner {
            Some(v) => v,
            None => before.view_owner_perm,
        },
        view_pr_metadata_perm: match view_private_metadata {
            Some(v) => v,
            None => before.view_pr_metadata_perm,
        },
        trfer_allowance_perm: match transfer {
            Some(v) => v,
            None => before.trfer_allowance_perm,
        },
    }
}

/// `new` is `old` with `p` filed as what `owner` grants `delegate` for `tid`.
pub open spec fn grant_result(
    old: Ledger,
    new: Ledger,
    owner: Seq<char>,
    delegate: Seq<char>,
    tid: Seq<char>,
    p: Permission,
) -> bool {
    &&& new.permissions() == old.permissions().insert(permission_key(owner, tid, delegate), p)
    &&& new.conf() == old.conf()
    &&& new.tokens() == old.tokens()
    &&& new.balances() == old.balances()
    &&& new.viewing_keys() == old.viewing_keys()
    &&& new.receivers() == old.receivers()
    &&& new.txs() == old.txs()
}

/// Only the viewing keys may differ between `old` and `new`.
pub open spec fn same_except_keys(old: Ledger, new: Ledger) -> bool {
    &&& new.conf() == old.conf()
    &&& new.tokens() == old.tokens()
    &&& new.balances() == old.balances()
    &&& new.permissions() == old.permissions()
    &&& new.receivers() == old.receivers()
    &&& new.txs() == old.txs()
}

/// Only the receiver registrations may differ between `old` and `new`.
pub open spec fn same_except_receivers(old: Ledger, new: Ledger) -> bool {
    &&& new.conf() == old.conf()
    &&& new.tokens() == old.tokens()
    &&& new.balances() == old.balances()
    &&& new.permissions() == old.permissions()
    &&& new.viewing_keys() == old.viewing_keys()
    &&& new.txs() == old.txs()
}

/// `a` and `b` hold the same ledger.
pub open spec fn same_ledger(a: Ledger, b: Ledger) -> bool {
    &&& a.conf() == b.conf()
    &&& a.tokens() == b.tokens()
    &&& a.balances() == b.balances()
    &&& a.permissions() == b.permissions()
    &&& a.viewing_keys() == b.viewing_keys()
    &&& a.receivers() == b.receivers()
    &&& a.txs() == b.txs()
}

/// `new` is `old` with the given tokens, balances, permissions and counter,
/// and one new history entry for each step of the counter.
pub open spec fn updated(
    old: Ledger,
    new: Ledger,
    tokens: Tokens,
    bals: Balances,
    perms: Permissions,
    cnt: nat,
) -> bool {
    &&& new.tokens() == tokens
    &&& new.balances() == bals
    &&& new.permissions() == perms
    &&& new.conf().tx_cnt == cnt
    &&& new.conf().admin == old.conf().admin
    &&& new.conf().minters == old.conf().minters
    &&& new.conf().prng_seed == old.conf().prng_seed
    &&& new.viewing_keys() == old.viewing_keys()
    &&& new.receivers() == old.receivers()
    &&& old.conf().tx_cnt <= cnt
    &&& new.txs().len() == old.txs().len() + (cnt - old.conf().tx_cnt)
    &&& new.txs().take(old.txs().len() as int) == old.txs()
}

} // verus!
