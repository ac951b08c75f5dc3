//! The records the ledger keeps, and the keys it files them under.
use vstd::prelude::*;
use crate::table::{key_view, Duplicate};

verus! {

/// Block data and caller of one request.
#[derive(Debug)]
pub struct Env {
    pub sender: String,
    pub block_height: u64,
    pub block_time: u64,
}

/// Metadata of one token identifier. Written once, never changed.
#[derive(Debug)]
pub struct TknInfo {
    pub token_id: String,
    pub name: String,
    pub symbol: String,
    pub is_nft: bool,
    pub enable_burn: bool,
}

impl Duplicate for TknInfo {
    fn duplicate(&self) -> (r: Self) {
        TknInfo {
            token_id: self.token_id.clone(),
            name: self.name.clone(),
            symbol: self.symbol.clone(),
            is_nft: self.is_nft,
            enable_burn: self.enable_burn,
        }
    }
}

/// What an owner has granted a delegate for one token identifier.
#[derive(Clone, Copy, Debug, PartialEq, Eq, Structural)]
pub struct Permission {
    pub view_owner_perm: bool,
    pub view_pr_metadata_perm: bool,
    pub trfer_allowance_perm: u128,
}

impl Default for Permission {
    fn default() -> (r: Self)
        ensures
            r == Permission::none(),
    {
        Permission { view_owner_perm: false, view_pr_metadata_perm: false, trfer_allowance_perm: 0 }
    }
}

impl Permission {
    /// The permission of an owner who granted nothing.
    pub open spec fn none() -> Permission {
        Permission { view_owner_perm: false, view_pr_metadata_perm: false, trfer_allowance_perm: 0 }
    }
}

/// An amount held by, or moved for, one address.
#[derive(Debug)]
pub struct Balance {
    pub address: String,
    pub amount: u128,
}

/// Amounts of one token identifier for several addresses.
#[derive(Debug)]
pub struct TokenAmount {
    pub token_id: String,
    pub balances: Vec<Balance>,
}

/// A new token identifier with its initial holders.
#[derive(Debug)]
pub struct MintTokenId {
    pub token_info: TknInfo,
    pub balances: Vec<Balance>,
}

/// What a history entry records.
#[derive(Debug)]
pub enum TxAction {
    Mint { minter: String, recipient: String },
    Burn { burner: Option<String>, owner: String },
    Transfer { from: String, sender: Option<String>, recipient: String },
}

impl Duplicate for TxAction {
    fn duplicate(&self) -> (r: Self) {
        match self {
            TxAction::Mint { minter, recipient } => TxAction::Mint {
                minter: minter.clone(),
                recipient: recipient.clone(),
            },
            TxAction::Burn { burner, owner } => TxAction::Burn {
                burner: copy_opt(burner),
                owner: owner.clone(),
            },
            TxAction::Transfer { from, sender, recipient } => TxAction::Transfer {
                from: from.clone(),
                sender: copy_opt(sender),
                recipient: recipient.clone(),
            },
        }
    }
}

/// `addr` takes part in `a`.
pub open spec fn involves(a: TxAction, addr: Seq<char>) -> bool {
    match a {
        TxAction::Mint { minter, recipient } => minter@ == addr || recipient@ == addr,
        TxAction::Burn { burner, owner } => (burner matches Some(b) && b@ == addr) || owner@
            == addr,
        TxAction::Transfer { from, sender, recipient } => from@ == addr || (sender matches Some(
            s,
        ) && s@ == addr) || recipient@ == addr,
    }
}

/// Whether `addr` takes part in `a`.
pub fn action_involves(a: &TxAction, addr: &String) -> (r: bool)
    ensures
        r == involves(*a, addr@),
{
    match a {
        TxAction::Mint { minter, recipient } => *minter == *addr || *recipient == *addr,
        TxAction::Burn { burner, owner } => {
            let b = match burner {
                Some(b) => *b == *addr,
                None => false,
            };
            b || *owner == *addr
        },
        TxAction::Transfer { from, sender, recipient } => {
            let s = match sender {
                Some(s) => *s == *addr,
                None => false,
            };
            *from == *addr || s || *recipient == *addr
        },
    }
}

/// One entry of the transaction history.
#[derive(Debug)]
pub struct Tx {
    pub tx_id: u64,
    pub block_height: u64,
    pub block_time: u64,
    pub token_id: String,
    pub action: TxAction,
    pub amount: u128,
    pub memo: Option<String>,
}

impl Duplicate for Tx {
    fn duplicate(&self) -> (r: Self) {
        Tx {
            tx_id: self.tx_id,
            block_height: self.block_height,
            block_time: self.block_time,
            token_id: self.token_id.clone(),
            action: self.action.duplicate(),
            amount: self.amount,
            memo: copy_opt(&self.memo),
        }
    }
}

/// The entries of `s` that `addr` takes part in, newest first.
pub open spec fn account_txs(s: Seq<Tx>, addr: Seq<char>) -> Seq<Tx>
    decreases s.len(),
{
    if s.len() == 0 {
        Seq::empty()
    } else {
        account_txs(s.drop_first(), addr) + if involves(s[0].action, addr) {
            seq![s[0]]
        } else {
            Seq::empty()
        }
    }
}

/// Page `page` of `s`, pages holding `size` entries and counted from zero.
pub open spec fn page_of<T>(s: Seq<T>, page: nat, size: nat) -> Seq<T> {
    let start = page * size;
    let end = start + size;
    if start >= s.len() {
        Seq::empty()
    } else if end >= s.len() {
        s.subrange(start as int, s.len() as int)
    } else {
        s.subrange(start as int, end as int)
    }
}

/// Settings of the whole ledger, and its transaction counter.
#[derive(Debug)]
pub struct ContrConf {
    pub admin: Option<String>,
    pub minters: Vec<String>,
    pub tx_cnt: u64,
    pub prng_seed: Vec<u8>,
}

/// Key of a token's metadata.
pub open spec fn token_key(tid: Seq<char>) -> Seq<Seq<char>> {
    seq![tid]
}

/// Key of a balance.
pub open spec fn balance_key(tid: Seq<char>, addr: Seq<char>) -> Seq<Seq<char>> {
    seq![tid, addr]
}

/// Key of what `owner` granted `delegate` for `tid`.
pub open spec fn permission_key(owner: Seq<char>, tid: Seq<char>, delegate: Seq<char>) -> Seq<
    Seq<char>,
> {
    seq![owner, tid, delegate]
}

/// Key of an address's viewing key or receiver registration.
pub open spec fn account_key(addr: Seq<char>) -> Seq<Seq<char>> {
    seq![addr]
}

pub fn token_key_of(tid: &String) -> (r: Vec<String>)
    ensures
        key_view(r@) == token_key(tid@),
{
    let mut r: Vec<String> = Vec::new();
    r.push(tid.clone());
    proof {
        assert(key_view(r@) =~= token_key(tid@));
    }
    r
}

pub fn balance_key_of(tid: &String, addr: &String) -> (r: Vec<String>)
    ensures
        key_view(r@) == balance_key(tid@, addr@),
{
    let mut r: Vec<String> = Vec::new();
    r.push(tid.clone());
    r.push(addr.clone());
    proof {
        assert(key_view(r@) =~= balance_key(tid@, addr@));
    }
    r
}

pub fn permission_key_of(owner: &String, tid: &String, delegate: &String) -> (r: Vec<String>)
    ensures
        key_view(r@) == permission_key(owner@, tid@, delegate@),
{
    let mut r: Vec<String> = Vec::new();
    r.push(owner.clone());
    r.push(tid.clone());
    r.push(delegate.clone());
    proof {
        assert(key_view(r@) =~= permission_key(owner@, tid@, delegate@));
    }
    r
}

pub fn account_key_of(addr: &String) -> (r: Vec<String>)
    ensures
        key_view(r@) == account_key(addr@),
{
    let mut r: Vec<String> = Vec::new();
    r.push(addr.clone());
    proof {
        assert(key_view(r@) =~= account_key(addr@));
    }
    r
}

/// An independent copy of an optional string.
pub fn copy_opt(o: &Option<String>) -> (r: Option<String>)
    ensures
        r == *o,
{
    match o {
        Some(s) => Some(s.clone()),
        None => None,
    }
}

} // verus!
