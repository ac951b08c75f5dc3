//! Requests and answers of the ledger, and the three entry points: `init`
//! builds a ledger, `handle` applies one request to it, `query` reads it
//! behind the viewing-key gate.
use vstd::prelude::*;
use vstd::utf8::encode_utf8;
use crate::ledger::{
    amounts_result, bal, granted, grant_result, minter_gated, mint_ids_result, mint_ids_spec,
    perm_of, same_except_keys, Balances, Permissions, Tokens, same_except_receivers, transfer_result, ContractError, Ledger,
};
use crate::outside::{base64_encode, base64_of, sha256_of, sha_256, space_pad, space_padded};
use crate::state::{
    account_key, account_txs, copy_opt, page_of, ContrConf, Env, MintTokenId, Permission,
    TokenAmount, Tx,
};

verus! {

/// Answers are padded to a multiple of this many bytes.
pub const RESPONSE_BLOCK_SIZE: usize = 256;

/// Size of a viewing-key digest.
pub const VIEWING_KEY_SIZE: usize = 32;

/// How a ledger starts.
#[derive(Debug)]
pub struct InitMsg {
    pub has_admin: bool,
    pub admin: Option<String>,
    pub minters: Vec<String>,
    pub initial_tokens: Vec<MintTokenId>,
    pub entropy: String,
}

/// A request that changes the ledger.
#[derive(Debug)]
pub enum HandleMsg {
    MintTokenIds { initial_tokens: Vec<MintTokenId>, memo: Option<String> },
    MintTokens { mint_tokens: Vec<TokenAmount>, memo: Option<String> },
    BurnTokens { burn_tokens: Vec<TokenAmount>, memo: Option<String> },
    Transfer {
        token_id: String,
        from: String,
        recipient: String,
        amount: u128,
        memo: Option<String>,
    },
    Send {
        token_id: String,
        from: String,
        recipient: String,
        recipient_code_hash: Option<String>,
        amount: u128,
        msg: Option<Vec<u8>>,
        memo: Option<String>,
    },
    GivePermission {
        address: String,
        token_id: String,
        view_owner: Option<bool>,
        view_private_metadata: Option<bool>,
        transfer: Option<u128>,
    },
    RegisterReceive { code_hash: String },
    CreateViewingKey { entropy: String },
    SetViewingKey { key: String },
}

#[derive(Clone, Copy, Debug, PartialEq, Eq, Structural)]
pub enum ResponseStatus {
    Success,
}

/// What a handled request answers.
#[derive(Debug)]
pub enum HandleAnswer {
    MintTokenIds { status: ResponseStatus },
    MintTokens { status: ResponseStatus },
    BurnTokens { status: ResponseStatus },
    Transfer { status: ResponseStatus },
    Send { status: ResponseStatus },
    GivePermission { status: ResponseStatus },
    RegisterReceive { status: ResponseStatus },
    CreateViewingKey { key: String },
    SetViewingKey { status: ResponseStatus },
}

/// The notification a receiving contract gets of tokens sent to it.
#[derive(Debug)]
pub struct Snip1155ReceiveMsg {
    pub sender: String,
    pub token_id: String,
    pub from: String,
    pub amount: u128,
    pub memo: Option<String>,
    pub msg: Option<Vec<u8>>,
}

/// A notification to deliver to `recipient`, whose code has hash `code_hash`.
#[derive(Debug)]
pub struct ReceiverCallback {
    pub recipient: String,
    pub code_hash: String,
    pub msg: Snip1155ReceiveMsg,
}

/// The answer to a handled request, and the notifications to deliver.
#[derive(Debug)]
pub struct HandleResponse {
    pub messages: Vec<ReceiverCallback>,
    pub data: HandleAnswer,
}

/// A request that reads the ledger.
#[derive(Debug)]
pub enum QueryMsg {
    ContractInfo,
    Balance { address: String, key: String, token_id: String },
    TransferHistory { address: String, key: String, page: Option<u32>, page_size: u32 },
    Permission { owner: String, perm_address: String, key: String, token_id: String },
}

/// What a query answers.
#[derive(Debug)]
pub enum QueryAnswer {
    ContractInfo { info: String },
    Balance { amount: u128 },
    TransferHistory { txs: Vec<Tx>, total: Option<u64> },
    Permission(Permission),
    ViewingKeyError { msg: String },
}

/// The one answer to a query whose key fits none of its addresses.
pub open spec fn denial_text() -> Seq<char> {
    "Wrong viewing key for this address or viewing key not set"@
}

/// The addresses a query may be made for, and the key presented.
pub open spec fn validation_params(msg: QueryMsg) -> (Seq<Seq<char>>, Seq<char>) {
    match msg {
        QueryMsg::ContractInfo => (Seq::empty(), Seq::empty()),
        QueryMsg::Balance { address, key, .. } => (seq![address@], key@),
        QueryMsg::TransferHistory { address, key, .. } => (seq![address@], key@),
        QueryMsg::Permission { owner, perm_address, key, .. } => (seq![owner@, perm_address@], key@),
    }
}

/// Digest under which a viewing key is kept and compared.
pub open spec fn key_digest_spec(key: Seq<char>) -> Seq<u8> {
    sha256_of(encode_utf8(key))
}

/// `digest` is the stored digest of one of `addrs`.
pub open spec fn key_matches(
    vks: Map<Seq<Seq<char>>, [u8; 32]>,
    addrs: Seq<Seq<char>>,
    digest: Seq<u8>,
) -> bool {
    exists|i: int|
        0 <= i < addrs.len() && vks.contains_key(account_key(#[trigger] addrs[i])) && vks[account_key(
            addrs[i],
        )]@ == digest
}

/// The private answer to an authenticated query.
pub open spec fn private_answer(l: Ledger, msg: QueryMsg, r: QueryAnswer) -> bool {
    match msg {
        QueryMsg::Balance { address, token_id, .. } => r == QueryAnswer::Balance {
            amount: bal(l.balances(), token_id@, address@) as u128,
        },
        QueryMsg::TransferHistory { address, page, page_size, .. } => {
            let all = account_txs(l.txs(), address@);
            let p = match page {
                Some(p) => p,
                None => 0,
            };
            r matches QueryAnswer::TransferHistory { txs, total } && txs@ == page_of(
                all,
                p as nat,
                page_size as nat,
            ) && total == Some(all.len() as u64)
        },
        QueryMsg::Permission { owner, perm_address, token_id, .. } => r == QueryAnswer::Permission(
            perm_of(l.permissions(), owner@, token_id@, perm_address@),
        ),
        QueryMsg::ContractInfo => true,
    }
}

/// `r` is the denial.
pub open spec fn is_denial(r: QueryAnswer) -> bool {
    r matches QueryAnswer::ViewingKeyError { msg } && msg@ == denial_text()
}

impl QueryMsg {
    /// The addresses this query may be made for, and the key presented.
    pub fn get_validation_params(&self) -> (r: (Vec<String>, String))
        ensures
            r.0@.map_values(|a: String| a@) == validation_params(*self).0,
            r.1@ == validation_params(*self).1,
    {
        let mut v: Vec<String> = Vec::new();
        let k = match self {
            QueryMsg::ContractInfo => String::new(),
            QueryMsg::Balance { address, key, .. } => {
                v.push(address.clone());
                key.clone()
            },
            QueryMsg::TransferHistory { address, key, .. } => {
                v.push(address.clone());
                key.clone()
            },
            QueryMsg::Permission { owner, perm_address, key, .. } => {
                v.push(owner.clone());
                v.push(perm_address.clone());
                key.clone()
            },
        };
        proof {
            assert(v@.map_values(|a: String| a@) =~= validation_params(*self).0);
        }
        (v, k)
    }
}

/// Digest of a presented or stored viewing key.
fn key_digest(key: &String) -> (r: [u8; 32])
    ensures
        r@ == key_digest_spec(key@),
{
    sha_256(key.as_str().as_bytes())
}

proof fn lemma_or_xor(acc: u8, x: u8, y: u8)
    ensures
        ((acc | (x ^ y)) == 0) == (acc == 0 && x == y),
{
    assert(((acc | (x ^ y)) == 0) == (acc == 0 && x == y)) by (bit_vector);
}

/// Compares two digests byte by byte, always looking at every byte.
pub fn check_viewing_key(a: &[u8; 32], b: &[u8; 32]) -> (r: bool)
    ensures
        r == (a@ == b@),
{
    let mut acc: u8 = 0;
    let mut i: usize = 0;
    while i < VIEWING_KEY_SIZE
        invariant
            0 <= i <= 32,
            a@.len() == 32,
            b@.len() == 32,
            (acc == 0) == (forall|j: int| 0 <= j < i ==> a@[j] == b@[j]),
        decreases 32 - i,
    {
        proof {
            lemma_or_xor(acc, a@[i as int], b@[i as int]);
        }
        acc = acc | (a[i] ^ b[i]);
        i = i + 1;
    }
    proof {
        if acc == 0 {
            assert(a@ =~= b@);
        }
    }
    acc == 0
}

/// The private answer to `msg`, once the key has been accepted.
fn private_query(ledger: &Ledger, msg: &QueryMsg) -> (r: QueryAnswer)
    ensures
        private_answer(*ledger, *msg, r),
{
    match msg {
        QueryMsg::Balance { address, token_id, .. } => QueryAnswer::Balance {
            amount: ledger.balance(token_id, address),
        },
        QueryMsg::TransferHistory { address, page, page_size, .. } => {
            let p: u32 = match page {
                Some(p) => *p,
                None => 0,
            };
            let (txs, total) = ledger.get_txs(address, p, *page_size);
            QueryAnswer::TransferHistory { txs, total: Some(total) }
        },
        QueryMsg::Permission { owner, perm_address, token_id, .. } => QueryAnswer::Permission(
            ledger.permission(owner, token_id, perm_address),
        ),
        QueryMsg::ContractInfo => QueryAnswer::ContractInfo { info: "data".to_owned() },
    }
}

/// Answers a private query when its key is the viewing key of one of its
/// addresses, and gives one and the same denial otherwise. Every address
/// costs one full comparison, whether it has a key or not.
pub fn viewing_keys_queries(ledger: &Ledger, msg: &QueryMsg) -> (r: QueryAnswer)
    ensures
        ({
            let (addrs, key) = validation_params(*msg);
            if key_matches(ledger.viewing_keys(), addrs, key_digest_spec(key)) {
                private_answer(*ledger, *msg, r)
            } else {
                is_denial(r)
            }
        }),
{
    let (addresses, key) = msg.get_validation_params();
    let ghost addrs = addresses@.map_values(|a: String| a@);
    let digest = key_digest(&key);
    let zeros: [u8; 32] = [0u8; 32];
    let mut i: usize = 0;
    while i < addresses.len()
        invariant
            0 <= i <= addresses@.len(),
            addrs == addresses@.map_values(|a: String| a@),
            addrs == validation_params(*msg).0,
            digest@ == key_digest_spec(validation_params(*msg).1),
            forall|j: int|
                0 <= j < i ==> !(ledger.viewing_keys().contains_key(account_key(#[trigger] addrs[j]))
                    && ledger.viewing_keys()[account_key(addrs[j])]@ == digest@),
        decreases addresses@.len() - i,
    {
        match ledger.read_viewing_key(&addresses[i]) {
            None => {
                let _ = check_viewing_key(&digest, &zeros);
            },
            Some(expected) => {
                if check_viewing_key(&digest, &expected) {
                    proof {
                        assert(addrs[i as int] == addresses@[i as int]@);
                    }
                    return private_query(ledger, msg);
                }
            },
        }
        proof {
            assert(addrs[i as int] == addresses@[i as int]@);
        }
        i = i + 1;
    }
    QueryAnswer::ViewingKeyError {
        msg: "Wrong viewing key for this address or viewing key not set".to_owned(),
    }
}

/// Answers a query.
pub fn query(ledger: &Ledger, msg: &QueryMsg) -> (r: QueryAnswer)
    ensures
        msg is ContractInfo ==> (r matches QueryAnswer::ContractInfo { info } && info@ == "data"@),
        !(msg is ContractInfo) ==> ({
            let (addrs, key) = validation_params(*msg);
            if key_matches(ledger.viewing_keys(), addrs, key_digest_spec(key)) {
                private_answer(*ledger, *msg, r)
            } else {
                is_denial(r)
            }
        }),
{
    match msg {
        QueryMsg::ContractInfo => QueryAnswer::ContractInfo { info: "data".to_owned() },
        _ => viewing_keys_queries(ledger, msg),
    }
}

/// Pads serialised answer bytes with spaces to a multiple of the block size,
/// so that their length tells little about their content.
pub fn pad_response(data: Vec<u8>) -> (r: Vec<u8>)
    requires
        data@.len() + RESPONSE_BLOCK_SIZE <= isize::MAX,
    ensures
        r@ == space_padded(data@, RESPONSE_BLOCK_SIZE as nat),
{
    let mut data = data;
    space_pad(&mut data, RESPONSE_BLOCK_SIZE);
    data
}

/// The eight bytes of `v`, least significant first.
pub open spec fn le_bytes(v: u64) -> Seq<u8> {
    Seq::new(8, |i: int| (v >> ((8 * i) as u64)) as u8)
}

/// What a new viewing key is drawn from: the ledger's seed, the caller's
/// entropy, the caller and the block.
pub open spec fn key_material(seed: Seq<u8>, env: Env, entropy: Seq<char>) -> Seq<u8> {
    seed + encode_utf8(entropy) + encode_utf8(env.sender@) + le_bytes(env.block_height) + le_bytes(
        env.block_time,
    )
}

/// The viewing key made for a caller.
pub open spec fn new_key_spec(seed: Seq<u8>, env: Env, entropy: Seq<char>) -> Seq<char> {
    base64_of(sha256_of(key_material(seed, env, entropy)))
}

/// The ledger's seed, drawn from the entropy given at start.
pub open spec fn seed_spec(entropy: Seq<char>) -> Seq<u8> {
    sha256_of(encode_utf8(base64_of(encode_utf8(entropy))))
}

/// Administrator of a new ledger: none, the one named, or else the caller.
pub open spec fn init_admin(env: Env, msg: InitMsg) -> Option<String> {
    if !msg.has_admin {
        None
    } else {
        match msg.admin {
            Some(a) => Some(a),
            None => Some(env.sender),
        }
    }
}

fn push_bytes(out: &mut Vec<u8>, b: &[u8])
    ensures
        final(out)@ == old(out)@ + b@,
{
    let mut i: usize = 0;
    while i < b.len()
        invariant
            0 <= i <= b@.len(),
            out@ == old(out)@ + b@.subrange(0, i as int),
        decreases b@.len() - i,
    {
        out.push(b[i]);
        i = i + 1;
        proof {
            assert(out@ =~= old(out)@ + b@.subrange(0, i as int));
        }
    }
    proof {
        assert(b@.subrange(0, b@.len() as int) =~= b@);
    }
}

fn push_le(out: &mut Vec<u8>, v: u64)
    ensures
        final(out)@ == old(out)@ + le_bytes(v),
{
    let mut i: u64 = 0;
    while i < 8
        invariant
            0 <= i <= 8,
            out@ == old(out)@ + le_bytes(v).subrange(0, i as int),
        decreases 8 - i,
    {
        out.push(#[verifier::truncate] ((v >> (8 * i)) as u8));
        i = i + 1;
        proof {
            assert(out@ =~= old(out)@ + le_bytes(v).subrange(0, i as int));
        }
    }
    proof {
        assert(le_bytes(v).subrange(0, 8) =~= le_bytes(v));
    }
}

fn digest_to_vec(d: &[u8; 32]) -> (r: Vec<u8>)
    ensures
        r@ == d@,
{
    let mut r: Vec<u8> = Vec::new();
    push_bytes(&mut r, d.as_slice());
    proof {
        assert(r@ =~= d@);
    }
    r
}

/// Makes a new viewing key from the seed, the caller's entropy, the caller
/// and the block.
pub fn new_viewing_key(env: &Env, prng_seed: &Vec<u8>, entropy: &String) -> (r: String)
    ensures
        r@ == new_key_spec(prng_seed@, *env, entropy@),
{
    let mut material: Vec<u8> = Vec::new();
    push_bytes(&mut material, prng_seed.as_slice());
    push_bytes(&mut material, entropy.as_str().as_bytes());
    push_bytes(&mut material, env.sender.as_str().as_bytes());
    push_le(&mut material, env.block_height);
    push_le(&mut material, env.block_time);
    proof {
        assert(material@ =~= key_material(prng_seed@, *env, entropy@));
    }
    let digest = sha_256(material.as_slice());
    base64_encode(digest.as_slice())
}

/// Builds a ledger: settings, seed, and the initial token identifiers,
/// created as if minted by the caller.
pub fn init(env: &Env, msg: InitMsg) -> (r: Result<Ledger, ContractError>)
    ensures
        match mint_ids_spec(Tokens::empty(), Balances::empty(), 0, env.sender@, msg.initial_tokens@) {
            Ok((k, b, c)) => r matches Ok(l) && {
                &&& l.tokens() == k
                &&& l.balances() == b
                &&& l.conf().tx_cnt == c
                &&& l.conf().admin == init_admin(*env, msg)
                &&& l.conf().minters == msg.minters
                &&& l.conf().prng_seed@ == seed_spec(msg.entropy@)
                &&& l.permissions() == Permissions::empty()
                &&& l.viewing_keys() == Map::<Seq<Seq<char>>, [u8; 32]>::empty()
                &&& l.receivers() == Map::<Seq<Seq<char>>, String>::empty()
                &&& l.txs().len() == c
            },
            Err(e) => r == Err::<Ledger, ContractError>(e),
        },
{
    let admin = if !msg.has_admin {
        None
    } else {
        match msg.admin {
            Some(a) => Some(a),
            None => Some(env.sender.clone()),
        }
    };
    let encoded = base64_encode(msg.entropy.as_str().as_bytes());
    let seed = sha_256(encoded.as_str().as_bytes());
    let config = ContrConf { admin, minters: msg.minters, tx_cnt: 0, prng_seed: digest_to_vec(&seed) };
    let mut ledger = Ledger::new(config);
    ledger.mint_initial(env, &msg.initial_tokens)?;
    Ok(ledger)
}

/// Result of a request without its answer.
pub open spec fn unit_of(r: Result<HandleResponse, ContractError>) -> Result<(), ContractError> {
    match r {
        Ok(_) => Ok(()),
        Err(e) => Err(e),
    }
}

/// A successful `r` answers `a` and carries no notification.
pub open spec fn answers(r: Result<HandleResponse, ContractError>, a: HandleAnswer) -> bool {
    r matches Ok(resp) ==> resp.data == a && resp.messages@ == Seq::<ReceiverCallback>::empty()
}

/// Notifications of a send: to the code hash named in the request, else to
/// the one the recipient registered, else none.
pub open spec fn callback_spec(
    receivers: Map<Seq<Seq<char>>, String>,
    recipient: String,
    recipient_code_hash: Option<String>,
    msg: Option<Vec<u8>>,
    sender: String,
    token_id: String,
    from: String,
    amount: u128,
    memo: Option<String>,
) -> Seq<ReceiverCallback> {
    let hash = match recipient_code_hash {
        Some(h) => Some(h),
        None => if receivers.contains_key(account_key(recipient@)) {
            Some(receivers[account_key(recipient@)])
        } else {
            None
        },
    };
    match hash {
        Some(h) => seq![
            ReceiverCallback {
                recipient,
                code_hash: h,
                msg: Snip1155ReceiveMsg { sender, token_id, from, amount, memo, msg },
            },
        ],
        None => Seq::empty(),
    }
}

/// `new` is `old` with `digest` as the stored digest of `addr`'s key.
pub open spec fn key_stored(old: Ledger, new: Ledger, addr: Seq<char>, digest: Seq<u8>) -> bool {
    &&& new.viewing_keys().contains_key(account_key(addr))
    &&& new.viewing_keys()[account_key(addr)]@ == digest
    &&& new.viewing_keys() == old.viewing_keys().insert(
        account_key(addr),
        new.viewing_keys()[account_key(addr)],
    )
    &&& same_except_keys(old, new)
}

/// What handling `msg` for `env.sender` does to a ledger and answers.
pub open spec fn handle_result(
    old: Ledger,
    new: Ledger,
    env: Env,
    msg: HandleMsg,
    r: Result<HandleResponse, ContractError>,
) -> bool {
    let u = unit_of(r);
    match msg {
        HandleMsg::MintTokenIds { initial_tokens, memo } => minter_gated(
            old,
            new,
            env.sender@,
            u,
            mint_ids_result(old, new, env.sender@, initial_tokens@, u),
        ) && answers(r, HandleAnswer::MintTokenIds { status: ResponseStatus::Success }),
        HandleMsg::MintTokens { mint_tokens, memo } => minter_gated(
            old,
            new,
            env.sender@,
            u,
            amounts_result(old, new, env.sender@, false, mint_tokens@, u),
        ) && answers(r, HandleAnswer::MintTokens { status: ResponseStatus::Success }),
        HandleMsg::BurnTokens { burn_tokens, memo } => amounts_result(
            old,
            new,
            env.sender@,
            true,
            burn_tokens@,
            u,
        ) && answers(r, HandleAnswer::BurnTokens { status: ResponseStatus::Success }),
        HandleMsg::Transfer { token_id, from, recipient, amount, memo } => transfer_result(
            old,
            new,
            env,
            token_id@,
            from@,
            recipient@,
            amount,
            memo,
            u,
        ) && answers(r, HandleAnswer::Transfer { status: ResponseStatus::Success }),
        HandleMsg::Send { token_id, from, recipient, recipient_code_hash, amount, msg, memo } => {
            &&& transfer_result(old, new, env, token_id@, from@, recipient@, amount, memo, u)
            &&& r matches Ok(resp) ==> resp.data == HandleAnswer::Send {
                status: ResponseStatus::Success,
            } && resp.messages@ == callback_spec(
                old.receivers(),
                recipient,
                recipient_code_hash,
                msg,
                env.sender,
                token_id,
                from,
                amount,
                memo,
            )
        },
        HandleMsg::GivePermission { address, token_id, view_owner, view_private_metadata, transfer } => {
            &&& r is Ok
            &&& answers(r, HandleAnswer::GivePermission { status: ResponseStatus::Success })
            &&& grant_result(
                old,
                new,
                env.sender@,
                address@,
                token_id@,
                granted(
                    perm_of(old.permissions(), env.sender@, token_id@, address@),
                    view_owner,
                    view_private_metadata,
                    transfer,
                ),
            )
        },
        HandleMsg::RegisterReceive { code_hash } => {
            &&& r is Ok
            &&& answers(r, HandleAnswer::RegisterReceive { status: ResponseStatus::Success })
            &&& new.receivers() == old.receivers().insert(account_key(env.sender@), code_hash)
            &&& same_except_receivers(old, new)
        },
        HandleMsg::CreateViewingKey { entropy } => match r {
            Ok(resp) => resp.messages@ == Seq::<ReceiverCallback>::empty() && match resp.data {
                HandleAnswer::CreateViewingKey { key } => key@ == new_key_spec(
                    old.conf().prng_seed@,
                    env,
                    entropy@,
                ) && key_stored(old, new, env.sender@, key_digest_spec(key@)),
                _ => false,
            },
            Err(_) => false,
        },
        HandleMsg::SetViewingKey { key } => {
            &&& r is Ok
            &&& answers(r, HandleAnswer::SetViewingKey { status: ResponseStatus::Success })
            &&& key_stored(old, new, env.sender@, key_digest_spec(key@))
        },
    }
}

/// Adds the notification of a send to `messages`: to the code hash named
/// in the request, else to the one the recipient registered, else none.
pub fn try_add_receiver_api_callback(
    ledger: &Ledger,
    messages: &mut Vec<ReceiverCallback>,
    recipient: String,
    recipient_code_hash: Option<String>,
    msg: Option<Vec<u8>>,
    sender: String,
    token_id: String,
    from: String,
    amount: u128,
    memo: Option<String>,
)
    ensures
        final(messages)@ == old(messages)@ + callback_spec(
            ledger.receivers(),
            recipient,
            recipient_code_hash,
            msg,
            sender,
            token_id,
            from,
            amount,
            memo,
        ),
{
    let ghost spec_msgs = callback_spec(
        ledger.receivers(),
        recipient,
        recipient_code_hash,
        msg,
        sender,
        token_id,
        from,
        amount,
        memo,
    );
    let hash = match recipient_code_hash {
        Some(h) => Some(h),
        None => ledger.get_receiver_hash(&recipient),
    };
    match hash {
        Some(h) => {
            let receive_msg = Snip1155ReceiveMsg { sender, token_id, from, amount, memo, msg };
            messages.push(ReceiverCallback { recipient, code_hash: h, msg: receive_msg });
            proof {
                assert(messages@ =~= old(messages)@ + spec_msgs);
            }
        },
        None => {
            proof {
                assert(messages@ =~= old(messages)@ + spec_msgs);
            }
        },
    }
}

/// Files what the caller grants `address` for `token_id`. Whether the token
/// exists is not looked at, so that nobody learns it this way.
pub fn try_give_permission(
    ledger: &mut Ledger,
    env: &Env,
    address: String,
    token_id: String,
    view_owner: Option<bool>,
    view_private_metadata: Option<bool>,
    transfer: Option<u128>,
) -> (r: Result<HandleResponse, ContractError>)
    ensures
        handle_result(
            *old(ledger),
            *final(ledger),
            *env,
            HandleMsg::GivePermission { address, token_id, view_owner, view_private_metadata, transfer },
            r,
        ),
{
    ledger.grant(&env.sender, &address, &token_id, view_owner, view_private_metadata, transfer);
    Ok(
        HandleResponse {
            messages: Vec::new(),
            data: HandleAnswer::GivePermission { status: ResponseStatus::Success },
        },
    )
}

/// Transfers tokens on behalf of the caller.
fn try_transfer(
    ledger: &mut Ledger,
    env: &Env,
    token_id: String,
    from: String,
    recipient: String,
    amount: u128,
    memo: Option<String>,
) -> (r: Result<HandleResponse, ContractError>)
    ensures
        handle_result(
            *old(ledger),
            *final(ledger),
            *env,
            HandleMsg::Transfer { token_id, from, recipient, amount, memo },
            r,
        ),
{
    ledger.impl_transfer(env, &token_id, &from, &recipient, amount, memo)?;
    Ok(
        HandleResponse {
            messages: Vec::new(),
            data: HandleAnswer::Transfer { status: ResponseStatus::Success },
        },
    )
}

/// Transfers tokens on behalf of the caller and notifies the recipient.
fn try_send(
    ledger: &mut Ledger,
    env: &Env,
    token_id: String,
    from: String,
    recipient: String,
    recipient_code_hash: Option<String>,
    amount: u128,
    msg: Option<Vec<u8>>,
    memo: Option<String>,
) -> (r: Result<HandleResponse, ContractError>)
    ensures
        handle_result(
            *old(ledger),
            *final(ledger),
            *env,
            HandleMsg::Send { token_id, from, recipient, recipient_code_hash, amount, msg, memo },
            r,
        ),
{
    ledger.impl_transfer(env, &token_id, &from, &recipient, amount, copy_opt(&memo))?;
    let mut messages: Vec<ReceiverCallback> = Vec::new();
    try_add_receiver_api_callback(
        ledger,
        &mut messages,
        recipient,
        recipient_code_hash,
        msg,
        env.sender.clone(),
        token_id,
        from,
        amount,
        memo,
    );
    proof {
        assert(messages@ =~= Seq::<ReceiverCallback>::empty() + messages@);
    }
    Ok(HandleResponse { messages, data: HandleAnswer::Send { status: ResponseStatus::Success } })
}

/// Registers the caller's code hash for notifications of tokens sent to it.
fn try_register_receive(ledger: &mut Ledger, env: &Env, code_hash: String) -> (r: Result<
    HandleResponse,
    ContractError,
>)
    ensures
        handle_result(*old(ledger), *final(ledger), *env, HandleMsg::RegisterReceive { code_hash }, r),
{
    ledger.set_receiver_hash(&env.sender, code_hash);
    Ok(
        HandleResponse {
            messages: Vec::new(),
            data: HandleAnswer::RegisterReceive { status: ResponseStatus::Success },
        },
    )
}

/// Makes the caller a new viewing key, keeps its digest, and answers the key.
fn try_create_key(ledger: &mut Ledger, env: &Env, entropy: String) -> (r: Result<
    HandleResponse,
    ContractError,
>)
    ensures
        handle_result(*old(ledger), *final(ledger), *env, HandleMsg::CreateViewingKey { entropy }, r),
{
    let key = new_viewing_key(env, &ledger.config().prng_seed, &entropy);
    ledger.write_viewing_key(&env.sender, key_digest(&key));
    Ok(HandleResponse { messages: Vec::new(), data: HandleAnswer::CreateViewingKey { key } })
}

/// Keeps the digest of the viewing key the caller chose.
fn try_set_key(ledger: &mut Ledger, env: &Env, key: String) -> (r: Result<
    HandleResponse,
    ContractError,
>)
    ensures
        handle_result(*old(ledger), *final(ledger), *env, HandleMsg::SetViewingKey { key }, r),
{
    ledger.write_viewing_key(&env.sender, key_digest(&key));
    Ok(
        HandleResponse {
            messages: Vec::new(),
            data: HandleAnswer::SetViewingKey { status: ResponseStatus::Success },
        },
    )
}

/// Applies one request of `env.sender` to the ledger. A refused request
/// changes nothing.
pub fn handle(ledger: &mut Ledger, env: &Env, msg: HandleMsg) -> (r: Result<HandleResponse, ContractError>)
    ensures
        handle_result(*old(ledger), *final(ledger), *env, msg, r),
{
    match msg {
        HandleMsg::MintTokenIds { initial_tokens, memo } => {
            ledger.try_mint_token_ids(env, &initial_tokens, memo)?;
            Ok(
                HandleResponse {
                    messages: Vec::new(),
                    data: HandleAnswer::MintTokenIds { status: ResponseStatus::Success },
                },
            )
        },
        HandleMsg::MintTokens { mint_tokens, memo } => {
            ledger.try_mint_tokens(env, &mint_tokens, memo)?;
            Ok(
                HandleResponse {
                    messages: Vec::new(),
                    data: HandleAnswer::MintTokens { status: ResponseStatus::Success },
                },
            )
        },
        HandleMsg::BurnTokens { burn_tokens, memo } => {
            ledger.try_burn_tokens(env, &burn_tokens, memo)?;
            Ok(
                HandleResponse {
                    messages: Vec::new(),
                    data: HandleAnswer::BurnTokens { status: ResponseStatus::Success },
                },
            )
        },
        HandleMsg::Transfer { token_id, from, recipient, amount, memo } => {
            try_transfer(ledger, env, token_id, from, recipient, amount, memo)
        },
        HandleMsg::Send { token_id, from, recipient, recipient_code_hash, amount, msg, memo } => {
            try_send(ledger, env, token_id, from, recipient, recipient_code_hash, amount, msg, memo)
        },
        HandleMsg::GivePermission { address, token_id, view_owner, view_private_metadata, transfer } => {
            try_give_permission(ledger, env, address, token_id, view_owner, view_private_metadata, transfer)
        },
        HandleMsg::RegisterReceive { code_hash } => try_register_receive(ledger, env, code_hash),
        HandleMsg::CreateViewingKey { entropy } => try_create_key(ledger, env, entropy),
        HandleMsg::SetViewingKey { key } => try_set_key(ledger, env, key),
    }
}

} // verus!
