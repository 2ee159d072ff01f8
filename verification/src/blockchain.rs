//! A proof-of-work block chain. Each block commits, by a SHA-256 digest of
//! its JSON header, to its time, nonce, predecessor, transactions and
//! difficulty; mining looks for the least nonce whose digest, written in
//! hexadecimal, begins with `difficulty` zeros.

use vstd::prelude::*;
use sha2::Digest;
use vstd::utf8::encode_utf8;

use crate::clock::current_timestamp;
use crate::text::{
    decimal_text, has_leading_zeros, hex_encode, hex_text, json_quoted, push_char,
    starts_with_zeros,
};

verus! {

// ---------------------------------------------------------------------------
// Outside calls
// ---------------------------------------------------------------------------

/// The SHA-256 digest of a byte string.
pub uninterp spec fn sha256_of(data: Seq<u8>) -> Seq<u8>;

/// `sha2::Sha256::digest`: returns the SHA-256 digest of `data`, which is
/// the same for the same bytes and is 32 bytes long.
#[verifier::external_body]
fn sha256_digest(data: &[u8]) -> (r: Vec<u8>)
    ensures
        r@ == sha256_of(data@),
        r@.len() == 32,
{
    sha2::Sha256::digest(data).to_vec()
}

/// `serde_json::to_string` on a `str`: the text between double quotes, with
/// `"`, `\` and control characters escaped as `json_quoted` says. Writing a
/// string into memory does not fail.
#[verifier::external_body]
fn json_of_str(s: &str) -> (r: String)
    ensures
        r@ == json_quoted(s@),
{
    serde_json::to_string(s).expect("a string always serializes")
}

/// `serde_json::to_string` on an `i64`: its decimal numeral.
#[verifier::external_body]
fn json_of_i64(n: i64) -> (r: String)
    ensures
        r@ == decimal_text(n as int),
{
    serde_json::to_string(&n).expect("an integer always serializes")
}

/// `serde_json::to_string` on a `u32`: its decimal numeral.
#[verifier::external_body]
fn json_of_u32(n: u32) -> (r: String)
    ensures
        r@ == decimal_text(n as int),
{
    serde_json::to_string(&n).expect("an integer always serializes")
}

// ---------------------------------------------------------------------------
// Data
// ---------------------------------------------------------------------------

/// A transfer of `amount` from `sender` to `receiver`. The amount is held as
/// the JSON number text that stands for it in block headers (`"10.0"`).
#[derive(Clone)]
pub struct Transaction {
    pub sender: String,
    pub receiver: String,
    pub amount: String,
}

/// What a transaction holds, as text.
pub struct TransactionView {
    pub sender: Seq<char>,
    pub receiver: Seq<char>,
    pub amount: Seq<char>,
}

impl View for Transaction {
    type V = TransactionView;

    open spec fn view(&self) -> TransactionView {
        TransactionView { sender: self.sender@, receiver: self.receiver@, amount: self.amount@ }
    }
}

/// A mined block.
pub struct Block {
    timestamp: i64,
    nonce: u32,
    prev_hash: String,
    hash: String,
    transactions: Vec<Transaction>,
    difficulty: u32,
}

/// What a block holds.
pub struct BlockView {
    pub timestamp: i64,
    pub nonce: u32,
    pub prev_hash: Seq<char>,
    pub hash: Seq<char>,
    pub transactions: Seq<TransactionView>,
    pub difficulty: u32,
}

pub open spec fn tx_views(txs: Seq<Transaction>) -> Seq<TransactionView> {
    txs.map_values(|t: Transaction| t@)
}

impl View for Block {
    type V = BlockView;

    closed spec fn view(&self) -> BlockView {
        BlockView {
            timestamp: self.timestamp,
            nonce: self.nonce,
            prev_hash: self.prev_hash@,
            hash: self.hash@,
            transactions: tx_views(self.transactions@),
            difficulty: self.difficulty,
        }
    }
}

// ---------------------------------------------------------------------------
// Block headers and their hashes
// ---------------------------------------------------------------------------

/// A transaction as a JSON object, fields in declaration order.
pub open spec fn tx_json(t: TransactionView) -> Seq<char> {
    "{\"sender\":"@ + json_quoted(t.sender) + ",\"receiver\":"@ + json_quoted(t.receiver)
        + ",\"amount\":"@ + t.amount + "}"@
}

/// The transactions' objects, separated by commas.
pub open spec fn tx_items(txs: Seq<TransactionView>) -> Seq<char>
    decreases txs.len(),
{
    if txs.len() == 0 {
        Seq::empty()
    } else if txs.len() == 1 {
        tx_json(txs[0])
    } else {
        tx_items(txs.drop_last()) + seq![','] + tx_json(txs.last())
    }
}

/// The transactions as a JSON array.
pub open spec fn txs_json(txs: Seq<TransactionView>) -> Seq<char> {
    seq!['['] + tx_items(txs) + seq![']']
}

/// The JSON array `[timestamp,nonce,prev_hash,transactions,difficulty]` that
/// a block's hash is taken over.
pub open spec fn header_json(
    timestamp: i64,
    nonce: u32,
    prev_hash: Seq<char>,
    txs: Seq<TransactionView>,
    difficulty: u32,
) -> Seq<char> {
    seq!['['] + decimal_text(timestamp as int) + seq![','] + decimal_text(nonce as int) + seq![',']
        + json_quoted(prev_hash) + seq![','] + txs_json(txs) + seq![','] + decimal_text(
        difficulty as int,
    ) + seq![']']
}

/// The hash of a block: the SHA-256 digest of the UTF-8 bytes of its header,
/// in lowercase hexadecimal.
pub open spec fn block_hash(
    timestamp: i64,
    nonce: u32,
    prev_hash: Seq<char>,
    txs: Seq<TransactionView>,
    difficulty: u32,
) -> Seq<char> {
    hex_text(sha256_of(encode_utf8(header_json(timestamp, nonce, prev_hash, txs, difficulty))))
}

/// The hash of a block with this nonce meets the difficulty.
pub open spec fn nonce_works(
    timestamp: i64,
    nonce: u32,
    prev_hash: Seq<char>,
    txs: Seq<TransactionView>,
    difficulty: u32,
) -> bool {
    has_leading_zeros(block_hash(timestamp, nonce, prev_hash, txs, difficulty), difficulty as int)
}

/// Some nonce from 1 up meets the difficulty.
pub open spec fn some_nonce_works(
    timestamp: i64,
    prev_hash: Seq<char>,
    txs: Seq<TransactionView>,
    difficulty: u32,
) -> bool {
    exists|n: u32| 1 <= n && #[trigger] nonce_works(timestamp, n, prev_hash, txs, difficulty)
}

/// The block is what mining gives for these contents: its nonce is the
/// least from 1 up that meets the difficulty, and its hash is that nonce's.
pub open spec fn is_mined_block(
    b: BlockView,
    timestamp: i64,
    prev_hash: Seq<char>,
    txs: Seq<TransactionView>,
    difficulty: u32,
) -> bool {
    &&& b.timestamp == timestamp
    &&& b.prev_hash == prev_hash
    &&& b.transactions == txs
    &&& b.difficulty == difficulty
    &&& 1 <= b.nonce
    &&& b.hash.len() == 64
    &&& b.hash == block_hash(timestamp, b.nonce, prev_hash, txs, difficulty)
    &&& nonce_works(timestamp, b.nonce, prev_hash, txs, difficulty)
    &&& forall|m: u32|
        1 <= m < b.nonce ==> !#[trigger] nonce_works(timestamp, m, prev_hash, txs, difficulty)
}

/// The block's hash is the hash of its own contents and meets its difficulty.
pub open spec fn block_is_sound(b: BlockView) -> bool {
    &&& b.hash.len() == 64
    &&& b.hash == block_hash(b.timestamp, b.nonce, b.prev_hash, b.transactions, b.difficulty)
    &&& has_leading_zeros(b.hash, b.difficulty as int)
}

// ---------------------------------------------------------------------------
// Writing headers and hashing them
// ---------------------------------------------------------------------------

fn append_tx_json(out: &mut String, t: &Transaction)
    ensures
        final(out)@ == old(out)@ + tx_json(t@),
{
    out.append("{\"sender\":");
    let q = json_of_str(t.sender.as_str());
    out.append(q.as_str());
    out.append(",\"receiver\":");
    let q = json_of_str(t.receiver.as_str());
    out.append(q.as_str());
    out.append(",\"amount\":");
    out.append(t.amount.as_str());
    out.append("}");
    assert(final(out)@ =~= old(out)@ + tx_json(t@));
}

/// The transactions as the JSON array that a block header holds.
fn transactions_json(txs: &Vec<Transaction>) -> (r: String)
    ensures
        r@ == txs_json(tx_views(txs@)),
{
    let mut out = String::new();
    push_char(&mut out, '[');
    let n = txs.len();
    for i in 0..n
        invariant
            n == txs@.len(),
            out@ == seq!['['] + tx_items(tx_views(txs@.take(i as int))),
    {
        let ghost before = out@;
        let ghost pre = tx_views(txs@.take(i as int));
        let ghost cur = tx_views(txs@.take(i + 1));
        assert(cur.drop_last() =~= pre);
        assert(cur.last() == txs@[i as int]@);
        if i > 0 {
            push_char(&mut out, ',');
        }
        append_tx_json(&mut out, &txs[i]);
        assert(out@ =~= seq!['['] + tx_items(cur));
    }
    assert(txs@.take(n as int) =~= txs@);
    push_char(&mut out, ']');
    assert(out@ =~= txs_json(tx_views(txs@)));
    out
}

/// The hash of a header given as text.
fn hash_header(input: &String) -> (r: String)
    ensures
        r@ == hex_text(sha256_of(encode_utf8(input@))),
        r@.len() == 64,
{
    let digest = sha256_digest(input.as_str().as_bytes());
    hex_encode(digest.as_slice())
}

/// Looks for the least nonce above `start` whose block hash meets the
/// difficulty, and returns it with that hash; `None` where no nonce above
/// `start` up to `u32::MAX` does.
fn find_nonce(
    timestamp: i64,
    prev_hash: &String,
    txs: &Vec<Transaction>,
    difficulty: u32,
    start: u32,
) -> (r: Option<(u32, String)>)
    ensures
        match r {
            Some((n, h)) => {
                &&& start < n
                &&& h@.len() == 64
                &&& h@ == block_hash(timestamp, n, prev_hash@, tx_views(txs@), difficulty)
                &&& nonce_works(timestamp, n, prev_hash@, tx_views(txs@), difficulty)
                &&& forall|m: u32|
                    start < m < n ==> !#[trigger] nonce_works(
                        timestamp,
                        m,
                        prev_hash@,
                        tx_views(txs@),
                        difficulty,
                    )
            },
            None => forall|m: u32|
                start < m ==> !#[trigger] nonce_works(
                    timestamp,
                    m,
                    prev_hash@,
                    tx_views(txs@),
                    difficulty,
                ),
        },
{
    let ghost tv = tx_views(txs@);
    let mut prefix = String::new();
    push_char(&mut prefix, '[');
    let ts_text = json_of_i64(timestamp);
    prefix.append(ts_text.as_str());
    push_char(&mut prefix, ',');
    let mut suffix = String::new();
    push_char(&mut suffix, ',');
    let prev_text = json_of_str(prev_hash.as_str());
    suffix.append(prev_text.as_str());
    push_char(&mut suffix, ',');
    let txs_text = transactions_json(txs);
    suffix.append(txs_text.as_str());
    push_char(&mut suffix, ',');
    let d_text = json_of_u32(difficulty);
    suffix.append(d_text.as_str());
    push_char(&mut suffix, ']');
    let mut nonce: u32 = start;
    loop
        invariant
            start <= nonce,
            prefix@ == seq!['['] + decimal_text(timestamp as int) + seq![','],
            suffix@ == seq![','] + json_quoted(prev_hash@) + seq![','] + txs_json(tv) + seq![',']
                + decimal_text(difficulty as int) + seq![']'],
            tv == tx_views(txs@),
            forall|m: u32|
                start < m <= nonce ==> !#[trigger] nonce_works(
                    timestamp,
                    m,
                    prev_hash@,
                    tv,
                    difficulty,
                ),
        decreases u32::MAX - nonce,
    {
        if nonce == u32::MAX {
            return None;
        }
        nonce = nonce + 1;
        let mut input = prefix.clone();
        let n_text = json_of_u32(nonce);
        input.append(n_text.as_str());
        input.append(suffix.as_str());
        assert(input@ =~= header_json(timestamp, nonce, prev_hash@, tv, difficulty));
        let hash = hash_header(&input);
        if starts_with_zeros(hash.as_str(), difficulty) {
            return Some((nonce, hash));
        }
    }
}

impl Block {
    /// When the block was mined, in seconds since the Unix epoch.
    pub fn timestamp(&self) -> (r: i64)
        ensures
            r == self@.timestamp,
    {
        self.timestamp
    }

    /// The nonce that makes the block's hash meet its difficulty.
    pub fn nonce(&self) -> (r: u32)
        ensures
            r == self@.nonce,
    {
        self.nonce
    }

    /// The hash of the block before this one.
    pub fn prev_hash(&self) -> (r: &String)
        ensures
            r@ == self@.prev_hash,
    {
        &self.prev_hash
    }

    /// The block's own hash.
    pub fn hash(&self) -> (r: &String)
        ensures
            r@ == self@.hash,
    {
        &self.hash
    }

    /// The transactions the block holds, the miner's reward first.
    pub fn transactions(&self) -> (r: &Vec<Transaction>)
        ensures
            tx_views(r@) == self@.transactions,
    {
        &self.transactions
    }

    /// The number of leading zeros its hash was mined to.
    pub fn difficulty(&self) -> (r: u32)
        ensures
            r == self@.difficulty,
    {
        self.difficulty
    }
}

// ---------------------------------------------------------------------------
// The chain
// ---------------------------------------------------------------------------

/// Why no block was added.
#[derive(Debug, Clone, Copy, PartialEq, Eq, Structural)]
pub enum MiningError {
    /// The system clock reads a time before the Unix epoch.
    ClockBeforeUnixEpoch,
    /// No nonce from 1 to `u32::MAX` gives a hash that meets the difficulty.
    NoNonceFound,
}

/// A chain of mined blocks with the transactions that wait for the next one.
pub struct Chain {
    blocks: Vec<Block>,
    pending_transactions: Vec<Transaction>,
    difficulty: u32,
    miner_addr: String,
    reward: String,
}

/// What a chain holds.
pub struct ChainView {
    pub blocks: Seq<BlockView>,
    pub pending: Seq<TransactionView>,
    pub difficulty: u32,
    pub miner_addr: Seq<char>,
    pub reward: Seq<char>,
}

pub open spec fn block_views(blocks: Seq<Block>) -> Seq<BlockView> {
    blocks.map_values(|b: Block| b@)
}

impl View for Chain {
    type V = ChainView;

    closed spec fn view(&self) -> ChainView {
        ChainView {
            blocks: block_views(self.blocks@),
            pending: tx_views(self.pending_transactions@),
            difficulty: self.difficulty,
            miner_addr: self.miner_addr@,
            reward: self.reward@,
        }
    }
}

/// The predecessor hash of the first block: 64 zeros.
pub open spec fn zero_hash() -> Seq<char> {
    Seq::new(64, |i: int| '0')
}

/// The hash that the next block links to.
pub open spec fn last_hash_of(blocks: Seq<BlockView>) -> Seq<char> {
    if blocks.len() == 0 {
        zero_hash()
    } else {
        blocks.last().hash
    }
}

/// The amount a new chain rewards the miner with, as JSON number text.
pub open spec fn default_reward() -> Seq<char> {
    "100.0"@
}

/// The transaction that pays the miner for a block.
pub open spec fn reward_tx(miner_addr: Seq<char>, reward: Seq<char>) -> TransactionView {
    TransactionView { sender: "Root"@, receiver: miner_addr, amount: reward }
}

/// Every block is sound and names the hash of the block before it (the
/// first names `zero_hash()`).
pub open spec fn links_hold(blocks: Seq<BlockView>) -> bool {
    forall|i: int|
        0 <= i < blocks.len() ==> {
            &&& block_is_sound(#[trigger] blocks[i])
            &&& blocks[i].prev_hash == last_hash_of(blocks.take(i))
        }
}

/// What making a chain now gives: a well-formed chain whose one block is
/// the genesis block, mined at the difficulty at some time, paying the miner
/// the default reward; or, where mining fails, the reason.
pub open spec fn new_chain_outcome(
    miner_addr: Seq<char>,
    difficulty: u32,
    r: Result<Chain, MiningError>,
) -> bool {
    match r {
        Ok(c) => {
            &&& c.wf()
            &&& c@.blocks.len() == 1
            &&& c@.pending.len() == 0
            &&& c@.difficulty == difficulty
            &&& c@.miner_addr == miner_addr
            &&& c@.reward == default_reward()
            &&& is_mined_block(
                c@.blocks[0],
                c@.blocks[0].timestamp,
                zero_hash(),
                seq![reward_tx(miner_addr, default_reward())],
                difficulty,
            )
        },
        Err(MiningError::NoNonceFound) => exists|ts: i64|
            !#[trigger] some_nonce_works(
                ts,
                zero_hash(),
                seq![reward_tx(miner_addr, default_reward())],
                difficulty,
            ),
        Err(MiningError::ClockBeforeUnixEpoch) => true,
    }
}

impl Chain {
    /// A well-formed chain: it begins with a genesis block and every block is
    /// sound and linked to the one before it.
    pub open spec fn wf(&self) -> bool {
        &&& self@.blocks.len() >= 1
        &&& links_hold(self@.blocks)
    }

    proof fn lemma_push_block(blocks: Seq<Block>, b: Block)
        requires
            links_hold(block_views(blocks)),
            block_is_sound(b@),
            b@.prev_hash == last_hash_of(block_views(blocks)),
        ensures
            block_views(blocks.push(b)) == block_views(blocks).push(b@),
            links_hold(block_views(blocks.push(b))),
    {
        let old_v = block_views(blocks);
        let new_v = block_views(blocks.push(b));
        assert(new_v =~= old_v.push(b@));
        assert forall|i: int| 0 <= i < new_v.len() implies {
            &&& block_is_sound(#[trigger] new_v[i])
            &&& new_v[i].prev_hash == last_hash_of(new_v.take(i))
        } by {
            if i < old_v.len() {
                assert(new_v.take(i) =~= old_v.take(i));
            } else {
                assert(new_v.take(i) =~= old_v);
            }
        }
    }

    /// The hash that the next block links to: the last block's hash, or 64
    /// zeros where there is no block yet.
    pub fn last_hash(&self) -> (r: String)
        ensures
            r@ == last_hash_of(self@.blocks),
    {
        let n = self.blocks.len();
        if n == 0 {
            let mut zeros = String::new();
            let mut i: usize = 0;
            while i < 64
                invariant
                    i <= 64,
                    zeros@ == Seq::new(i as nat, |j: int| '0'),
                decreases 64 - i,
            {
                push_char(&mut zeros, '0');
                i = i + 1;
                assert(zeros@ =~= Seq::new(i as nat, |j: int| '0'));
            }
            zeros
        } else {
            proof {
                assert(self@.blocks.last() == self.blocks@[n - 1]@);
            }
            self.blocks[n - 1].hash.clone()
        }
    }

    /// Mines the transactions into a block that links to the last one, at the
    /// given time; where no nonce works, hands the transactions back.
    fn create_block(&self, transactions: Vec<Transaction>, timestamp: i64) -> (r: Result<
        Block,
        Vec<Transaction>,
    >)
        ensures
            match r {
                Ok(b) => is_mined_block(
                    b@,
                    timestamp,
                    last_hash_of(self@.blocks),
                    tx_views(transactions@),
                    self@.difficulty,
                ),
                Err(t) => {
                    &&& t@ == transactions@
                    &&& !some_nonce_works(
                        timestamp,
                        last_hash_of(self@.blocks),
                        tx_views(transactions@),
                        self@.difficulty,
                    )
                },
            },
    {
        let prev_hash = self.last_hash();
        match find_nonce(timestamp, &prev_hash, &transactions, self.difficulty, 0) {
            Some((nonce, hash)) => Ok(
                Block {
                    timestamp,
                    nonce,
                    prev_hash,
                    hash,
                    transactions,
                    difficulty: self.difficulty,
                },
            ),
            None => Err(transactions),
        }
    }

    /// Mines the transactions into a block at the given time and appends it;
    /// where no nonce works the chain is unchanged and the transactions come
    /// back.
    fn append_mined_block(&mut self, transactions: Vec<Transaction>, timestamp: i64) -> (r: Result<
        (),
        Vec<Transaction>,
    >)
        requires
            links_hold(old(self)@.blocks),
        ensures
            links_hold(final(self)@.blocks),
            final(self)@.pending == old(self)@.pending,
            final(self)@.difficulty == old(self)@.difficulty,
            final(self)@.miner_addr == old(self)@.miner_addr,
            final(self)@.reward == old(self)@.reward,
            r is Ok <==> some_nonce_works(
                timestamp,
                last_hash_of(old(self)@.blocks),
                tx_views(transactions@),
                old(self)@.difficulty,
            ),
            match r {
                Ok(()) => {
                    &&& final(self)@.blocks.len() == old(self)@.blocks.len() + 1
                    &&& final(self)@.blocks.drop_last() == old(self)@.blocks
                    &&& is_mined_block(
                        final(self)@.blocks.last(),
                        timestamp,
                        last_hash_of(old(self)@.blocks),
                        tx_views(transactions@),
                        old(self)@.difficulty,
                    )
                },
                Err(t) => {
                    &&& final(self)@.blocks == old(self)@.blocks
                    &&& t@ == transactions@
                },
            },
    {
        match self.create_block(transactions, timestamp) {
            Ok(block) => {
                proof {
                    Self::lemma_push_block(self.blocks@, block);
                }
                self.blocks.push(block);
                proof {
                    assert(self@.blocks.drop_last() =~= old(self)@.blocks);
                }
                Ok(())
            },
            Err(t) => Err(t),
        }
    }

    /// A chain whose genesis block, mined at the given time, pays
    /// `miner_addr` the default reward of `100.0`.
    /// The difficulty is at most 64: no hash of 64 digits begins with more
    /// zeros, so mining for more would never end.
    pub fn new_at(miner_addr: String, difficulty: u32, timestamp: i64) -> (r: Result<
        Chain,
        MiningError,
    >)
        requires
            difficulty <= 64,
        ensures
            r is Ok <==> some_nonce_works(
                timestamp,
                zero_hash(),
                seq![reward_tx(miner_addr@, default_reward())],
                difficulty,
            ),
            r is Err ==> r == Err::<Chain, MiningError>(MiningError::NoNonceFound),
            r matches Ok(c) ==> {
                &&& c.wf()
                &&& c@.blocks.len() == 1
                &&& c@.pending.len() == 0
                &&& c@.difficulty == difficulty
                &&& c@.miner_addr == miner_addr@
                &&& c@.reward == default_reward()
                &&& is_mined_block(
                    c@.blocks[0],
                    timestamp,
                    zero_hash(),
                    seq![reward_tx(miner_addr@, default_reward())],
                    difficulty,
                )
            },
    {
        let mut chain = Chain {
            blocks: Vec::new(),
            pending_transactions: Vec::new(),
            difficulty,
            miner_addr,
            reward: String::from_str("100.0"),
        };
        let ghost start = chain@;
        proof {
            assert(seq![reward_tx(start.miner_addr, start.reward)] =~= seq![
                reward_tx(miner_addr@, default_reward()),
            ]);
        }
        if chain.mine_genesis(timestamp) {
            Ok(chain)
        } else {
            Err(MiningError::NoNonceFound)
        }
    }

    /// A chain whose genesis block, mined now, pays `miner_addr` the default
    /// reward of `100.0`.
    /// The difficulty is at most 64: no hash of 64 digits begins with more
    /// zeros, so mining for more would never end.
    pub fn new(miner_addr: String, difficulty: u32) -> (r: Result<Chain, MiningError>)
        requires
            difficulty <= 64,
        ensures
            new_chain_outcome(miner_addr@, difficulty, r),
    {
        match current_timestamp() {
            Some(timestamp) => Chain::new_at(miner_addr, difficulty, timestamp),
            None => Err(MiningError::ClockBeforeUnixEpoch),
        }
    }

    /// Mines the genesis block, which holds only the miner's reward; returns
    /// whether a nonce worked.
    fn mine_genesis(&mut self, timestamp: i64) -> (r: bool)
        requires
            old(self)@.blocks.len() == 0,
        ensures
            final(self)@.pending == old(self)@.pending,
            final(self)@.difficulty == old(self)@.difficulty,
            final(self)@.miner_addr == old(self)@.miner_addr,
            final(self)@.reward == old(self)@.reward,
            r <==> some_nonce_works(
                timestamp,
                zero_hash(),
                seq![reward_tx(old(self)@.miner_addr, old(self)@.reward)],
                old(self)@.difficulty,
            ),
            r ==> {
                &&& final(self).wf()
                &&& final(self)@.blocks.len() == 1
                &&& is_mined_block(
                    final(self)@.blocks[0],
                    timestamp,
                    zero_hash(),
                    seq![reward_tx(old(self)@.miner_addr, old(self)@.reward)],
                    old(self)@.difficulty,
                )
            },
    {
        let genesis = Transaction {
            sender: String::from_str("Root"),
            receiver: self.miner_addr.clone(),
            amount: self.reward.clone(),
        };
        let mut transactions: Vec<Transaction> = Vec::new();
        transactions.push(genesis);
        proof {
            assert(links_hold(self@.blocks));
            assert(tx_views(transactions@) =~= seq![reward_tx(self@.miner_addr, self@.reward)]);
        }
        match self.append_mined_block(transactions, timestamp) {
            Ok(()) => {
                proof {
                    assert(self@.blocks[0] == self@.blocks.last());
                }
                true
            },
            Err(_) => false,
        }
    }

    /// Adds a transaction to those that wait for the next block; always
    /// succeeds.
    pub fn new_transaction(&mut self, sender: String, receiver: String, amount: String) -> (r: bool)
        ensures
            r,
            final(self)@.pending == old(self)@.pending.push(
                TransactionView { sender: sender@, receiver: receiver@, amount: amount@ },
            ),
            final(self)@.blocks == old(self)@.blocks,
            final(self)@.difficulty == old(self)@.difficulty,
            final(self)@.miner_addr == old(self)@.miner_addr,
            final(self)@.reward == old(self)@.reward,
    {
        self.pending_transactions.push(Transaction { sender, receiver, amount });
        proof {
            assert(self@.pending =~= old(self)@.pending.push(
                TransactionView { sender: sender@, receiver: receiver@, amount: amount@ },
            ));
        }
        true
    }

    /// The transactions the next block holds: the miner's reward, then every
    /// waiting transaction.
    pub open spec fn next_block_txs(&self) -> Seq<TransactionView> {
        seq![reward_tx(self@.miner_addr, self@.reward)] + self@.pending
    }

    /// Mines, at the given time, a block that holds the miner's reward
    /// followed by every waiting transaction, and appends it. It succeeds
    /// exactly where some nonce works; then no transaction waits any more.
    /// On failure the chain is unchanged.
    /// The difficulty is at most 64: no hash of 64 digits begins with more
    /// zeros, so mining for more would never end.
    pub fn mine_at(&mut self, timestamp: i64) -> (r: Result<(), MiningError>)
        requires
            old(self)@.difficulty <= 64,
            old(self).wf(),
        ensures
            final(self).wf(),
            final(self)@.difficulty == old(self)@.difficulty,
            final(self)@.miner_addr == old(self)@.miner_addr,
            final(self)@.reward == old(self)@.reward,
            r is Ok <==> some_nonce_works(
                timestamp,
                last_hash_of(old(self)@.blocks),
                old(self).next_block_txs(),
                old(self)@.difficulty,
            ),
            r is Err ==> r == Err::<(), MiningError>(MiningError::NoNonceFound) && final(self)@
                == old(self)@,
            r is Ok ==> {
                &&& final(self)@.pending.len() == 0
                &&& final(self)@.blocks.len() == old(self)@.blocks.len() + 1
                &&& final(self)@.blocks.drop_last() == old(self)@.blocks
                &&& is_mined_block(
                    final(self)@.blocks.last(),
                    timestamp,
                    last_hash_of(old(self)@.blocks),
                    old(self).next_block_txs(),
                    old(self)@.difficulty,
                )
                &&& final(self)@.blocks.last().transactions.len() == old(self)@.pending.len() + 1
                &&& final(self)@.blocks.last().transactions[0] == reward_tx(
                    old(self)@.miner_addr,
                    old(self)@.reward,
                )
                &&& final(self)@.blocks.last().transactions.drop_first() == old(self)@.pending
            },
    {
        let reward_transaction = Transaction {
            sender: String::from_str("Root"),
            receiver: self.miner_addr.clone(),
            amount: self.reward.clone(),
        };
        let ghost old_pending = self.pending_transactions@;
        let mut transactions: Vec<Transaction> = Vec::new();
        transactions.push(reward_transaction);
        transactions.append(&mut self.pending_transactions);
        proof {
            assert(tx_views(transactions@) =~= old(self).next_block_txs());
        }
        match self.append_mined_block(transactions, timestamp) {
            Ok(()) => Ok(()),
            Err(mut back) => {
                back.remove(0);
                self.pending_transactions = back;
                proof {
                    assert(self.pending_transactions@ =~= old_pending);
                    assert(self@.pending =~= old(self)@.pending);
                }
                Err(MiningError::NoNonceFound)
            },
        }
    }

    /// Mines, now, a block that holds the miner's reward followed by every
    /// waiting transaction, and appends it. On success no transaction waits
    /// any more; on failure the chain is unchanged.
    /// The difficulty is at most 64: no hash of 64 digits begins with more
    /// zeros, so mining for more would never end.
    pub fn mine(&mut self) -> (r: Result<(), MiningError>)
        requires
            old(self)@.difficulty <= 64,
            old(self).wf(),
        ensures
            final(self).wf(),
            final(self)@.difficulty == old(self)@.difficulty,
            final(self)@.miner_addr == old(self)@.miner_addr,
            final(self)@.reward == old(self)@.reward,
            match r {
                Ok(()) => {
                    &&& final(self)@.pending.len() == 0
                    &&& final(self)@.blocks.len() == old(self)@.blocks.len() + 1
                    &&& final(self)@.blocks.drop_last() == old(self)@.blocks
                    &&& is_mined_block(
                        final(self)@.blocks.last(),
                        final(self)@.blocks.last().timestamp,
                        last_hash_of(old(self)@.blocks),
                        old(self).next_block_txs(),
                        old(self)@.difficulty,
                    )
                    &&& final(self)@.blocks.last().transactions.len() == old(self)@.pending.len()
                        + 1
                    &&& final(self)@.blocks.last().transactions[0] == reward_tx(
                        old(self)@.miner_addr,
                        old(self)@.reward,
                    )
                    &&& final(self)@.blocks.last().transactions.drop_first() == old(self)@.pending
                },
                Err(MiningError::NoNonceFound) => {
                    &&& final(self)@ == old(self)@
                    &&& exists|ts: i64|
                        !#[trigger] some_nonce_works(
                            ts,
                            last_hash_of(old(self)@.blocks),
                            old(self).next_block_txs(),
                            old(self)@.difficulty,
                        )
                },
                Err(MiningError::ClockBeforeUnixEpoch) => final(self)@ == old(self)@,
            },
    {
        match current_timestamp() {
            Some(timestamp) => self.mine_at(timestamp),
            None => Err(MiningError::ClockBeforeUnixEpoch),
        }
    }

    /// The hash of a block's contents, as mining computes it: the SHA-256
    /// digest of its JSON header in lowercase hexadecimal.
    pub fn hash_block(block: &Block) -> (r: String)
        ensures
            r@ == block_hash(
                block@.timestamp,
                block@.nonce,
                block@.prev_hash,
                block@.transactions,
                block@.difficulty,
            ),
            r@.len() == 64,
    {
        let mut input = String::new();
        push_char(&mut input, '[');
        let t = json_of_i64(block.timestamp);
        input.append(t.as_str());
        push_char(&mut input, ',');
        let t = json_of_u32(block.nonce);
        input.append(t.as_str());
        push_char(&mut input, ',');
        let t = json_of_str(block.prev_hash.as_str());
        input.append(t.as_str());
        push_char(&mut input, ',');
        let t = transactions_json(&block.transactions);
        input.append(t.as_str());
        push_char(&mut input, ',');
        let t = json_of_u32(block.difficulty);
        input.append(t.as_str());
        push_char(&mut input, ']');
        assert(input@ =~= header_json(
            block@.timestamp,
            block@.nonce,
            block@.prev_hash,
            block@.transactions,
            block@.difficulty,
        ));
        hash_header(&input)
    }

    /// The blocks, genesis first.
    pub fn blocks(&self) -> (r: &Vec<Block>)
        ensures
            block_views(r@) == self@.blocks,
    {
        &self.blocks
    }

    /// The transactions that wait for the next block.
    pub fn pending_transactions(&self) -> (r: &Vec<Transaction>)
        ensures
            tx_views(r@) == self@.pending,
    {
        &self.pending_transactions
    }

    /// The difficulty of the next block.
    pub fn difficulty(&self) -> (r: u32)
        ensures
            r == self@.difficulty,
    {
        self.difficulty
    }

    /// The reward of the next block, as JSON number text.
    pub fn reward(&self) -> (r: &String)
        ensures
            r@ == self@.reward,
    {
        &self.reward
    }

    /// Sets the difficulty of the blocks mined from now on.
    pub fn set_difficulty(&mut self, difficulty: u32)
        ensures
            final(self)@.difficulty == difficulty,
            final(self)@.blocks == old(self)@.blocks,
            final(self)@.pending == old(self)@.pending,
            final(self)@.miner_addr == old(self)@.miner_addr,
            final(self)@.reward == old(self)@.reward,
    {
        self.difficulty = difficulty;
    }

    /// Sets the reward of the blocks mined from now on, as JSON number text.
    pub fn set_reward(&mut self, reward: String)
        ensures
            final(self)@.reward == reward@,
            final(self)@.blocks == old(self)@.blocks,
            final(self)@.pending == old(self)@.pending,
            final(self)@.miner_addr == old(self)@.miner_addr,
            final(self)@.difficulty == old(self)@.difficulty,
    {
        self.reward = reward;
    }
}

/// A new chain, as `Chain::new`.
/// The difficulty is at most 64: no hash of 64 digits begins with more
/// zeros, so mining for more would never end.
pub fn new_chain(miner_addr: String, difficulty: u32) -> (r: Result<Chain, MiningError>)
    requires
        difficulty <= 64,
    ensures
        new_chain_outcome(miner_addr@, difficulty, r),
{
    Chain::new(miner_addr, difficulty)
}

// ---------------------------------------------------------------------------
// Laws
// ---------------------------------------------------------------------------

/// In a chain whose links hold, the first block names 64 zeros as its
/// predecessor and every later block names the hash of the block just
/// before it; every hash is 64 hexadecimal digits that begin with as many
/// zeros as the block's difficulty, and is the hash of the block's own
/// contents.
pub proof fn lemma_blocks_linked(blocks: Seq<BlockView>)
    requires
        links_hold(blocks),
    ensures
        blocks.len() > 0 ==> blocks[0].prev_hash == zero_hash(),
        forall|i: int| 0 < i < blocks.len() ==> #[trigger] blocks[i].prev_hash == blocks[i - 1].hash,
        forall|i: int|
            0 <= i < blocks.len() ==> {
                &&& (#[trigger] blocks[i]).hash.len() == 64
                &&& has_leading_zeros(blocks[i].hash, blocks[i].difficulty as int)
                &&& blocks[i].hash == block_hash(
                    blocks[i].timestamp,
                    blocks[i].nonce,
                    blocks[i].prev_hash,
                    blocks[i].transactions,
                    blocks[i].difficulty,
                )
            },
{
    if blocks.len() > 0 {
        assert(blocks.take(0).len() == 0);
        assert(block_is_sound(blocks[0]));
    }
    assert forall|i: int| 0 < i < blocks.len() implies #[trigger] blocks[i].prev_hash == blocks[i
        - 1].hash by {
        assert(block_is_sound(blocks[i]));
        assert(blocks.take(i).last() == blocks[i - 1]);
    }
    assert forall|i: int| 0 <= i < blocks.len() implies {
        &&& (#[trigger] blocks[i]).hash.len() == 64
        &&& has_leading_zeros(blocks[i].hash, blocks[i].difficulty as int)
        &&& blocks[i].hash == block_hash(
            blocks[i].timestamp,
            blocks[i].nonce,
            blocks[i].prev_hash,
            blocks[i].transactions,
            blocks[i].difficulty,
        )
    } by {
        assert(block_is_sound(blocks[i]));
    }
}

/// A block mined after the difficulty was set to `d` and the reward to `r`
/// has difficulty `d`, a hash that begins with `d` zeros, and pays the miner
/// `r` first.
pub proof fn lemma_next_block_takes_settings(
    b: BlockView,
    timestamp: i64,
    prev_hash: Seq<char>,
    miner_addr: Seq<char>,
    pending: Seq<TransactionView>,
    d: u32,
    r: Seq<char>,
)
    requires
        is_mined_block(b, timestamp, prev_hash, seq![reward_tx(miner_addr, r)] + pending, d),
    ensures
        b.difficulty == d,
        has_leading_zeros(b.hash, d as int),
        b.transactions.len() == pending.len() + 1,
        b.transactions[0] == reward_tx(miner_addr, r),
        b.transactions.drop_first() == pending,
{
    assert((seq![reward_tx(miner_addr, r)] + pending).drop_first() =~= pending);
}

/// Making a chain with `new_chain` is making it with `Chain::new`: both
/// give a `new_chain_outcome`, which fixes every field but the genesis
/// block's time and nonce; at the same time the block is the same too.
pub proof fn lemma_new_chain_is_new(
    miner_addr: Seq<char>,
    difficulty: u32,
    c1: Chain,
    c2: Chain,
)
    requires
        new_chain_outcome(miner_addr, difficulty, Ok(c1)),
        new_chain_outcome(miner_addr, difficulty, Ok(c2)),
        c1@.blocks[0].timestamp == c2@.blocks[0].timestamp,
    ensures
        c1@.blocks == c2@.blocks,
        c1@.pending == c2@.pending,
        c1@.difficulty == c2@.difficulty,
        c1@.miner_addr == c2@.miner_addr,
        c1@.reward == c2@.reward,
{
    let b1 = c1@.blocks[0];
    let b2 = c2@.blocks[0];
    let ts = b1.timestamp;
    let txs = seq![reward_tx(miner_addr, default_reward())];
    if b1.nonce < b2.nonce {
        assert(!nonce_works(ts, b1.nonce, zero_hash(), txs, difficulty));
    }
    if b2.nonce < b1.nonce {
        assert(!nonce_works(ts, b2.nonce, zero_hash(), txs, difficulty));
    }
    assert(c1@.blocks =~= c2@.blocks);
    assert(c1@.pending =~= c2@.pending);
}

/// The next block of a chain holds one transaction more than wait: the
/// miner's reward first, then every waiting transaction in order.
pub proof fn lemma_next_block_takes_all_pending(c: Chain)
    ensures
        c.next_block_txs().len() == c@.pending.len() + 1,
        c.next_block_txs()[0] == reward_tx(c@.miner_addr, c@.reward),
        forall|i: int| 0 <= i < c@.pending.len() ==> c.next_block_txs()[i + 1] == c@.pending[i],
{
}

/// The transactions of a header form a JSON array: no transactions give
/// `[]`, one gives `[` its object `]`, and one more is joined on with a
/// single comma before the closing bracket, whatever the count.
pub proof fn lemma_txs_json_is_array(a: Seq<TransactionView>, t: TransactionView)
    ensures
        txs_json(Seq::empty()) == seq!['[', ']'],
        txs_json(seq![t]) == seq!['['] + tx_json(t) + seq![']'],
        a.len() >= 1 ==> txs_json(a.push(t)) == txs_json(a).drop_last() + seq![','] + tx_json(t)
            + seq![']'],
        txs_json(a.push(t)).len() == txs_json(a).len() + tx_json(t).len() + if a.len() >= 1 {
            1int
        } else {
            0int
        },
{
    assert(txs_json(Seq::empty()) =~= seq!['[', ']']);
    assert(txs_json(seq![t]) =~= seq!['['] + tx_json(t) + seq![']']);
    if a.len() >= 1 {
        assert(a.push(t).drop_last() =~= a);
        assert(txs_json(a).drop_last() =~= seq!['['] + tx_items(a));
        assert(txs_json(a.push(t)) =~= txs_json(a).drop_last() + seq![','] + tx_json(t) + seq![
            ']',
        ]);
    } else {
        assert(a.push(t) =~= seq![t]);
        assert(a =~= Seq::<TransactionView>::empty());
    }
}

/// At difficulty zero every hash qualifies, so mining always succeeds, and
/// with the first nonce.
pub proof fn lemma_difficulty_zero_takes_first_nonce(
    timestamp: i64,
    prev_hash: Seq<char>,
    txs: Seq<TransactionView>,
)
    ensures
        some_nonce_works(timestamp, prev_hash, txs, 0),
        forall|b: BlockView|
            is_mined_block(b, timestamp, prev_hash, txs, 0) ==> b.nonce == 1,
{
    assert(nonce_works(timestamp, 1, prev_hash, txs, 0));
    assert forall|b: BlockView| is_mined_block(b, timestamp, prev_hash, txs, 0) implies b.nonce
        == 1 by {
        if b.nonce > 1 {
            assert(nonce_works(timestamp, 1, prev_hash, txs, 0));
        }
    }
}

} // verus!
