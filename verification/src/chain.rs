//! The ledger: an append-only chain of sealed blocks plus a pending pool.
//!
//! The chain is seeded with a genesis block and is never empty afterwards.
//! Every later block links to its predecessor's content hash and is sealed by
//! the proof-of-work search at the ledger's difficulty. Submitted records wait
//! in the pool until a mining round drains them, in order, into the next
//! block.

use crate::balance::chain_txs;
use crate::balance::lemma_balance_bounded;
use crate::balance::lemma_balance_concat;
use crate::balance::lemma_balance_step;
use crate::balance::lemma_chain_txs_step;
use crate::balance::lemma_chain_value_take_le;
use crate::balance::lemma_value_concat;
use crate::balance::lemma_value_nonneg;
use crate::balance::lemma_value_step;
use crate::balance::lemma_value_take_le;
use crate::balance::spec_balance;
use crate::balance::spec_total_value;
use crate::balance::spec_tx_value;
use crate::block::hex_encode;
use crate::block::spec_hex;
use crate::block::Block;
use crate::transaction::spec_tx_decode;
use crate::transaction::spec_tx_encode;
use crate::transaction::Serialization;
use crate::transaction::Transaction;
use crate::transaction::TxView;
use crate::util::bytes_eq;
use vstd::pervasive::unreached;
use vstd::prelude::*;
use vstd::string::StrSliceExecFns;
use vstd::utf8::encode_utf8;

verus! {

/// Number of leading '0' hex characters a sealed block's content hash must
/// show. The expected cost of one sealing search grows by a factor of sixteen
/// with each unit.
pub const DIFFICULTY: usize = 5;

/// Amount credited to the miner each time a block is sealed.
pub const MINING_REWARD: u64 = 1;

/// The well-known sender identifier carried by every mining reward record.
pub open spec fn mining_sender() -> Seq<char> {
    "THE BLOCKCHAIN"@
}

/// The reward record generated by a mining round: the well-known sender pays
/// `MINING_REWARD` to the miner's address.
pub open spec fn spec_reward_tx(address: Seq<char>) -> TxView {
    TxView {
        sender: encode_utf8(mining_sender()),
        recipient: encode_utf8(address),
        value: MINING_REWARD,
    }
}

/// A predicate selecting a block of the chain.
pub enum BlockSearch {
    SearchByIndex(usize),
    SearchByPreviousHash(Vec<u8>),
    SearchByBlockHash(Vec<u8>),
    SearchByNonce(i32),
    SearchByTimestamp(u128),
    SearchByTransaction(Vec<u8>),
}

/// The outcome of a search: a reference to the first matching block, or the
/// predicate's own not-found value carrying the searched-for tag. An empty
/// chain is reported before any predicate is compared.
pub enum BlockSearchResult<'a> {
    Success(&'a Block),
    FailOfEmptyBlocks,
    FailOfIndex(usize),
    FailOfPreviousHash(Vec<u8>),
    FailOfBlockHash(Vec<u8>),
    FailOfNonce(i32),
    FailOfTimeStamp(u128),
    FailOfTransaction(Vec<u8>),
}

/// True when the block at position `idx` satisfies the predicate.
pub open spec fn spec_matches(b: Block, idx: int, s: BlockSearch) -> bool {
    match s {
        BlockSearch::SearchByIndex(i) => idx == i,
        BlockSearch::SearchByPreviousHash(h) => b.previous_hash@ == h@,
        BlockSearch::SearchByBlockHash(h) => b.spec_hash() == h@,
        BlockSearch::SearchByNonce(n) => b.nonce == n,
        BlockSearch::SearchByTimestamp(t) => b.time_stamp == t,
        BlockSearch::SearchByTransaction(tx) => b.txs().contains(tx@),
    }
}

/// Position of the first match at or after `i`, if any.
pub open spec fn spec_search_from(chain: Seq<Block>, s: BlockSearch, i: int) -> Option<int>
    decreases chain.len() - i,
{
    if i < 0 || i >= chain.len() {
        None
    } else if spec_matches(chain[i], i, s) {
        Some(i)
    } else {
        spec_search_from(chain, s, i + 1)
    }
}

/// Position of the first block matching the predicate, if any.
pub open spec fn spec_search(chain: Seq<Block>, s: BlockSearch) -> Option<int> {
    spec_search_from(chain, s, 0)
}

/// The ledger. It exclusively owns the chain and the pool; blocks are frozen
/// once appended, and only the pool and the chain tail ever change.
#[derive(Debug)]
pub struct BlockChain {
    transaction_pool: Vec<Vec<u8>>,
    chain: Vec<Block>,
    blockchain_address: String,
    difficulty: usize,
}

impl BlockChain {
    /// The pending pool: encoded records awaiting the next block, in
    /// submission order.
    pub closed spec fn spec_pool(&self) -> Seq<Seq<u8>> {
        Seq::new(self.transaction_pool@.len(), |i: int| self.transaction_pool@[i]@)
    }

    /// The chain of blocks, genesis first.
    pub closed spec fn spec_chain(&self) -> Seq<Block> {
        self.chain@
    }

    /// The miner address credited by each mining round.
    pub closed spec fn spec_address(&self) -> Seq<char> {
        self.blockchain_address@
    }

    /// The difficulty target every non-genesis block is sealed at.
    pub closed spec fn spec_difficulty(&self) -> int {
        self.difficulty as int
    }

    /// Every non-genesis block stores its predecessor's content hash.
    pub open spec fn chain_linked(chain: Seq<Block>) -> bool {
        forall|i: int|
            1 <= i < chain.len() ==> #[trigger] chain[i].previous_hash@ == chain[
                i - 1
            ].spec_hash()
    }

    /// Every non-genesis block meets the difficulty target. The genesis block
    /// is appended directly and is not proof-of-work sealed.
    pub open spec fn chain_sealed(chain: Seq<Block>, difficulty: int) -> bool {
        forall|i: int| 1 <= i < chain.len() ==> #[trigger] chain[i].sealed(difficulty)
    }

    /// Every byte string of the list decodes to a transaction record.
    pub open spec fn txs_decodable(txs: Seq<Seq<u8>>) -> bool {
        forall|j: int| 0 <= j < txs.len() ==> #[trigger] spec_tx_decode(txs[j]) is Some
    }

    /// Every transaction stored in any block decodes.
    pub open spec fn chain_decodable(chain: Seq<Block>) -> bool {
        forall|i: int| 0 <= i < chain.len() ==> #[trigger] Self::txs_decodable(chain[i].txs())
    }

    /// The ledger's invariant: a never-empty chain whose blocks link to their
    /// predecessors' hashes and meet the difficulty target, and whose stored
    /// records (chain and pool alike) all decode.
    pub open spec fn wf(&self) -> bool {
        &&& self.spec_chain().len() >= 1
        &&& Self::chain_linked(self.spec_chain())
        &&& Self::chain_sealed(self.spec_chain(), self.spec_difficulty())
        &&& Self::chain_decodable(self.spec_chain())
        &&& Self::txs_decodable(self.spec_pool())
        &&& self.spec_difficulty() <= 64
    }

    /// Constructs a ledger mining at the standard difficulty: a genesis block
    /// is appended directly, then one mining round seals the first reward
    /// block on top of it.
    pub fn new(address: String) -> (r: BlockChain)
        requires
            encode_utf8(address@).len() <= u32::MAX,
        ensures
            r.wf(),
            r.spec_difficulty() == DIFFICULTY as int,
            r.spec_address() == address@,
            1 <= r.spec_chain().len() <= 2,
            r.spec_chain()[0].nonce == 0,
            r.spec_chain()[0].previous_hash@ == Seq::new(32, |i: int| 0u8),
            r.spec_chain()[0].txs() == Seq::<Seq<u8>>::empty(),
            r.spec_chain().len() == 2 ==> r.spec_pool() == Seq::<Seq<u8>>::empty(),
            r.spec_chain().len() == 2 ==> r.spec_chain()[1].txs() == seq![
                spec_tx_encode(spec_reward_tx(address@)),
            ],
    {
        Self::with_difficulty(address, DIFFICULTY)
    }

    /// Same construction with a caller-chosen difficulty target. The standard
    /// constructor uses `DIFFICULTY`; a smaller target keeps each sealing
    /// search cheap where the full expected cost is unwanted.
    pub fn with_difficulty(address: String, difficulty: usize) -> (r: BlockChain)
        requires
            difficulty <= 64,
            encode_utf8(address@).len() <= u32::MAX,
        ensures
            r.wf(),
            r.spec_difficulty() == difficulty as int,
            r.spec_address() == address@,
            1 <= r.spec_chain().len() <= 2,
            r.spec_chain()[0].nonce == 0,
            r.spec_chain()[0].previous_hash@ == Seq::new(32, |i: int| 0u8),
            r.spec_chain()[0].txs() == Seq::<Seq<u8>>::empty(),
            r.spec_chain().len() == 2 ==> r.spec_pool() == Seq::<Seq<u8>>::empty(),
            r.spec_chain().len() == 2 ==> r.spec_chain()[1].txs() == seq![
                spec_tx_encode(spec_reward_tx(address@)),
            ],
    {
        let mut bc = BlockChain {
            transaction_pool: Vec::new(),
            chain: Vec::new(),
            blockchain_address: address,
            difficulty,
        };
        let mut zeroes: Vec<u8> = Vec::new();
        let mut i: usize = 0;
        while i < 32
            invariant
                i <= 32,
                zeroes@ =~= Seq::new(i as nat, |k: int| 0u8),
            decreases 32 - i,
        {
            zeroes.push(0u8);
            i = i + 1;
        }
        let b = Block::new(0, zeroes);
        bc.chain.push(b);
        let ok = bc.mining();
        proof {
            if ok {
                assert(bc.spec_chain()[1].txs() =~~= seq![
                    spec_tx_encode(spec_reward_tx(bc.spec_address())),
                ]);
            }
        }
        bc
    }

    /// The chain's tail. The chain is never empty, so the tail always exists.
    pub fn last_block(&self) -> (r: &Block)
        requires
            self.spec_chain().len() >= 1,
        ensures
            *r == self.spec_chain().last(),
    {
        if self.chain.len() > 1 {
            return &self.chain[self.chain.len() - 1];
        }
        &self.chain[0]
    }

    /// Number of blocks in the chain.
    pub fn chain_len(&self) -> (r: usize)
        ensures
            r == self.spec_chain().len(),
    {
        self.chain.len()
    }

    /// The block at a chain position, used as a plain array accessor; a
    /// position beyond the tail is a caller error, not a search miss.
    pub fn block_at(&self, idx: usize) -> (r: &Block)
        requires
            idx < self.spec_chain().len(),
        ensures
            *r == self.spec_chain()[idx as int],
    {
        &self.chain[idx]
    }

    /// Encodes the record and appends it to the pending pool. A byte-identical
    /// entry already in the pool does not block the append: duplicate
    /// submissions are admitted deliberately, so the pool keeps every
    /// submission in order.
    pub fn add_transaction<S: Serialization<Transaction>>(&mut self, tx: &S)
        requires
            old(self).wf(),
            tx.serializable(),
            spec_tx_decode(tx.spec_serialization()) is Some,
        ensures
            final(self).wf(),
            final(self).spec_pool() == old(self).spec_pool().push(tx.spec_serialization()),
            final(self).spec_chain() == old(self).spec_chain(),
            final(self).spec_address() == old(self).spec_address(),
            final(self).spec_difficulty() == old(self).spec_difficulty(),
    {
        let bytes = tx.serialization();
        let ghost bv = bytes@;
        self.transaction_pool.push(bytes);
        proof {
            assert(self.spec_pool() =~~= old(self).spec_pool().push(bv));
        }
    }

    /// Assembles a block from the whole pool (in pool order), clears the pool,
    /// seals the block by proof-of-work, and appends it. The caller supplies
    /// the linkage hash, which the invariant obliges to be the tail's content
    /// hash; the seed nonce is overwritten by the sealing search. Returns
    /// whether a sealing nonce was found; when none exists for the assembled
    /// block — possible in principle only — the ledger is left exactly as it
    /// was.
    pub fn create_block(&mut self, nonce: i32, previous_hash: Vec<u8>) -> (r: bool)
        requires
            old(self).wf(),
            previous_hash@ == old(self).spec_chain().last().spec_hash(),
        ensures
            final(self).wf(),
            final(self).spec_address() == old(self).spec_address(),
            final(self).spec_difficulty() == old(self).spec_difficulty(),
            r ==> final(self).spec_pool() == Seq::<Seq<u8>>::empty(),
            r ==> final(self).spec_chain().len() == old(self).spec_chain().len() + 1,
            r ==> final(self).spec_chain().subrange(0, old(self).spec_chain().len() as int)
                == old(self).spec_chain(),
            r ==> final(self).spec_chain().last().txs() == old(self).spec_pool(),
            r ==> final(self).spec_chain().last().previous_hash@ == previous_hash@,
            r ==> final(self).spec_chain().last().sealed(old(self).spec_difficulty()),
            !r ==> final(self).spec_pool() == old(self).spec_pool(),
            !r ==> final(self).spec_chain() == old(self).spec_chain(),
            !r ==> (exists|b: Block|
                #![auto]
                b.txs() == old(self).spec_pool() && b.previous_hash@ == previous_hash@
                    && b.unsealable(old(self).spec_difficulty())),
    {
        let mut b = Block::new(nonce, previous_hash);
        b.transactions.append(&mut self.transaction_pool);
        proof {
            assert(b.transactions@ =~= old(self).transaction_pool@);
            assert(b.txs() =~~= old(self).spec_pool());
            assert(self.spec_pool() =~~= Seq::<Seq<u8>>::empty());
        }
        let sealed = do_proof_of_work(&mut b, self.difficulty);
        if sealed.is_none() {
            proof {
                assert(b.txs() =~= old(self).spec_pool());
                assert(b.previous_hash@ == previous_hash@);
                assert(b.unsealable(old(self).spec_difficulty()));
            }
            let Block { transactions, .. } = b;
            self.transaction_pool = transactions;
            proof {
                assert(self.spec_pool() =~~= old(self).spec_pool());
            }
            return false;
        }
        self.chain.push(b);
        proof {
            let chain = self.spec_chain();
            let n = old(self).spec_chain().len() as int;
            assert(chain.subrange(0, n) =~= old(self).spec_chain());
            assert(chain.last() == b);
            assert forall|i: int| 1 <= i < chain.len() implies #[trigger] chain[i].previous_hash@
                == chain[i - 1].spec_hash() by {
                if i < n {
                    assert(chain[i] == old(self).spec_chain()[i]);
                    assert(chain[i - 1] == old(self).spec_chain()[i - 1]);
                } else {
                    assert(chain[i] == b);
                    assert(chain[i - 1] == old(self).spec_chain()[n - 1]);
                    assert(old(self).spec_chain().last() == old(self).spec_chain()[n - 1]);
                }
            }
            assert forall|i: int| 1 <= i < chain.len() implies #[trigger] chain[i].sealed(
                self.spec_difficulty(),
            ) by {
                if i < n {
                    assert(chain[i] == old(self).spec_chain()[i]);
                }
            }
            assert forall|i: int| 0 <= i < chain.len() implies #[trigger] Self::txs_decodable(
                chain[i].txs(),
            ) by {
                if i < n {
                    assert(chain[i] == old(self).spec_chain()[i]);
                }
            }
        }
        true
    }

    /// Scans the chain in order and returns the first block the predicate
    /// matches, or the predicate's own not-found value carrying the searched
    /// tag; an empty chain is reported before any predicate is compared. The
    /// ledger itself is never changed by a search.
    pub fn search_block<'a>(&'a self, search: BlockSearch) -> (r: BlockSearchResult<'a>)
        ensures
            self.spec_chain().len() == 0 ==> r is FailOfEmptyBlocks,
            spec_search(self.spec_chain(), search) is Some ==> r is Success,
            match r {
                BlockSearchResult::Success(b) => {
                    &&& spec_search(self.spec_chain(), search) is Some
                    &&& *b == self.spec_chain()[spec_search(self.spec_chain(), search).unwrap()]
                },
                BlockSearchResult::FailOfEmptyBlocks => self.spec_chain().len() == 0,
                BlockSearchResult::FailOfIndex(i) => self.spec_chain().len() > 0 && spec_search(
                    self.spec_chain(),
                    search,
                ) is None && search == BlockSearch::SearchByIndex(i),
                BlockSearchResult::FailOfPreviousHash(h) => self.spec_chain().len() > 0
                    && spec_search(self.spec_chain(), search) is None && search
                    == BlockSearch::SearchByPreviousHash(h),
                BlockSearchResult::FailOfBlockHash(h) => self.spec_chain().len() > 0
                    && spec_search(self.spec_chain(), search) is None && search
                    == BlockSearch::SearchByBlockHash(h),
                BlockSearchResult::FailOfNonce(n) => self.spec_chain().len() > 0 && spec_search(
                    self.spec_chain(),
                    search,
                ) is None && search == BlockSearch::SearchByNonce(n),
                BlockSearchResult::FailOfTimeStamp(t) => self.spec_chain().len() > 0
                    && spec_search(self.spec_chain(), search) is None && search
                    == BlockSearch::SearchByTimestamp(t),
                BlockSearchResult::FailOfTransaction(tb) => self.spec_chain().len() > 0
                    && spec_search(self.spec_chain(), search) is None && search
                    == BlockSearch::SearchByTransaction(tb),
            },
    {
        let n = self.chain.len();
        if n == 0 {
            return BlockSearchResult::FailOfEmptyBlocks;
        }
        let mut idx: usize = 0;
        while idx < n
            invariant
                n == self.spec_chain().len(),
                idx <= n,
                spec_search(self.spec_chain(), search) == spec_search_from(
                    self.spec_chain(),
                    search,
                    idx as int,
                ),
            decreases n - idx,
        {
            let block = &self.chain[idx];
            if block_matches(block, idx, &search) {
                proof {
                    assert(spec_search_from(self.spec_chain(), search, idx as int) == Some(
                        idx as int,
                    ));
                }
                return BlockSearchResult::Success(block);
            }
            idx = idx + 1;
        }
        match search {
            BlockSearch::SearchByIndex(i) => BlockSearchResult::FailOfIndex(i),
            BlockSearch::SearchByPreviousHash(h) => BlockSearchResult::FailOfPreviousHash(h),
            BlockSearch::SearchByBlockHash(h) => BlockSearchResult::FailOfBlockHash(h),
            BlockSearch::SearchByNonce(nonce) => BlockSearchResult::FailOfNonce(nonce),
            BlockSearch::SearchByTimestamp(t) => BlockSearchResult::FailOfTimeStamp(t),
            BlockSearch::SearchByTransaction(tb) => BlockSearchResult::FailOfTransaction(tb),
        }
    }

    /// Creates the reward record crediting this ledger's miner, submits it to
    /// the pool, and seals the pool's whole contents (reward included) into a
    /// new block linked to the current tail. Returns whether a sealing nonce
    /// was found; when none exists — possible in principle only — the chain is
    /// unchanged and the reward record waits in the pool with the rest.
    pub fn mining(&mut self) -> (r: bool)
        requires
            old(self).wf(),
            encode_utf8(old(self).spec_address()).len() <= u32::MAX,
        ensures
            final(self).wf(),
            final(self).spec_address() == old(self).spec_address(),
            final(self).spec_difficulty() == old(self).spec_difficulty(),
            r ==> final(self).spec_pool() == Seq::<Seq<u8>>::empty(),
            r ==> final(self).spec_chain().len() == old(self).spec_chain().len() + 1,
            r ==> final(self).spec_chain().subrange(0, old(self).spec_chain().len() as int)
                == old(self).spec_chain(),
            r ==> final(self).spec_chain().last().txs() == old(self).spec_pool().push(
                spec_tx_encode(spec_reward_tx(old(self).spec_address())),
            ),
            r ==> final(self).spec_chain().last().previous_hash@ == old(
                self,
            ).spec_chain().last().spec_hash(),
            r ==> final(self).spec_chain().last().sealed(old(self).spec_difficulty()),
            !r ==> final(self).spec_chain() == old(self).spec_chain(),
            !r ==> final(self).spec_pool() == old(self).spec_pool().push(
                spec_tx_encode(spec_reward_tx(old(self).spec_address())),
            ),
            !r ==> (exists|b: Block|
                #![auto]
                b.txs() == old(self).spec_pool().push(
                    spec_tx_encode(spec_reward_tx(old(self).spec_address())),
                ) && b.previous_hash@ == old(self).spec_chain().last().spec_hash()
                    && b.unsealable(old(self).spec_difficulty())),
    {
        proof {
            reveal_strlit("THE BLOCKCHAIN");
            lemma_encode_utf8_len_bound(mining_sender());
            lemma_tx_codec_round_trip_for_reward(old(self).spec_address());
        }
        let sender = "THE BLOCKCHAIN".as_bytes_vec();
        let recipient = self.blockchain_address.as_str().as_bytes_vec();
        let tx = Transaction::new(sender, recipient, MINING_REWARD);
        self.add_transaction(&tx);
        let previous_hash = self.last_block().hash();
        self.create_block(0, previous_hash)
    }

    /// Walks every block and every decoded record in chain order and returns
    /// the signed balance of `address`: each record's value is added where the
    /// address is the recipient and subtracted where it is the sender. Nothing
    /// is ever rejected for insufficient funds, so the total may be negative.
    /// The stored records' total value must fit the result type.
    pub fn calculate_total_amt(&self, address: String) -> (r: i64)
        requires
            self.wf(),
            spec_total_value(chain_txs(self.spec_chain())) <= i64::MAX,
        ensures
            r == spec_balance(chain_txs(self.spec_chain()), encode_utf8(address@)),
    {
        let addr_bytes = address.as_str().as_bytes_vec();
        let ghost abytes = encode_utf8(address@);
        let ghost chain = self.spec_chain();
        let ghost whole = chain_txs(chain);
        let mut total: i64 = 0;
        let mut i: usize = 0;
        proof {
            lemma_value_nonneg(whole);
            assert(chain.take(0) =~= Seq::<Block>::empty());
        }
        while i < self.chain.len()
            invariant
                self.wf(),
                chain == self.spec_chain(),
                whole == chain_txs(chain),
                spec_total_value(whole) <= i64::MAX,
                addr_bytes@ == abytes,
                i <= chain.len(),
                total == spec_balance(chain_txs(chain.take(i as int)), abytes),
            decreases chain.len() - i,
        {
            let block = &self.chain[i];
            let ghost btxs = block.txs();
            let ghost base = chain_txs(chain.take(i as int));
            let mut j: usize = 0;
            proof {
                assert(btxs.take(0) =~= Seq::<Seq<u8>>::empty());
            }
            while j < block.transactions.len()
                invariant
                    self.wf(),
                    chain == self.spec_chain(),
                    whole == chain_txs(chain),
                    spec_total_value(whole) <= i64::MAX,
                    addr_bytes@ == abytes,
                    i < chain.len(),
                    *block == chain[i as int],
                    btxs == block.txs(),
                    base == chain_txs(chain.take(i as int)),
                    j <= block.transactions@.len(),
                    btxs.len() == block.transactions@.len(),
                    total == spec_balance(base, abytes) + spec_balance(
                        btxs.take(j as int),
                        abytes,
                    ),
                decreases block.transactions@.len() - j,
            {
                let t = match Transaction::decode(block.transactions[j].as_slice()) {
                    Ok(t) => t,
                    Err(_) => {
                        proof {
                            assert(Self::txs_decodable(chain[i as int].txs()));
                            assert(spec_tx_decode(btxs[j as int]) is Some);
                        }
                        unreached()
                    },
                };
                proof {
                    let bj = btxs[j as int];
                    assert(spec_tx_decode(bj) == Some(t@));
                    assert(spec_tx_value(bj) == t.value as int);
                    lemma_balance_step(btxs, j as int, abytes);
                    lemma_balance_bounded(base, abytes);
                    lemma_balance_bounded(btxs.take(j as int), abytes);
                    lemma_balance_bounded(btxs.take(j as int + 1), abytes);
                    lemma_value_step(btxs, j as int);
                    lemma_value_take_le(btxs, j as int + 1);
                    lemma_value_nonneg(btxs.take(j as int));
                    lemma_chain_txs_step(chain, i as int);
                    lemma_value_concat(base, btxs);
                    lemma_chain_value_take_le(chain, i as int + 1);
                    lemma_value_nonneg(base);
                }
                if bytes_eq(&t.recipient_address, &addr_bytes) {
                    total = total + (t.value as i64);
                }
                if bytes_eq(&t.sender_address, &addr_bytes) {
                    total = total - (t.value as i64);
                }
                j = j + 1;
            }
            proof {
                assert(btxs.take(btxs.len() as int) =~= btxs);
                lemma_chain_txs_step(chain, i as int);
                lemma_balance_concat(base, btxs, abytes);
            }
            i = i + 1;
        }
        proof {
            assert(chain.take(chain.len() as int) =~= chain);
        }
        total
    }
}

/// Law: in a well-formed ledger every block after genesis stores its
/// predecessor's content hash — the chain is hash-linked at every index.
pub proof fn lemma_chain_linked(bc: &BlockChain, i: int)
    requires
        bc.wf(),
        1 <= i < bc.spec_chain().len(),
    ensures
        bc.spec_chain()[i].previous_hash@ == bc.spec_chain()[i - 1].spec_hash(),
{
}

/// Law: in a well-formed ledger every block after genesis meets the difficulty
/// target: the hex encoding of its content hash starts with the ledger's
/// difficulty many '0' characters. The genesis block is exempt by design.
pub proof fn lemma_chain_sealed(bc: &BlockChain, i: int, k: int)
    requires
        bc.wf(),
        1 <= i < bc.spec_chain().len(),
        0 <= k < bc.spec_difficulty(),
    ensures
        spec_hex(bc.spec_chain()[i].spec_hash())[k] == '0',
{
    assert(bc.spec_chain()[i].sealed(bc.spec_difficulty()));
}

/// Decides whether the block at position `idx` satisfies the predicate.
fn block_matches(block: &Block, idx: usize, search: &BlockSearch) -> (r: bool)
    ensures
        r == spec_matches(*block, idx as int, *search),
{
    match search {
        BlockSearch::SearchByIndex(index) => idx == *index,
        BlockSearch::SearchByPreviousHash(h) => bytes_eq(&block.previous_hash, h),
        BlockSearch::SearchByBlockHash(h) => {
            let bh = block.hash();
            bytes_eq(&bh, h)
        },
        BlockSearch::SearchByNonce(nonce) => block.nonce == *nonce,
        BlockSearch::SearchByTimestamp(t) => block.time_stamp == *t,
        BlockSearch::SearchByTransaction(txb) => {
            let mut matched = false;
            let mut j: usize = 0;
            while j < block.transactions.len()
                invariant
                    j <= block.transactions@.len(),
                    block.txs().len() == block.transactions@.len(),
                    matched <==> (exists|k: int| 0 <= k < j && block.txs()[k] == txb@),
                decreases block.transactions@.len() - j,
            {
                if bytes_eq(&block.transactions[j], txb) {
                    proof {
                        assert(block.txs()[j as int] == txb@);
                    }
                    matched = true;
                }
                j = j + 1;
            }
            proof {
                assert(matched == block.txs().contains(txb@));
            }
            matched
        },
    }
}

/// The UTF-8 image of a character sequence takes at most four bytes per
/// character. Callers use it to show that a short miner address fits the
/// constructors' length bound.
pub proof fn lemma_encode_utf8_len_bound(chars: Seq<char>)
    ensures
        encode_utf8(chars).len() <= 4 * chars.len(),
    decreases chars.len(),
{
    if chars.len() > 0 {
        lemma_encode_utf8_len_bound(chars.drop_first());
    }
}

/// A reward record is always encodable and its encoding always decodes.
proof fn lemma_tx_codec_round_trip_for_reward(address: Seq<char>)
    requires
        encode_utf8(address).len() <= u32::MAX,
        encode_utf8(mining_sender()).len() <= u32::MAX,
    ensures
        crate::transaction::tx_encodable(spec_reward_tx(address)),
        spec_tx_decode(spec_tx_encode(spec_reward_tx(address))) is Some,
{
    crate::transaction::lemma_tx_codec_round_trip(spec_reward_tx(address));
}

/// Seals a block: hex-encode the content hash and test whether its first
/// `difficulty` characters are all '0'; bump the nonce by one and retry until
/// the target is met. The search walks the whole nonce range from its lowest
/// value, so a win carries the least sealing nonce; it gives up only in the
/// vanishingly unlikely case that no nonce at all seals the block, and says so
/// rather than repeating itself forever. Returns the winning hex-encoded
/// digest as the proof.
fn do_proof_of_work(block: &mut Block, difficulty: usize) -> (r: Option<String>)
    requires
        difficulty <= 64,
    ensures
        final(block).previous_hash == old(block).previous_hash,
        final(block).time_stamp == old(block).time_stamp,
        final(block).transactions == old(block).transactions,
        match r {
            Some(proof_str) => {
                &&& final(block).sealed(difficulty as int)
                &&& proof_str@ == spec_hex(final(block).spec_hash())
                &&& forall|n: i32|
                    n < final(block).nonce ==> !final(block).with_nonce(n).sealed(
                        difficulty as int,
                    )
            },
            None => final(block).unsealable(difficulty as int),
        },
{
    block.nonce = i32::MIN;
    loop
        invariant
            difficulty <= 64,
            block.previous_hash == old(block).previous_hash,
            block.time_stamp == old(block).time_stamp,
            block.transactions == old(block).transactions,
            forall|n: i32| n < block.nonce ==> !block.with_nonce(n).sealed(difficulty as int),
        decreases i32::MAX - block.nonce,
    {
        let hash = block.hash();
        let hash_str = hex_encode(&hash);
        proof {
            crate::block::lemma_spec_hex_len(hash@);
        }
        let mut ok = true;
        let mut i: usize = 0;
        while i < difficulty
            invariant
                i <= difficulty,
                difficulty <= 64,
                hash_str@ == spec_hex(hash@),
                hash@.len() == 32,
                ok <==> (forall|k: int| 0 <= k < i ==> hash_str@[k] == '0'),
            decreases difficulty - i,
        {
            proof {
                crate::block::lemma_spec_hex_len(hash@);
            }
            let c = hash_str.as_str().get_char(i);
            ok = ok && c == '0';
            i = i + 1;
        }
        if ok {
            return Some(hash_str);
        }
        proof {
            assert(block.with_nonce(block.nonce) == *block);
            assert(!block.sealed(difficulty as int));
        }
        if block.nonce == i32::MAX {
            return None;
        }
        let ghost prev = *block;
        block.increment_nonce(1);
        proof {
            assert(block.nonce == prev.nonce + 1);
            assert forall|n: i32| n < block.nonce implies !block.with_nonce(n).sealed(
                difficulty as int,
            ) by {
                assert(block.with_nonce(n) == prev.with_nonce(n));
            }
        }
    }
}

} // verus!
