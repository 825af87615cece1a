//! Blocks: ordered batches of encoded transactions plus linkage and sealing
//! metadata.
//!
//! A block's identity is its content hash, a SHA-256 digest computed on demand
//! over its serialized image: the big-endian nonce, the previous block's hash,
//! the big-endian timestamp, then every encoded transaction in list order.
//! Recomputing instead of caching lets the proof-of-work loop observe a fresh
//! digest after each nonce change.

use crate::util::push_bytes;
use sha2::Digest;
use vstd::prelude::*;

verus! {

/// The four big-endian bytes of a 32-bit unsigned value.
pub open spec fn spec_u32_be_bytes(x: u32) -> Seq<u8> {
    seq![(x >> 24) as u8, (x >> 16) as u8, (x >> 8) as u8, x as u8]
}

fn u32_be_bytes(x: u32) -> (r: Vec<u8>)
    ensures
        r@ == spec_u32_be_bytes(x),
{
    let mut v: Vec<u8> = Vec::new();
    v.push(#[verifier::truncate] ((x >> 24) as u8));
    v.push(#[verifier::truncate] ((x >> 16) as u8));
    v.push(#[verifier::truncate] ((x >> 8) as u8));
    v.push(#[verifier::truncate] (x as u8));
    assert(v@ =~= spec_u32_be_bytes(x));
    v
}

/// The big-endian bytes of a signed nonce: its two's-complement image.
pub open spec fn spec_i32_be_bytes(x: i32) -> Seq<u8> {
    spec_u32_be_bytes(x as u32)
}

fn i32_be_bytes(x: i32) -> (r: Vec<u8>)
    ensures
        r@ == spec_i32_be_bytes(x),
{
    u32_be_bytes(#[verifier::truncate] (x as u32))
}

/// The sixteen big-endian bytes of a 128-bit timestamp.
pub open spec fn spec_u128_be_bytes(x: u128) -> Seq<u8> {
    seq![
        (x >> 120) as u8,
        (x >> 112) as u8,
        (x >> 104) as u8,
        (x >> 96) as u8,
        (x >> 88) as u8,
        (x >> 80) as u8,
        (x >> 72) as u8,
        (x >> 64) as u8,
        (x >> 56) as u8,
        (x >> 48) as u8,
        (x >> 40) as u8,
        (x >> 32) as u8,
        (x >> 24) as u8,
        (x >> 16) as u8,
        (x >> 8) as u8,
        x as u8,
    ]
}

fn u128_be_bytes(x: u128) -> (r: Vec<u8>)
    ensures
        r@ == spec_u128_be_bytes(x),
{
    let mut v: Vec<u8> = Vec::new();
    v.push(#[verifier::truncate] ((x >> 120) as u8));
    v.push(#[verifier::truncate] ((x >> 112) as u8));
    v.push(#[verifier::truncate] ((x >> 104) as u8));
    v.push(#[verifier::truncate] ((x >> 96) as u8));
    v.push(#[verifier::truncate] ((x >> 88) as u8));
    v.push(#[verifier::truncate] ((x >> 80) as u8));
    v.push(#[verifier::truncate] ((x >> 72) as u8));
    v.push(#[verifier::truncate] ((x >> 64) as u8));
    v.push(#[verifier::truncate] ((x >> 56) as u8));
    v.push(#[verifier::truncate] ((x >> 48) as u8));
    v.push(#[verifier::truncate] ((x >> 40) as u8));
    v.push(#[verifier::truncate] ((x >> 32) as u8));
    v.push(#[verifier::truncate] ((x >> 24) as u8));
    v.push(#[verifier::truncate] ((x >> 16) as u8));
    v.push(#[verifier::truncate] ((x >> 8) as u8));
    v.push(#[verifier::truncate] (x as u8));
    assert(v@ =~= spec_u128_be_bytes(x));
    v
}

/// The concatenation of a sequence of byte strings, in order.
pub open spec fn spec_concat_bytes(s: Seq<Seq<u8>>) -> Seq<u8>
    decreases s.len(),
{
    if s.len() == 0 {
        Seq::empty()
    } else {
        spec_concat_bytes(s.drop_last()) + s.last()
    }
}

pub proof fn lemma_concat_bytes_step(s: Seq<Seq<u8>>, i: int)
    requires
        0 <= i < s.len(),
    ensures
        spec_concat_bytes(s.take(i + 1)) == spec_concat_bytes(s.take(i)) + s[i],
{
    assert(s.take(i + 1).drop_last() =~= s.take(i));
    assert(s.take(i + 1).last() == s[i]);
}

/// The SHA-256 digest of a byte string. Named, not defined: the digest is
/// computed by an outside implementation, and is a function of the input
/// bytes alone.
pub uninterp spec fn sha256_of(bytes: Seq<u8>) -> Seq<u8>;

/// Relies on sha2::Sha256: the digest is a deterministic function of the
/// input bytes and is exactly 32 bytes long.
#[verifier::external_body]
fn sha256(bytes: &Vec<u8>) -> (r: Vec<u8>)
    ensures
        r@ == sha256_of(bytes@),
        r@.len() == 32,
{
    let mut hasher = sha2::Sha256::new();
    hasher.update(bytes);
    hasher.finalize().to_vec()
}

/// The lowercase hex digit for a nibble value.
pub open spec fn spec_hex_digit(n: u8) -> char
    recommends
        n < 16,
{
    seq!['0', '1', '2', '3', '4', '5', '6', '7', '8', '9', 'a', 'b', 'c', 'd', 'e', 'f'][n as int]
}

/// The lowercase hex encoding of a byte string: two digits per byte, high
/// nibble first, in input order.
pub open spec fn spec_hex(bytes: Seq<u8>) -> Seq<char>
    decreases bytes.len(),
{
    if bytes.len() == 0 {
        Seq::empty()
    } else {
        seq![spec_hex_digit(bytes.first() >> 4), spec_hex_digit(bytes.first() & 0x0f)] + spec_hex(
            bytes.drop_first(),
        )
    }
}

pub proof fn lemma_spec_hex_len(bytes: Seq<u8>)
    ensures
        spec_hex(bytes).len() == 2 * bytes.len(),
    decreases bytes.len(),
{
    if bytes.len() > 0 {
        lemma_spec_hex_len(bytes.drop_first());
    }
}

/// Relies on hex::encode: each byte becomes two lowercase hex digits, high
/// nibble first, in input order.
#[verifier::external_body]
pub(crate) fn hex_encode(bytes: &Vec<u8>) -> (r: String)
    ensures
        r@ == spec_hex(bytes@),
{
    hex::encode(bytes)
}

/// Relies on std::time::SystemTime::now: the wall clock read in nanoseconds
/// since the Unix epoch, or zero if the clock reads earlier than the epoch.
/// Nothing is promised of the value.
#[verifier::external_body]
fn now_nanos() -> u128 {
    match std::time::SystemTime::now().duration_since(std::time::SystemTime::UNIX_EPOCH) {
        Ok(d) => d.as_nanos(),
        Err(_) => 0,
    }
}

/// One block of the chain. The nonce is mutated only while the block is being
/// sealed; every other field is fixed at construction, and the transaction
/// list is extended only during block assembly.
#[derive(Debug)]
pub struct Block {
    pub nonce: i32,
    pub previous_hash: Vec<u8>,
    pub time_stamp: u128,
    pub transactions: Vec<Vec<u8>>,
}

impl Block {
    /// The transaction list as a sequence of byte strings.
    pub open spec fn txs(&self) -> Seq<Seq<u8>> {
        Seq::new(self.transactions@.len(), |i: int| self.transactions@[i]@)
    }

    /// The serialized image whose digest is the content hash: big-endian
    /// nonce, previous hash, big-endian timestamp, then each encoded
    /// transaction in list order.
    pub open spec fn content_bytes(&self) -> Seq<u8> {
        spec_i32_be_bytes(self.nonce) + self.previous_hash@ + spec_u128_be_bytes(self.time_stamp)
            + spec_concat_bytes(self.txs())
    }

    /// The content hash, the block's identity and the value its successor
    /// stores as `previous_hash`.
    pub open spec fn spec_hash(&self) -> Seq<u8> {
        sha256_of(self.content_bytes())
    }

    /// True when the hex encoding of the content hash starts with
    /// `difficulty` many '0' characters.
    pub open spec fn sealed(&self, difficulty: int) -> bool {
        forall|i: int| 0 <= i < difficulty ==> spec_hex(self.spec_hash())[i] == '0'
    }

    /// True when no nonce at all seals this block's contents at the target.
    /// Only on such a block can the sealing search come up empty.
    pub open spec fn unsealable(self, difficulty: int) -> bool {
        forall|n: i32| #![trigger self.with_nonce(n)] !self.with_nonce(n).sealed(difficulty)
    }

    /// The same block under another nonce: what one trial of the sealing
    /// search inspects.
    pub open spec fn with_nonce(self, n: i32) -> Block {
        Block {
            nonce: n,
            previous_hash: self.previous_hash,
            time_stamp: self.time_stamp,
            transactions: self.transactions,
        }
    }

    /// Builds an unsealed block with an empty transaction list, capturing the
    /// current wall-clock time as its timestamp.
    pub fn new(nonce: i32, previous_hash: Vec<u8>) -> (r: Block)
        ensures
            r.nonce == nonce,
            r.previous_hash == previous_hash,
            r.transactions@ == Seq::<Vec<u8>>::empty(),
            r.txs() =~= Seq::<Seq<u8>>::empty(),
    {
        Block { nonce, previous_hash, time_stamp: now_nanos(), transactions: Vec::new() }
    }

    /// Recomputes the content hash from the current field values.
    pub fn hash(&self) -> (r: Vec<u8>)
        ensures
            r@ == self.spec_hash(),
            r@.len() == 32,
    {
        let mut bin = i32_be_bytes(self.nonce);
        push_bytes(&mut bin, self.previous_hash.as_slice());
        let mut ts = u128_be_bytes(self.time_stamp);
        bin.append(&mut ts);
        let ghost head = spec_i32_be_bytes(self.nonce) + self.previous_hash@ + spec_u128_be_bytes(
            self.time_stamp,
        );
        assert(bin@ == head + spec_concat_bytes(self.txs().take(0)));
        let mut i: usize = 0;
        while i < self.transactions.len()
            invariant
                i <= self.transactions@.len(),
                self.txs().len() == self.transactions@.len(),
                bin@ == head + spec_concat_bytes(self.txs().take(i as int)),
            decreases self.transactions@.len() - i,
        {
            push_bytes(&mut bin, self.transactions[i].as_slice());
            proof {
                lemma_concat_bytes_step(self.txs(), i as int);
            }
            i = i + 1;
        }
        assert(self.txs().take(self.txs().len() as int) == self.txs());
        sha256(&bin)
    }

    /// Adds `delta` to the nonce, wrapping on overflow so that the
    /// proof-of-work search may pass the end of the nonce range and keep
    /// going. No other field changes.
    pub fn increment_nonce(&mut self, delta: i32)
        ensures
            final(self).nonce == vstd::wrapping::i32_specs::wrapping_add(old(self).nonce, delta),
            final(self).previous_hash == old(self).previous_hash,
            final(self).time_stamp == old(self).time_stamp,
            final(self).transactions == old(self).transactions,
    {
        self.nonce = self.nonce.wrapping_add(delta);
    }
}

impl PartialEq for Block {
    /// Two blocks are the same block exactly when their content hashes agree,
    /// whether or not they were constructed independently.
    fn eq(&self, other: &Self) -> (r: bool) {
        let a = self.hash();
        let b = other.hash();
        let r = a == b;
        proof {
            if r {
                assert(a@ =~= b@);
            }
        }
        r
    }
}

impl vstd::std_specs::cmp::PartialEqSpecImpl for Block {
    open spec fn obeys_eq_spec() -> bool {
        true
    }

    open spec fn eq_spec(&self, other: &Self) -> bool {
        self.spec_hash() == other.spec_hash()
    }
}

} // verus!
