//! Value-transfer records and their fixed binary codec.
//!
//! A transaction is encoded as a deterministic, order-preserving byte string:
//! a 4-byte little-endian length prefix followed by the sender bytes, the same
//! for the recipient bytes, then the value as 8 little-endian bytes. Decoding
//! is the exact inverse and rejects every byte string that this layout does
//! not produce.

use crate::util::push_bytes;
use vstd::bytes::lemma_auto_spec_u32_to_from_le_bytes;
use vstd::bytes::lemma_auto_spec_u64_to_from_le_bytes;
use vstd::bytes::spec_u32_from_le_bytes;
use vstd::bytes::spec_u32_to_le_bytes;
use vstd::bytes::spec_u64_from_le_bytes;
use vstd::bytes::spec_u64_to_le_bytes;
use vstd::bytes::u32_from_le_bytes;
use vstd::bytes::u32_to_le_bytes;
use vstd::bytes::u64_from_le_bytes;
use vstd::bytes::u64_to_le_bytes;
use vstd::prelude::*;
use vstd::slice::slice_subrange;
use vstd::slice::slice_to_vec;

verus! {

/// Error returned when bytes are not a valid transaction encoding.
#[derive(Debug, Clone, Copy, PartialEq, Eq, Structural)]
pub struct DecodeError;

/// The mathematical content of a transaction: two principals, given as byte
/// identifiers, and a transferred amount.
pub ghost struct TxView {
    pub sender: Seq<u8>,
    pub recipient: Seq<u8>,
    pub value: u64,
}

/// An immutable value-transfer record. Equality is structural; a transaction
/// has no identity beyond its fields (and hence its byte encoding).
#[derive(Debug)]
pub struct Transaction {
    pub sender_address: Vec<u8>,
    pub recipient_address: Vec<u8>,
    pub value: u64,
}

impl View for Transaction {
    type V = TxView;

    open spec fn view(&self) -> TxView {
        TxView {
            sender: self.sender_address@,
            recipient: self.recipient_address@,
            value: self.value,
        }
    }
}

impl PartialEq for Transaction {
    fn eq(&self, other: &Self) -> (r: bool) {
        let se = self.sender_address == other.sender_address;
        let re = self.recipient_address == other.recipient_address;
        let ve = self.value == other.value;
        let r = se && re && ve;
        proof {
            if se {
                assert(self.sender_address@ =~= other.sender_address@);
            }
            if re {
                assert(self.recipient_address@ =~= other.recipient_address@);
            }
            if self@ == other@ {
                assert(self.sender_address@ == other.sender_address@);
                assert(self.recipient_address@ == other.recipient_address@);
            }
        }
        r
    }
}

impl vstd::std_specs::cmp::PartialEqSpecImpl for Transaction {
    open spec fn obeys_eq_spec() -> bool {
        true
    }

    open spec fn eq_spec(&self, other: &Self) -> bool {
        self@ == other@
    }
}

/// A record can be encoded exactly when each address length fits in the
/// 4-byte length prefix.
pub open spec fn tx_encodable(t: TxView) -> bool {
    &&& t.sender.len() <= u32::MAX
    &&& t.recipient.len() <= u32::MAX
}

/// The byte encoding of a transaction record.
pub open spec fn spec_tx_encode(t: TxView) -> Seq<u8> {
    spec_u32_to_le_bytes(t.sender.len() as u32) + t.sender + spec_u32_to_le_bytes(
        t.recipient.len() as u32,
    ) + t.recipient + spec_u64_to_le_bytes(t.value)
}

/// The inverse reading: `Some` exactly on byte strings laid out as a sender
/// length prefix, sender bytes, recipient length prefix, recipient bytes, and
/// an 8-byte value, with nothing left over.
pub open spec fn spec_tx_decode(b: Seq<u8>) -> Option<TxView> {
    if b.len() < 4 {
        None
    } else {
        let slen = spec_u32_from_le_bytes(b.subrange(0, 4)) as int;
        if b.len() < 8 + slen {
            None
        } else {
            let rlen = spec_u32_from_le_bytes(b.subrange(4 + slen, 8 + slen)) as int;
            if b.len() != 16 + slen + rlen {
                None
            } else {
                Some(
                    TxView {
                        sender: b.subrange(4, 4 + slen),
                        recipient: b.subrange(8 + slen, 8 + slen + rlen),
                        value: spec_u64_from_le_bytes(
                            b.subrange(8 + slen + rlen, 16 + slen + rlen),
                        ),
                    },
                )
            }
        }
    }
}

impl Transaction {
    /// True when this record's addresses fit the encoding's length prefixes.
    pub open spec fn encodable(&self) -> bool {
        tx_encodable(self@)
    }

    /// Builds the record from its three fields.
    pub fn new(sender: Vec<u8>, recipient: Vec<u8>, value: u64) -> (r: Transaction)
        ensures
            r@ == (TxView { sender: sender@, recipient: recipient@, value: value }),
    {
        Transaction { sender_address: sender, recipient_address: recipient, value }
    }

    /// Encodes the record into its byte string.
    pub fn encode(&self) -> (r: Vec<u8>)
        requires
            self.encodable(),
        ensures
            r@ == spec_tx_encode(self@),
    {
        let mut bin = u32_to_le_bytes(self.sender_address.len() as u32);
        push_bytes(&mut bin, self.sender_address.as_slice());
        let mut rlen = u32_to_le_bytes(self.recipient_address.len() as u32);
        bin.append(&mut rlen);
        push_bytes(&mut bin, self.recipient_address.as_slice());
        let mut vbytes = u64_to_le_bytes(self.value);
        bin.append(&mut vbytes);
        bin
    }

    /// Decodes a byte string, failing on exactly those inputs that no
    /// encodable record encodes to.
    pub fn decode(bytes: &[u8]) -> (r: Result<Transaction, DecodeError>)
        ensures
            match r {
                Ok(t) => spec_tx_decode(bytes@) == Some(t@),
                Err(_) => spec_tx_decode(bytes@) is None,
            },
    {
        proof {
            lemma_auto_spec_u32_to_from_le_bytes();
        }
        if bytes.len() < 4 {
            return Err(DecodeError);
        }
        let slen = u32_from_le_bytes(slice_subrange(bytes, 0, 4)) as usize;
        if bytes.len() < 8 || bytes.len() - 8 < slen {
            return Err(DecodeError);
        }
        let sender = slice_to_vec(slice_subrange(bytes, 4, 4 + slen));
        let rlen = u32_from_le_bytes(slice_subrange(bytes, 4 + slen, 8 + slen)) as usize;
        let rest = bytes.len() - 8 - slen;
        if rest < 8 || rest - 8 != rlen {
            return Err(DecodeError);
        }
        let recipient = slice_to_vec(slice_subrange(bytes, 8 + slen, 8 + slen + rlen));
        let value = u64_from_le_bytes(
            slice_subrange(bytes, 8 + slen + rlen, 16 + slen + rlen),
        );
        Ok(Transaction { sender_address: sender, recipient_address: recipient, value })
    }
}

/// Conversion of a record to and from its byte encoding.
pub trait Serialization<T: View>: Sized {
    /// True when the record fits the encoding.
    spec fn serializable(&self) -> bool;

    /// The byte string this record encodes to.
    spec fn spec_serialization(&self) -> Seq<u8>;

    /// The record a byte string decodes to, if any.
    spec fn spec_deserialization(bytes: Seq<u8>) -> Option<T::V>;

    /// Encodes the record.
    fn serialization(&self) -> (r: Vec<u8>)
        requires
            self.serializable(),
        ensures
            r@ == self.spec_serialization(),
    ;

    /// Decodes a byte string, failing on exactly those inputs that no record
    /// encodes to.
    fn deserialization(bytes: Vec<u8>) -> (r: Result<T, DecodeError>)
        ensures
            match r {
                Ok(t) => Self::spec_deserialization(bytes@) == Some(t@),
                Err(_) => Self::spec_deserialization(bytes@) is None,
            },
    ;
}

impl Serialization<Transaction> for Transaction {
    open spec fn serializable(&self) -> bool {
        self.encodable()
    }

    open spec fn spec_serialization(&self) -> Seq<u8> {
        spec_tx_encode(self@)
    }

    open spec fn spec_deserialization(bytes: Seq<u8>) -> Option<TxView> {
        spec_tx_decode(bytes)
    }

    fn serialization(&self) -> (r: Vec<u8>) {
        self.encode()
    }

    fn deserialization(bytes: Vec<u8>) -> (r: Result<Transaction, DecodeError>) {
        Transaction::decode(bytes.as_slice())
    }
}

/// Law: decoding is the exact inverse of encoding. Every encodable record
/// comes back unchanged from a round trip through the codec.
pub proof fn lemma_tx_codec_round_trip(t: TxView)
    requires
        tx_encodable(t),
    ensures
        spec_tx_decode(spec_tx_encode(t)) == Some(t),
{
    lemma_auto_spec_u32_to_from_le_bytes();
    lemma_auto_spec_u64_to_from_le_bytes();
    let b = spec_tx_encode(t);
    let slen = t.sender.len() as int;
    let rlen = t.recipient.len() as int;
    assert(b.len() == 16 + slen + rlen);
    assert(b.subrange(0, 4) =~= spec_u32_to_le_bytes(t.sender.len() as u32));
    assert(b.subrange(4, 4 + slen) =~= t.sender);
    assert(b.subrange(4 + slen, 8 + slen) =~= spec_u32_to_le_bytes(t.recipient.len() as u32));
    assert(b.subrange(8 + slen, 8 + slen + rlen) =~= t.recipient);
    assert(b.subrange(8 + slen + rlen, 16 + slen + rlen) =~= spec_u64_to_le_bytes(t.value));
    assert(spec_tx_decode(b) == Some(t));
}

/// Law: encoding is injective on encodable records, so the pool and the
/// blocks lose nothing by storing records only in encoded form.
pub proof fn lemma_tx_encode_injective(t1: TxView, t2: TxView)
    requires
        tx_encodable(t1),
        tx_encodable(t2),
        spec_tx_encode(t1) == spec_tx_encode(t2),
    ensures
        t1 == t2,
{
    lemma_tx_codec_round_trip(t1);
    lemma_tx_codec_round_trip(t2);
}

} // verus!
