//! The wallet-facing transfer record.
//!
//! Key generation, address derivation and signature handling live with an
//! outside collaborator; the ledger core treats principals as opaque byte
//! identifiers and never checks a signature. This record is the shape that
//! collaborator exchanges: a transfer between two textual addresses together
//! with the hex-encoded signature and public key that vouch for it.

use vstd::prelude::*;

verus! {

/// A signed transfer as the wallet collaborator presents it. The `signature`
/// field is empty while the record is being signed, since the signature is
/// computed over the record with that field blank.
#[derive(Debug, Clone)]
pub struct Transaction {
    pub sender: String,
    pub recipient: String,
    pub amount: u64,
    pub signature: String,
    pub public_key: String,
}

impl Transaction {
    /// Builds an unsigned record: the signature field starts empty.
    pub fn new(sender: String, recipient: String, amount: u64, public_key: String) -> (r:
        Transaction)
        ensures
            r.sender@ == sender@,
            r.recipient@ == recipient@,
            r.amount == amount,
            r.signature@ == Seq::<char>::empty(),
            r.public_key@ == public_key@,
    {
        let signature = String::new();
        proof {
            assert(signature@ =~= Seq::<char>::empty());
        }
        Transaction { sender, recipient, amount, signature, public_key }
    }
}

} // verus!

