//! A transfer of `amount` units from `sender` to `receiver`, identified by the
//! SHA-256 hash of its fields.

use vstd::prelude::*;
use vstd::utf8::encode_utf8;
use crate::digest::{sha256, sha256_digest};
use crate::encoding::{
    append_bytes, decimal, decimal_bytes, digits_value, hex_chars, hex_encode, lemma_decimal_spells_value,
    lemma_hex_chars_len,
};

verus! {

/// A transfer between two accounts. `hash` is the lowercase hex SHA-256 of
/// the sender, the receiver and the decimal amount, written one after another.
#[derive(Debug, Clone)]
pub struct Transaction {
    pub sender: String,
    pub receiver: String,
    pub amount: u64,
    pub hash: String,
}

/// The bytes that identify a transaction: the UTF-8 sender, the UTF-8 receiver
/// and the decimal amount, with no separator.
pub open spec fn transaction_content(sender: Seq<char>, receiver: Seq<char>, amount: u64) -> Seq<u8> {
    encode_utf8(sender) + encode_utf8(receiver) + decimal(amount as nat)
}

/// The hash string of a transaction with these fields.
pub open spec fn transaction_hash(sender: Seq<char>, receiver: Seq<char>, amount: u64) -> Seq<char> {
    hex_chars(sha256_digest(transaction_content(sender, receiver, amount)))
}

/// The identifying bytes begin with the whole sender, continue with the whole
/// receiver and end with the digits that spell the amount, whatever the
/// lengths of the two names.
pub proof fn lemma_transaction_content_layout(sender: Seq<char>, receiver: Seq<char>, amount: u64)
    ensures
        ({
            let c = transaction_content(sender, receiver, amount);
            let a = encode_utf8(sender).len() as int;
            let b = encode_utf8(receiver).len() as int;
            &&& c.subrange(0, a) == encode_utf8(sender)
            &&& c.subrange(a, a + b) == encode_utf8(receiver)
            &&& digits_value(c.subrange(a + b, c.len() as int)) == amount
            &&& forall|i: int| a + b <= i < c.len() ==> 48 <= #[trigger] c[i] <= 57
        }),
{
    let c = transaction_content(sender, receiver, amount);
    let a = encode_utf8(sender).len() as int;
    let b = encode_utf8(receiver).len() as int;
    let d = decimal(amount as nat);
    lemma_decimal_spells_value(amount as nat);
    assert(c.subrange(0, a) =~= encode_utf8(sender));
    assert(c.subrange(a, a + b) =~= encode_utf8(receiver));
    assert(c.subrange(a + b, c.len() as int) =~= d);
    assert forall|i: int| a + b <= i < c.len() implies 48 <= #[trigger] c[i] <= 57 by {
        assert(c[i] == d[i - a - b]);
    }
}

/// A transaction's hash is the hex SHA-256 of bytes that hold the whole sender,
/// then the whole receiver, then the decimal amount.
pub proof fn lemma_transaction_hash_covers_fields(sender: Seq<char>, receiver: Seq<char>, amount: u64)
    ensures
        exists|c: Seq<u8>|
            #![trigger sha256_digest(c)]
            {
                let a = encode_utf8(sender).len() as int;
                let b = encode_utf8(receiver).len() as int;
                &&& transaction_hash(sender, receiver, amount) == hex_chars(sha256_digest(c))
                &&& c.subrange(0, a) == encode_utf8(sender)
                &&& c.subrange(a, a + b) == encode_utf8(receiver)
                &&& digits_value(c.subrange(a + b, c.len() as int)) == amount
            },
{
    lemma_transaction_content_layout(sender, receiver, amount);
    let c = transaction_content(sender, receiver, amount);
    assert(transaction_hash(sender, receiver, amount) == hex_chars(sha256_digest(c)));
}

/// Builds the bytes that a transaction's hash is computed over.
pub fn transaction_content_bytes(sender: &str, receiver: &str, amount: u64) -> (res: Vec<u8>)
    ensures
        res@ == transaction_content(sender@, receiver@, amount),
{
    let mut content: Vec<u8> = Vec::new();
    append_bytes(&mut content, sender.as_bytes());
    append_bytes(&mut content, receiver.as_bytes());
    let digits = decimal_bytes(amount as u128);
    append_bytes(&mut content, digits.as_slice());
    content
}

impl Transaction {
    /// Creates the transaction and computes its hash.
    pub fn new(sender: &str, receiver: &str, amount: u64) -> (tx: Transaction)
        ensures
            tx.sender@ == sender@,
            tx.receiver@ == receiver@,
            tx.amount == amount,
            tx.hash@ == transaction_hash(sender@, receiver@, amount),
            tx.hash@.len() == 64,
    {
        let content = transaction_content_bytes(sender, receiver, amount);
        let digest = sha256(content.as_slice());
        let hash = hex_encode(digest.as_slice());
        proof {
            lemma_hex_chars_len(digest@);
        }
        Transaction { sender: sender.to_owned(), receiver: receiver.to_owned(), amount, hash }
    }
}

} // verus!
