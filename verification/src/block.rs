//! Blocks: a batch of transactions sealed by a SHA-256 hash over the block's
//! header and the hashes of its transactions, linked to the previous block by
//! that block's hash, and signed by its proposer.

use vstd::prelude::*;
use vstd::utf8::encode_utf8;
use crate::digest::{sha256, sha256_digest};
use crate::encoding::{
    append_bytes, decimal, decimal_bytes, digits_value, hex_chars, hex_encode, lemma_decimal_spells_value,
    lemma_hex_chars_len, str_eq,
};
use vstd::utf8::encode_utf8_decode_utf8;
use crate::transaction::{transaction_hash, Transaction};

verus! {

/// A block of the chain.
#[derive(Debug, Clone)]
pub struct Block {
    pub index: u64,
    pub timestamp: u128,
    pub transactions: Vec<Transaction>,
    pub previous_hash: String,
    pub hash: String,
    pub proposer: String,
    pub signature: String,
}

/// The UTF-8 bytes of the transactions' hashes, one after another.
pub open spec fn tx_hash_bytes(txs: Seq<Transaction>) -> Seq<u8>
    decreases txs.len(),
{
    if txs.len() == 0 {
        Seq::empty()
    } else {
        tx_hash_bytes(txs.drop_last()) + encode_utf8(txs.last().hash@)
    }
}

/// The bytes a block's hash is computed over: the decimal index, the decimal
/// timestamp, the transaction hashes, the previous hash and the proposer, with
/// no separator.
pub open spec fn block_content(
    index: u64,
    timestamp: u128,
    txs: Seq<Transaction>,
    previous_hash: Seq<char>,
    proposer: Seq<char>,
) -> Seq<u8> {
    decimal(index as nat) + decimal(timestamp as nat) + tx_hash_bytes(txs) + encode_utf8(previous_hash)
        + encode_utf8(proposer)
}

/// The hash string of a block with these fields.
pub open spec fn block_hash(
    index: u64,
    timestamp: u128,
    txs: Seq<Transaction>,
    previous_hash: Seq<char>,
    proposer: Seq<char>,
) -> Seq<char> {
    hex_chars(sha256_digest(block_content(index, timestamp, txs, previous_hash, proposer)))
}

/// The proposer's signature over a block hash: the hex SHA-256 of the hash
/// followed by the proposer.
pub open spec fn block_signature(hash: Seq<char>, proposer: Seq<char>) -> Seq<char> {
    hex_chars(sha256_digest(encode_utf8(hash) + encode_utf8(proposer)))
}

/// Where the hash of transaction `k` starts among the transaction bytes: the
/// total byte length of the hashes of the transactions before it.
pub open spec fn tx_hash_offset(txs: Seq<Transaction>, k: int) -> int
    decreases k,
{
    if k <= 0 {
        0
    } else {
        tx_hash_offset(txs, k - 1) + encode_utf8(txs[k - 1].hash@).len()
    }
}

/// Offsets depend only on the transactions before the position.
proof fn lemma_tx_hash_offset_prefix(txs: Seq<Transaction>, other: Seq<Transaction>, k: int)
    requires
        0 <= k <= txs.len(),
        k <= other.len(),
        forall|j: int| 0 <= j < k ==> txs[j] == other[j],
    ensures
        tx_hash_offset(txs, k) == tx_hash_offset(other, k),
    decreases k,
{
    if k > 0 {
        lemma_tx_hash_offset_prefix(txs, other, k - 1);
    }
}

/// The transaction bytes are as long as all the hashes together.
proof fn lemma_tx_hash_bytes_len(txs: Seq<Transaction>)
    ensures
        tx_hash_bytes(txs).len() == tx_hash_offset(txs, txs.len() as int),
    decreases txs.len(),
{
    if txs.len() > 0 {
        let front = txs.drop_last();
        lemma_tx_hash_bytes_len(front);
        lemma_tx_hash_offset_prefix(txs, front, txs.len() - 1);
    }
}

/// The hash of transaction `k` sits between offsets `k` and `k + 1`.
proof fn lemma_tx_hash_slot(txs: Seq<Transaction>, k: int)
    requires
        0 <= k < txs.len(),
    ensures
        tx_hash_bytes(txs).subrange(tx_hash_offset(txs, k), tx_hash_offset(txs, k + 1)) == encode_utf8(
            txs[k].hash@,
        ),
    decreases txs.len(),
{
    let n = txs.len() as int;
    let front = txs.drop_last();
    let h = tx_hash_bytes(txs);
    lemma_tx_hash_bytes_len(front);
    lemma_tx_hash_offset_prefix(txs, front, n - 1);
    if k < n - 1 {
        lemma_tx_hash_slot(front, k);
        lemma_tx_hash_offset_prefix(txs, front, k);
        lemma_tx_hash_offset_prefix(txs, front, k + 1);
        lemma_tx_hash_offset_monotone(front, k + 1, n - 1);
        lemma_tx_hash_offset_monotone(front, k, k + 1);
        assert(front[k] == txs[k]);
        assert(h.subrange(tx_hash_offset(txs, k), tx_hash_offset(txs, k + 1)) =~= tx_hash_bytes(
            front,
        ).subrange(tx_hash_offset(front, k), tx_hash_offset(front, k + 1)));
    } else {
        assert(h.subrange(tx_hash_offset(txs, k), tx_hash_offset(txs, k + 1)) =~= encode_utf8(
            txs[k].hash@,
        ));
    }
}

/// The transaction bytes hold the UTF-8 hash of every transaction, in order:
/// the hash of transaction `k` sits between offsets `k` and `k + 1`, and
/// nothing follows the last one.
pub proof fn lemma_tx_hash_bytes_layout(txs: Seq<Transaction>)
    ensures
        tx_hash_bytes(txs).len() == tx_hash_offset(txs, txs.len() as int),
        forall|k: int|
            0 <= k < txs.len() ==> tx_hash_bytes(txs).subrange(
                tx_hash_offset(txs, k),
                tx_hash_offset(txs, k + 1),
            ) == encode_utf8(#[trigger] txs[k].hash@),
{
    lemma_tx_hash_bytes_len(txs);
    assert forall|k: int| 0 <= k < txs.len() implies tx_hash_bytes(txs).subrange(
        tx_hash_offset(txs, k),
        tx_hash_offset(txs, k + 1),
    ) == encode_utf8(#[trigger] txs[k].hash@) by {
        lemma_tx_hash_slot(txs, k);
    }
}

/// Offsets never decrease.
proof fn lemma_tx_hash_offset_monotone(txs: Seq<Transaction>, a: int, b: int)
    requires
        0 <= a <= b,
    ensures
        0 <= tx_hash_offset(txs, a) <= tx_hash_offset(txs, b),
    decreases b,
{
    if a < b {
        lemma_tx_hash_offset_monotone(txs, a, b - 1);
    } else if a > 0 {
        lemma_tx_hash_offset_monotone(txs, a - 1, a - 1);
    }
}

/// Replacing any one transaction by one with a different hash changes the
/// transaction bytes, so it changes what the block hash is computed over.
pub proof fn lemma_tx_hash_bytes_detect_change(txs: Seq<Transaction>, k: int, t: Transaction)
    requires
        0 <= k < txs.len(),
        t.hash@ != txs[k].hash@,
    ensures
        tx_hash_bytes(txs.update(k, t)) != tx_hash_bytes(txs),
{
    let other = txs.update(k, t);
    let n = txs.len() as int;
    lemma_tx_hash_bytes_layout(txs);
    lemma_tx_hash_bytes_layout(other);
    lemma_tx_hash_offset_prefix(txs, other, k);
    encode_utf8_decode_utf8(t.hash@);
    encode_utf8_decode_utf8(txs[k].hash@);
    assert(other[k] == t);
    if encode_utf8(t.hash@).len() == encode_utf8(txs[k].hash@).len() {
        if tx_hash_bytes(other) == tx_hash_bytes(txs) {
            assert(tx_hash_offset(other, k + 1) == tx_hash_offset(txs, k + 1));
            assert(encode_utf8(t.hash@) == encode_utf8(txs[k].hash@));
        }
    } else {
        lemma_tx_hash_offset_diff(txs, other, k, n);
    }
}

/// When one transaction's hash changes byte length and the others stay, the
/// offsets after it shift by the difference.
proof fn lemma_tx_hash_offset_diff(txs: Seq<Transaction>, other: Seq<Transaction>, k: int, m: int)
    requires
        0 <= k < m <= txs.len(),
        other.len() == txs.len(),
        forall|j: int| 0 <= j < txs.len() && j != k ==> txs[j] == other[j],
    ensures
        tx_hash_offset(other, m) - tx_hash_offset(txs, m) == encode_utf8(other[k].hash@).len() - encode_utf8(
            txs[k].hash@,
        ).len(),
    decreases m,
{
    if m == k + 1 {
        lemma_tx_hash_offset_prefix(txs, other, k);
    } else {
        lemma_tx_hash_offset_diff(txs, other, k, m - 1);
    }
}

/// The bytes a block's hash is computed over: the digits of the index, the
/// digits of the timestamp, the transaction hashes, the whole previous hash and
/// the whole proposer, in that order and with nothing in between.
pub proof fn lemma_block_content_layout(
    index: u64,
    timestamp: u128,
    txs: Seq<Transaction>,
    previous_hash: Seq<char>,
    proposer: Seq<char>,
)
    ensures
        ({
            let c = block_content(index, timestamp, txs, previous_hash, proposer);
            let i = decimal(index as nat).len() as int;
            let t = i + decimal(timestamp as nat).len();
            let x = t + tx_hash_bytes(txs).len();
            let p = x + encode_utf8(previous_hash).len();
            &&& digits_value(c.subrange(0, i)) == index
            &&& digits_value(c.subrange(i, t)) == timestamp
            &&& c.subrange(t, x) == tx_hash_bytes(txs)
            &&& c.subrange(x, p) == encode_utf8(previous_hash)
            &&& c.subrange(p, c.len() as int) == encode_utf8(proposer)
        }),
{
    let c = block_content(index, timestamp, txs, previous_hash, proposer);
    let i = decimal(index as nat).len() as int;
    let t = i + decimal(timestamp as nat).len();
    let x = t + tx_hash_bytes(txs).len();
    let p = x + encode_utf8(previous_hash).len();
    lemma_decimal_spells_value(index as nat);
    lemma_decimal_spells_value(timestamp as nat);
    assert(c.subrange(0, i) =~= decimal(index as nat));
    assert(c.subrange(i, t) =~= decimal(timestamp as nat));
    assert(c.subrange(t, x) =~= tx_hash_bytes(txs));
    assert(c.subrange(x, p) =~= encode_utf8(previous_hash));
    assert(c.subrange(p, c.len() as int) =~= encode_utf8(proposer));
}

/// Replacing any one transaction of a block by one with a different hash
/// changes the bytes the block's hash is computed over.
pub proof fn lemma_block_content_detects_tx_change(
    index: u64,
    timestamp: u128,
    txs: Seq<Transaction>,
    previous_hash: Seq<char>,
    proposer: Seq<char>,
    k: int,
    t: Transaction,
)
    requires
        0 <= k < txs.len(),
        t.hash@ != txs[k].hash@,
    ensures
        block_content(index, timestamp, txs.update(k, t), previous_hash, proposer) != block_content(
            index,
            timestamp,
            txs,
            previous_hash,
            proposer,
        ),
{
    let other = txs.update(k, t);
    lemma_tx_hash_bytes_detect_change(txs, k, t);
    lemma_block_content_layout(index, timestamp, txs, previous_hash, proposer);
    lemma_block_content_layout(index, timestamp, other, previous_hash, proposer);
    let c1 = block_content(index, timestamp, txs, previous_hash, proposer);
    let c2 = block_content(index, timestamp, other, previous_hash, proposer);
    let start: int = (decimal(index as nat).len() + decimal(timestamp as nat).len()) as int;
    if c1 == c2 {
        if tx_hash_bytes(txs).len() == tx_hash_bytes(other).len() {
            let end: int = start + tx_hash_bytes(txs).len() as int;
            assert(c1.subrange(start, end) == c2.subrange(start, end));
        } else {
            assert(c1.len() != c2.len());
        }
    }
}

/// The signature is the hex SHA-256 of bytes that hold the whole hash followed
/// by the whole proposer, whatever their lengths.
pub proof fn lemma_signature_covers_hash_and_proposer(hash: Seq<char>, proposer: Seq<char>)
    ensures
        exists|m: Seq<u8>|
            #![trigger sha256_digest(m)]
            {
                let h = encode_utf8(hash).len() as int;
                &&& block_signature(hash, proposer) == hex_chars(sha256_digest(m))
                &&& m.len() == h + encode_utf8(proposer).len()
                &&& m.subrange(0, h) == encode_utf8(hash)
                &&& m.subrange(h, m.len() as int) == encode_utf8(proposer)
            },
{
    let m = encode_utf8(hash) + encode_utf8(proposer);
    let h = encode_utf8(hash).len() as int;
    assert(m.subrange(0, h) =~= encode_utf8(hash));
    assert(m.subrange(h, m.len() as int) =~= encode_utf8(proposer));
    assert(block_signature(hash, proposer) == hex_chars(sha256_digest(m)));
}

/// Builds the bytes that a block's hash is computed over.
pub fn block_content_bytes(
    index: u64,
    timestamp: u128,
    transactions: &[Transaction],
    previous_hash: &str,
    proposer: &str,
) -> (res: Vec<u8>)
    ensures
        res@ == block_content(index, timestamp, transactions@, previous_hash@, proposer@),
{
    let mut content = decimal_bytes(index as u128);
    let ts = decimal_bytes(timestamp);
    append_bytes(&mut content, ts.as_slice());
    let ghost head = content@;
    let mut i: usize = 0;
    while i < transactions.len()
        invariant
            i <= transactions@.len(),
            content@ == head + tx_hash_bytes(transactions@.subrange(0, i as int)),
        decreases transactions@.len() - i,
    {
        append_bytes(&mut content, transactions[i].hash.as_str().as_bytes());
        assert(transactions@.subrange(0, i + 1).drop_last() =~= transactions@.subrange(0, i as int));
        i = i + 1;
    }
    assert(transactions@.subrange(0, transactions@.len() as int) =~= transactions@);
    append_bytes(&mut content, previous_hash.as_bytes());
    append_bytes(&mut content, proposer.as_bytes());
    content
}

impl Block {
    /// The hash that this block's fields determine.
    pub open spec fn computed_hash(self) -> Seq<char> {
        block_hash(self.index, self.timestamp, self.transactions@, self.previous_hash@, self.proposer@)
    }

    /// A block's hash is the hex SHA-256 of bytes holding the digits of its
    /// index, the digits of its timestamp, the hash of every one of its
    /// transactions in order, its whole previous hash and its whole proposer.
    pub proof fn lemma_hash_covers_fields(self)
        ensures
            exists|c: Seq<u8>|
                #![trigger sha256_digest(c)]
                {
                    let i = decimal(self.index as nat).len() as int;
                    let t = i + decimal(self.timestamp as nat).len();
                    let x = t + tx_hash_bytes(self.transactions@).len();
                    let p = x + encode_utf8(self.previous_hash@).len();
                    &&& self.computed_hash() == hex_chars(sha256_digest(c))
                    &&& digits_value(c.subrange(0, i)) == self.index
                    &&& digits_value(c.subrange(i, t)) == self.timestamp
                    &&& c.subrange(t, x) == tx_hash_bytes(self.transactions@)
                    &&& c.subrange(x, p) == encode_utf8(self.previous_hash@)
                    &&& c.subrange(p, c.len() as int) == encode_utf8(self.proposer@)
                },
    {
        let c = block_content(
            self.index,
            self.timestamp,
            self.transactions@,
            self.previous_hash@,
            self.proposer@,
        );
        lemma_block_content_layout(
            self.index,
            self.timestamp,
            self.transactions@,
            self.previous_hash@,
            self.proposer@,
        );
        assert(self.computed_hash() == hex_chars(sha256_digest(c)));
    }

    /// A block links to `previous_hash` exactly when it names that hash as its
    /// predecessor and its stored hash is the one its fields determine: a block
    /// with a stale stored hash links to nothing.
    pub proof fn lemma_links_to_checks_both(self, previous_hash: Seq<char>)
        ensures
            self.links_to(previous_hash) <==> (self.previous_hash@ == previous_hash && self.hash@
                == self.computed_hash()),
            self.hash@ != self.computed_hash() ==> !self.links_to(previous_hash),
    {
    }

    /// A signed block's signature is the hex SHA-256 of bytes holding its whole
    /// stored hash followed by its whole proposer.
    pub proof fn lemma_signed_covers_hash_and_proposer(self)
        requires
            self.is_signed(),
        ensures
            exists|m: Seq<u8>|
                #![trigger sha256_digest(m)]
                {
                    let h = encode_utf8(self.hash@).len() as int;
                    &&& self.signature@ == hex_chars(sha256_digest(m))
                    &&& m.len() == h + encode_utf8(self.proposer@).len()
                    &&& m.subrange(0, h) == encode_utf8(self.hash@)
                    &&& m.subrange(h, m.len() as int) == encode_utf8(self.proposer@)
                },
    {
        lemma_signature_covers_hash_and_proposer(self.hash@, self.proposer@);
    }

    /// The block names `previous_hash` as its predecessor and its stored hash
    /// matches its contents.
    pub open spec fn links_to(self, previous_hash: Seq<char>) -> bool {
        &&& self.previous_hash@ == previous_hash
        &&& self.hash@ == self.computed_hash()
    }

    /// The stored signature is the proposer's signature over the stored hash.
    pub open spec fn is_signed(self) -> bool {
        self.signature@ == block_signature(self.hash@, self.proposer@)
    }

    /// Builds and seals a block stamped with `timestamp` (milliseconds since
    /// the Unix epoch, read from the clock by the caller).
    pub fn new(
        index: u64,
        transactions: Vec<Transaction>,
        previous_hash: &str,
        proposer: &str,
        timestamp: u128,
    ) -> (block: Block)
        ensures
            block.index == index,
            block.timestamp == timestamp,
            block.transactions@ == transactions@,
            block.previous_hash@ == previous_hash@,
            block.proposer@ == proposer@,
            block.hash@ == block.computed_hash(),
            block.hash@.len() == 64,
            block.is_signed(),
            block.signature@.len() == 64,
            block.links_to(previous_hash@),
    {
        let mut block = Block {
            index,
            timestamp,
            transactions,
            previous_hash: previous_hash.to_owned(),
            hash: String::new(),
            proposer: proposer.to_owned(),
            signature: String::new(),
        };
        block.hash = block.calculate_hash();
        block.signature = block.sign_block();
        block
    }

    /// The first block of a chain, stamped with `timestamp`: index 0, the
    /// previous hash "0", proposer "genesis" and one transaction from
    /// "genesis" to "genesis" of amount 0.
    pub fn genesis(timestamp: u128) -> (block: Block)
        ensures
            block.index == 0,
            block.timestamp == timestamp,
            block.transactions@.len() == 1,
            block.transactions@[0].sender@ == "genesis"@,
            block.transactions@[0].receiver@ == "genesis"@,
            block.transactions@[0].amount == 0,
            block.transactions@[0].hash@ == transaction_hash("genesis"@, "genesis"@, 0),
            block.previous_hash@ == "0"@,
            block.proposer@ == "genesis"@,
            block.hash@ == block.computed_hash(),
            block.hash@.len() == 64,
            block.is_signed(),
    {
        let tx = Transaction::new("genesis", "genesis", 0);
        let mut txs: Vec<Transaction> = Vec::new();
        txs.push(tx);
        Block::new(0, txs, "0", "genesis", timestamp)
    }

    /// Recomputes the hash from the block's fields.
    pub fn calculate_hash(&self) -> (hash: String)
        ensures
            hash@ == self.computed_hash(),
            hash@.len() == 64,
    {
        let content = block_content_bytes(
            self.index,
            self.timestamp,
            self.transactions.as_slice(),
            self.previous_hash.as_str(),
            self.proposer.as_str(),
        );
        let digest = sha256(content.as_slice());
        proof {
            lemma_hex_chars_len(digest@);
        }
        hex_encode(digest.as_slice())
    }

    /// Signs the stored hash on behalf of the proposer.
    pub fn sign_block(&self) -> (signature: String)
        ensures
            signature@ == block_signature(self.hash@, self.proposer@),
            signature@.len() == 64,
    {
        let mut content: Vec<u8> = Vec::new();
        append_bytes(&mut content, self.hash.as_str().as_bytes());
        append_bytes(&mut content, self.proposer.as_str().as_bytes());
        let digest = sha256(content.as_slice());
        proof {
            lemma_hex_chars_len(digest@);
        }
        hex_encode(digest.as_slice())
    }

    /// The block follows a block whose hash is `previous_hash`, and its stored
    /// hash matches its contents.
    pub fn is_valid(&self, previous_hash: &str) -> (valid: bool)
        ensures
            valid == self.links_to(previous_hash@),
    {
        if !str_eq(self.previous_hash.as_str(), previous_hash) {
            return false;
        }
        let recomputed = self.calculate_hash();
        if self.hash != recomputed {
            return false;
        }
        true
    }
}

} // verus!
