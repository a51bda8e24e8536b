use aldebaran::block::{block_content_bytes, Block};
use aldebaran::blockchain::{Blockchain, ProposeOutcome};
use aldebaran::encoding::{append_bytes, decimal_bytes, hex_encode, str_eq};
use aldebaran::pos::ProofOfStake;
use aldebaran::rng::SimpleRng;
use aldebaran::transaction::{transaction_content_bytes, Transaction};
use aldebaran::validator::Validator;

const TX_ALICE_BOB_10: &str = "b47015ce36d64f894fab5f3e78f1cd300b2d7d42a6d315c51b56119fff67ba26";
const TX_GENESIS: &str = "2d1a98952fd92adc9dcd34d57bd6b5ccd8ff2a816dd5fc247560a2f97a347338";

#[test]
fn hex_encode_renders_lowercase_pairs() {
    assert_eq!(hex_encode(&[0xde, 0xad, 0x00, 0xff, 0x0a]), "dead00ff0a");
    assert_eq!(hex_encode(&[]), "");
}

#[test]
fn decimal_bytes_renders_like_format() {
    assert_eq!(decimal_bytes(0), b"0".to_vec());
    assert_eq!(decimal_bytes(1207), b"1207".to_vec());
    assert_eq!(decimal_bytes(u128::MAX), u128::MAX.to_string().into_bytes());
}

#[test]
fn append_bytes_concatenates() {
    let mut v = vec![1u8, 2];
    append_bytes(&mut v, &[3, 4, 5]);
    assert_eq!(v, vec![1, 2, 3, 4, 5]);
}

#[test]
fn str_eq_compares_contents() {
    assert!(str_eq("alice", "alice"));
    assert!(!str_eq("alice", "alicf"));
    assert!(!str_eq("alice", "alic"));
    assert!(str_eq("", ""));
    assert!(str_eq("€uro", "€uro"));
}

#[test]
fn transaction_content_is_sender_receiver_amount() {
    assert_eq!(transaction_content_bytes("alice", "bob", 10), b"alicebob10".to_vec());
    assert_eq!(
        transaction_content_bytes("ü", "b", u64::MAX),
        "üb18446744073709551615".as_bytes().to_vec()
    );
}

#[test]
fn transaction_hash_is_sha256_hex() {
    let tx = Transaction::new("alice", "bob", 10);
    assert_eq!(tx.sender, "alice");
    assert_eq!(tx.receiver, "bob");
    assert_eq!(tx.amount, 10);
    assert_eq!(tx.hash, TX_ALICE_BOB_10);
    assert_eq!(tx.hash.len(), 64);
}

#[test]
fn transaction_hash_of_non_ascii_fields() {
    let tx = Transaction::new("ünïcødé€", "bob", u64::MAX);
    assert_eq!(tx.hash, "35d6b32559de4325d362ad42559de5d02e8edd611bdd6db90db03c0bbcf61250");
}

#[test]
fn block_hash_and_signature() {
    let tx = Transaction::new("alice", "bob", 10);
    let block = Block::new(1, vec![tx], "prevhash", "carol", 1_700_000_000_000);
    assert_eq!(block.index, 1);
    assert_eq!(block.timestamp, 1_700_000_000_000);
    assert_eq!(block.previous_hash, "prevhash");
    assert_eq!(block.proposer, "carol");
    assert_eq!(block.hash, "fb69ef26d671a54d6676303049aa4b3e796870d1aaa96b636a77084a26dde1e5");
    assert_eq!(block.signature, "782903568b6c4162362457f33dc487f42ca1dde0116e8862f382738f1b8a18b9");
    assert_eq!(block.calculate_hash(), block.hash);
    assert_eq!(block.sign_block(), block.signature);
}

#[test]
fn block_content_concatenates_fields() {
    let tx = Transaction::new("alice", "bob", 10);
    let content = block_content_bytes(1, 1_700_000_000_000, &[tx], "prevhash", "carol");
    let expected = format!("11700000000000{}prevhashcarol", TX_ALICE_BOB_10);
    assert_eq!(content, expected.into_bytes());
}

#[test]
fn genesis_block_fields() {
    let g = Block::genesis(5);
    assert_eq!(g.index, 0);
    assert_eq!(g.previous_hash, "0");
    assert_eq!(g.proposer, "genesis");
    assert_eq!(g.transactions.len(), 1);
    assert_eq!(g.transactions[0].hash, TX_GENESIS);
    assert_eq!(g.hash, "996dccad1cc60754ef9bc5a0c7861c5c5592d8d2886670bda77dc7751c58741a");
    assert_eq!(g.signature, "deae2781bdda0d9d77de1d86510fe83379b2a77d28489695d1cf674b9a38413f");
    assert!(g.is_valid("0"));
}

#[test]
fn new_block_is_valid_against_its_predecessor() {
    let block = Block::new(3, vec![Transaction::new("a", "b", 1)], "abc", "bob", 77);
    assert!(block.is_valid("abc"));
    assert!(!block.is_valid("abd"));
    assert!(!block.is_valid(""));
}

#[test]
fn tampered_block_is_invalid() {
    let mut block = Block::new(2, vec![Transaction::new("a", "b", 1)], "p", "q", 10);
    assert!(block.is_valid("p"));
    block.transactions[0].hash = Transaction::new("a", "b", 2).hash;
    assert!(!block.is_valid("p"));
    let mut block2 = Block::new(2, vec![], "p", "q", 10);
    block2.hash.push('0');
    assert!(!block2.is_valid("p"));
}

#[test]
fn validator_new_has_no_rewards() {
    let v = Validator::new("dave", 7);
    assert_eq!(v.address, "dave");
    assert_eq!(v.stake, 7);
    assert_eq!(v.rewards, 0);
}

#[test]
fn register_validator_skips_zero_stake() {
    let mut pos = ProofOfStake::new();
    assert!(pos.validators.is_empty());
    assert_eq!(pos.total_stake, 0);
    pos.register_validator("zero", 0);
    assert!(pos.validators.is_empty());
    assert_eq!(pos.total_stake, 0);
    pos.register_validator("one", 5);
    pos.register_validator("two", 6);
    assert_eq!(pos.validators.len(), 2);
    assert_eq!(pos.validators[1].address, "two");
    assert_eq!(pos.total_stake, 11);
}

fn three_validators() -> ProofOfStake {
    let mut pos = ProofOfStake::new();
    pos.register_validator("alice", 100);
    pos.register_validator("bob", 50);
    pos.register_validator("carol", 30);
    pos
}

#[test]
fn election_windows_follow_stakes() {
    let pos = three_validators();
    assert_eq!(pos.proposer_index_for_roll(0), 0);
    assert_eq!(pos.proposer_index_for_roll(99), 0);
    assert_eq!(pos.proposer_index_for_roll(100), 1);
    assert_eq!(pos.proposer_index_for_roll(149), 1);
    assert_eq!(pos.proposer_index_for_roll(150), 2);
    assert_eq!(pos.proposer_index_for_roll(179), 2);
    assert_eq!(pos.proposer_index_for_roll(180), 2);
    assert_eq!(pos.proposer_index_for_roll(u64::MAX), 2);
}

#[test]
fn election_counts_match_stakes() {
    let pos = three_validators();
    let mut counts = [0u64; 3];
    for roll in 0..pos.total_stake {
        counts[pos.proposer_index_for_roll(roll)] += 1;
    }
    assert_eq!(counts, [100, 50, 30]);
}

#[test]
fn simple_rng_reference_values() {
    let mut rng = SimpleRng::seed_from_u64(0);
    assert_eq!(rng.next_u64(), 0xe220a8397b1dcdaf);
    let mut rng = SimpleRng::seed_from_u64(42);
    assert_eq!(rng.gen_range(0..180), 73);
    let mut rng = SimpleRng::seed_from_u64(7);
    assert_eq!(rng.gen_range(10..11), 10);
}

#[test]
fn select_proposer_follows_seed() {
    let pos = three_validators();
    assert_eq!(pos.select_proposer(42).unwrap().address, "alice");
    assert_eq!(pos.select_proposer(7).unwrap().address, "bob");
    assert_eq!(pos.select_proposer(1).unwrap().address, "alice");
    let a = pos.select_proposer(12345).unwrap().address.clone();
    let b = pos.select_proposer(12345).unwrap().address.clone();
    assert_eq!(a, b);
    let empty = ProofOfStake::new();
    assert!(empty.select_proposer(42).is_none());
}

#[test]
fn reward_validator_pays_first_match_only() {
    let mut pos = three_validators();
    pos.register_validator("bob", 5);
    pos.reward_validator("bob", 10);
    assert_eq!(pos.validators[1].stake, 60);
    assert_eq!(pos.validators[1].rewards, 10);
    assert_eq!(pos.validators[3].stake, 5);
    assert_eq!(pos.validators[3].rewards, 0);
    assert_eq!(pos.total_stake, 195);
    pos.reward_validator("mallory", 10);
    assert_eq!(pos.total_stake, 195);
}

#[test]
fn blockchain_new_state() {
    let bc = Blockchain::new(1_000);
    assert_eq!(bc.chain.len(), 1);
    assert_eq!(bc.chain[0].index, 0);
    assert_eq!(bc.chain[0].previous_hash, "0");
    assert_eq!(bc.chain[0].timestamp, 1_000);
    assert!(bc.pending_transactions.is_empty());
    assert_eq!(bc.pos.validators.len(), 3);
    assert_eq!(bc.pos.validators[0].address, "alice");
    assert_eq!(bc.pos.validators[2].stake, 30);
    assert_eq!(bc.pos.total_stake, 180);
    assert_eq!(bc.block_reward, 10);
    assert!(bc.is_chain_valid());
    assert_eq!(bc.first_invalid_block(), None);
}

#[test]
fn create_transaction_queues_it() {
    let mut bc = Blockchain::new(1_000);
    bc.create_transaction("alice", "bob", 10);
    assert_eq!(bc.pending_transactions.len(), 1);
    assert_eq!(bc.pending_transactions[0].hash, TX_ALICE_BOB_10);
    assert_eq!(bc.chain.len(), 1);
}

#[test]
fn propose_block_appends_and_rewards() {
    let mut bc = Blockchain::new(1_000);
    assert_eq!(bc.propose_block(42, 2_000), ProposeOutcome::NoPendingTransactions);
    bc.create_transaction("alice", "bob", 10);
    bc.create_transaction("bob", "carol", 5);
    assert_eq!(bc.propose_block(7, 2_000), ProposeOutcome::Accepted);
    assert_eq!(bc.chain.len(), 2);
    let block = &bc.chain[1];
    assert_eq!(block.index, 1);
    assert_eq!(block.timestamp, 2_000);
    assert_eq!(block.proposer, "bob");
    assert_eq!(block.previous_hash, bc.chain[0].hash);
    assert_eq!(block.transactions.len(), 2);
    assert_eq!(block.transactions[0].hash, TX_ALICE_BOB_10);
    assert!(bc.pending_transactions.is_empty());
    assert_eq!(bc.pos.validators[1].stake, 60);
    assert_eq!(bc.pos.validators[1].rewards, 10);
    assert_eq!(bc.pos.total_stake, 190);
    assert!(bc.is_chain_valid());
    bc.create_transaction("carol", "alice", 1);
    assert_eq!(bc.propose_block(42, 2_000), ProposeOutcome::Accepted);
    assert_eq!(bc.chain.len(), 3);
    assert_eq!(bc.chain[2].index, 2);
    assert_eq!(bc.chain[2].previous_hash, bc.chain[1].hash);
    assert_eq!(bc.pos.total_stake, 200);
    assert!(bc.is_chain_valid());
}

#[test]
fn propose_block_without_validators() {
    let mut bc = Blockchain::new(1_000);
    bc.pos = ProofOfStake::new();
    bc.create_transaction("alice", "bob", 10);
    assert_eq!(bc.propose_block(1, 2_000), ProposeOutcome::NoValidators);
    assert_eq!(bc.pending_transactions.len(), 1);
    assert_eq!(bc.chain.len(), 1);
}

#[test]
fn tampering_is_detected_by_chain_validation() {
    let mut bc = Blockchain::new(1_000);
    bc.create_transaction("alice", "bob", 10);
    bc.propose_block(3, 2_000);
    bc.create_transaction("bob", "alice", 4);
    bc.propose_block(4, 2_000);
    assert!(bc.is_chain_valid());
    bc.chain[1].transactions[0].amount = 1000;
    bc.chain[1].transactions[0].hash = Transaction::new("alice", "bob", 1000).hash;
    assert!(!bc.is_chain_valid());
    assert_eq!(bc.first_invalid_block(), Some(1));
}
