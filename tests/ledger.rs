use stake_chain::amount::{parse_amount, parse_trimmed_amount};
use stake_chain::block::{push_decimal, validator_id, validator_id_at, Block};
use stake_chain::chain::Blockchain;

#[test]
fn genesis_block_fields() {
    let chain = Blockchain::new();
    assert_eq!(chain.len(), 1);
    let tip = chain.last().unwrap();
    assert_eq!(tip.index, 0);
    assert_eq!(tip.previous_hash, "");
    assert_eq!(tip.validator, "genesis");
    assert_eq!(tip.hash(), tip.hash);
}

#[test]
fn append_valid_candidate() {
    let mut chain = Blockchain::new();
    let candidate = chain.propose("v1".to_string());
    assert_eq!(candidate.index, 1);
    assert!(chain.block_is_valid(&candidate));
    assert!(chain.add_block(candidate.clone()).is_ok());
    assert_eq!(chain.len(), 2);
    assert_eq!(chain.last().unwrap().hash, candidate.hash);
}

#[test]
fn append_rejects_wrong_index() {
    let mut chain = Blockchain::new();
    let tip = chain.last().unwrap();
    let bad = Block::new(2, tip.hash.clone(), "v1".to_string());
    assert!(!chain.block_is_valid(&bad));
    assert_eq!(chain.add_block(bad), Err("Invalid block".to_string()));
    assert_eq!(chain.len(), 1);
}

#[test]
fn append_rejects_wrong_previous_hash() {
    let mut chain = Blockchain::new();
    let bad = Block::new(1, "0000".to_string(), "v1".to_string());
    assert_eq!(chain.add_block(bad), Err("Invalid block".to_string()));
    assert_eq!(chain.len(), 1);
}

#[test]
fn append_rejects_tampered_hash() {
    let mut chain = Blockchain::new();
    let mut bad = chain.propose("v1".to_string());
    bad.validator = "v2".to_string();
    assert_eq!(chain.add_block(bad), Err("Invalid block".to_string()));
    assert_eq!(chain.len(), 1);
}

#[test]
fn hash_known_value() {
    let b = Block::with_timestamp(0, 0, String::new(), "genesis".to_string());
    assert_eq!(b.hash, "e2a1f4f34d6d2ade6eaf221683ee2bcf1c579ca640310954c2e0f0e3457783c3");
    let c = Block::with_timestamp(11, 700000000, "abc".to_string(), "v1".to_string());
    assert_eq!(c.hash, "4615c6cdc07c31d0779f98dbf2b1e28e9d167b67c594ea772c5c740904e50c2f");
}

#[test]
fn hash_is_deterministic() {
    let a = Block::with_timestamp(3, 42, "prev".to_string(), "v1".to_string());
    let b = Block::with_timestamp(3, 42, "prev".to_string(), "v1".to_string());
    assert_eq!(a.hash(), a.hash());
    assert_eq!(a.hash, b.hash);
    assert_eq!(a.hash.len(), 64);
}

#[test]
fn hash_changes_with_each_field() {
    let base = Block::with_timestamp(3, 42, "prev".to_string(), "v1".to_string());
    let others = [
        Block::with_timestamp(4, 42, "prev".to_string(), "v1".to_string()),
        Block::with_timestamp(3, 43, "prev".to_string(), "v1".to_string()),
        Block::with_timestamp(3, 42, "prew".to_string(), "v1".to_string()),
        Block::with_timestamp(3, 42, "prev".to_string(), "v2".to_string()),
    ];
    for o in others.iter() {
        assert_ne!(o.hash, base.hash);
    }
}

#[test]
fn decimal_digits() {
    let mut s = String::from("x");
    push_decimal(&mut s, 0);
    assert_eq!(s, "x0");
    push_decimal(&mut s, 1907);
    assert_eq!(s, "x01907");
    let mut t = String::new();
    push_decimal(&mut t, u64::MAX);
    assert_eq!(t, "18446744073709551615");
}

#[test]
fn block_description() {
    let b = Block::with_timestamp(7, 1, "p".to_string(), "v".to_string());
    let expected = format!("Block #7 [Hash: {}, Prev. Hash: p, Validator: v]", b.hash);
    assert_eq!(b.to_string(), expected);
}

#[test]
fn ledger_description() {
    let chain = Blockchain::new();
    let tip = chain.last().unwrap();
    assert_eq!(chain.to_string(), format!("{}\n", tip.to_string()));
}

#[test]
fn validator_id_known_value() {
    let id = validator_id_at("127.0.0.1:5000", 1234);
    assert_eq!(id, "285a817614c22662905a1b67fa4d8685c11a2df830c9ddd185d642744b199e88");
    assert_eq!(validator_id("127.0.0.1:5000").len(), 64);
}

#[test]
fn amount_parsing() {
    assert_eq!(parse_amount("42\n"), Some(42));
    assert_eq!(parse_amount("  +7 \r\n"), Some(7));
    assert_eq!(parse_amount("007"), Some(7));
    assert_eq!(parse_amount("4294967295"), Some(4294967295));
    assert_eq!(parse_amount("4294967296"), None);
    assert_eq!(parse_amount("99999999999999999999"), None);
    assert_eq!(parse_amount(""), None);
    assert_eq!(parse_amount("+"), None);
    assert_eq!(parse_amount("-1"), None);
    assert_eq!(parse_amount("12a"), None);
    assert_eq!(parse_amount("1 2"), None);
    assert_eq!(parse_trimmed_amount(" 5"), None);
    assert_eq!(parse_trimmed_amount("5"), Some(5));
}
