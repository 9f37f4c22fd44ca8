use stake_chain::block::Block;
use stake_chain::chain::Blockchain;
use stake_chain::lottery::{draw_from_pool, lottery_pool, select_winner, LotteryError};
use stake_chain::round::{commit_winner, select_and_add_winner, Aggregator, RoundOutcome};
use stake_chain::validators::Validators;

fn registry(entries: &[(&str, u32)]) -> Validators {
    let mut v = Validators::new();
    for (k, s) in entries {
        v.insert(k, *s);
    }
    v
}

#[test]
fn registry_upsert_and_lookup() {
    let mut v = Validators::new();
    assert_eq!(v.len(), 0);
    assert_eq!(v.stake("a"), None);
    v.insert("a", 3);
    v.insert("b", 1);
    assert_eq!(v.len(), 2);
    v.insert("a", 9);
    assert_eq!(v.len(), 2);
    assert_eq!(v.stake("a"), Some(9));
    assert_eq!(v.stake("b"), Some(1));
    assert_eq!(v.stake("c"), None);
}

#[test]
fn pool_holds_each_stake_once() {
    let chain = Blockchain::new();
    let v = registry(&[("A", 3), ("B", 1), ("Z", 0)]);
    let blocks = vec![
        chain.propose("A".to_string()),
        chain.propose("Z".to_string()),
        chain.propose("B".to_string()),
        chain.propose("A".to_string()),
        chain.propose("U".to_string()),
    ];
    let pool = lottery_pool(&blocks, &v);
    assert_eq!(pool, vec!["A", "A", "A", "B"]);
}

#[test]
fn draw_counts_round_the_pool() {
    let pool = vec!["A".to_string(), "B".to_string(), "C".to_string()];
    assert_eq!(draw_from_pool(&pool, 1), Ok("B".to_string()));
    assert_eq!(draw_from_pool(&pool, 5), Ok("C".to_string()));
    assert_eq!(draw_from_pool(&Vec::new(), 5), Err(LotteryError::NoEligibleWinner));
}

#[test]
fn lottery_is_stake_weighted() {
    let chain = Blockchain::new();
    let v = registry(&[("A", 3), ("B", 1)]);
    let blocks = vec![chain.propose("A".to_string()), chain.propose("B".to_string())];
    let mut a = 0u32;
    let mut b = 0u32;
    for _ in 0..4000 {
        match select_winner(&blocks, &v) {
            Ok(w) if w == "A" => a += 1,
            Ok(w) if w == "B" => b += 1,
            other => panic!("unexpected {:?}", other),
        }
    }
    assert_eq!(a + b, 4000);
    let ratio = a as f64 / b as f64;
    assert!(ratio > 2.4 && ratio < 3.8, "ratio {}", ratio);
}

#[test]
fn zero_stake_never_wins() {
    let chain = Blockchain::new();
    let v = registry(&[("A", 1), ("Z", 0)]);
    let mut blocks = Vec::new();
    for _ in 0..10 {
        blocks.push(chain.propose("Z".to_string()));
    }
    blocks.push(chain.propose("A".to_string()));
    for _ in 0..200 {
        assert_eq!(select_winner(&blocks, &v), Ok("A".to_string()));
    }
}

#[test]
fn empty_pool_reports_no_winner() {
    let mut chain = Blockchain::new();
    let v = registry(&[("A", 0), ("B", 0)]);
    let blocks = vec![chain.propose("A".to_string()), chain.propose("B".to_string())];
    assert_eq!(select_winner(&blocks, &v), Err(LotteryError::NoEligibleWinner));
    assert_eq!(select_and_add_winner(&blocks, &mut chain, &v), Err(LotteryError::NoEligibleWinner));
    assert_eq!(chain.len(), 1);
    assert_eq!(select_winner(&[], &v), Err(LotteryError::NoEligibleWinner));
}

#[test]
fn round_with_zero_stakes_clears_without_commit() {
    let mut chain = Blockchain::new();
    let v = registry(&[("A", 0), ("B", 0)]);
    let mut agg = Aggregator::new();
    let a = chain.propose("A".to_string());
    let b = chain.propose("B".to_string());
    assert!(matches!(agg.receive(a, &mut chain, &v), RoundOutcome::Pending));
    assert!(matches!(agg.receive(b, &mut chain, &v), RoundOutcome::NoEligibleWinner));
    assert_eq!(chain.len(), 1);
}

#[test]
fn round_resolves_at_full_participation() {
    let mut chain = Blockchain::new();
    let v = registry(&[("v1", 1), ("v2", 1), ("v3", 1)]);
    let mut agg = Aggregator::new();
    let first = chain.propose("v1".to_string());
    let first_again = chain.propose("v1".to_string());
    let second = chain.propose("v2".to_string());
    let third = chain.propose("v3".to_string());
    assert!(matches!(agg.receive(first, &mut chain, &v), RoundOutcome::Pending));
    assert!(matches!(agg.receive(first_again, &mut chain, &v), RoundOutcome::Pending));
    assert!(matches!(agg.receive(second, &mut chain, &v), RoundOutcome::Pending));
    assert_eq!(chain.len(), 1);
    assert!(matches!(agg.receive(third, &mut chain, &v), RoundOutcome::Decided(_)));
    assert_eq!(chain.len(), 2);
    let next = chain.propose("v1".to_string());
    assert!(matches!(agg.receive(next, &mut chain, &v), RoundOutcome::Pending));
    assert_eq!(chain.len(), 2);
}

#[test]
fn two_validators_end_to_end() {
    let mut chain = Blockchain::new();
    let v = registry(&[("v1", 5), ("v2", 5)]);
    let genesis_hash = chain.last().unwrap().hash;
    let b1 = chain.propose("v1".to_string());
    let b2 = chain.propose("v2".to_string());
    assert_eq!(b1.index, 1);
    assert_eq!(b2.previous_hash, genesis_hash);
    let mut agg = Aggregator::new();
    assert!(matches!(agg.receive(b1.clone(), &mut chain, &v), RoundOutcome::Pending));
    let winner = match agg.receive(b2.clone(), &mut chain, &v) {
        RoundOutcome::Decided(w) => w,
        _ => panic!("round not decided"),
    };
    assert_eq!(chain.len(), 2);
    let tip = chain.last().unwrap();
    assert_eq!(tip.validator, winner);
    let expected = if winner == "v1" { b1 } else { b2 };
    assert_eq!(tip.hash, expected.hash);
}

#[test]
fn duplicate_winner_proposal_is_rejected() {
    let mut chain = Blockchain::new();
    let b1 = chain.propose("v1".to_string());
    let b1_late = Block::with_timestamp(1, 99, b1.previous_hash.clone(), "v1".to_string());
    let b2 = chain.propose("v2".to_string());
    let appended = commit_winner(&mut chain, &[b1.clone(), b2, b1_late], &"v1".to_string());
    assert_eq!(appended, 1);
    assert_eq!(chain.len(), 2);
    assert_eq!(chain.last().unwrap().hash, b1.hash);
}
