use rand::rngs::StdRng;
use rand::seq::SliceRandom;
use rand::{Rng, SeedableRng};
use vstd::prelude::*;

use crate::block::Block;
use crate::validators::Validators;

verus! {

broadcast use vstd::seq_lib::group_seq_properties;

#[verifier::external_type_specification]
#[verifier::external_body]
pub struct ExStdRng(StdRng);

/// Relies on rand's `SeedableRng::from_entropy`: a generator seeded from the
/// operating system's entropy source.
#[verifier::external_body]
fn entropy_rng() -> (r: StdRng) {
    StdRng::from_entropy()
}

/// Relies on rand's `SliceRandom::shuffle`: the entries are permuted in place.
#[verifier::external_body]
fn shuffle_pool(pool: &mut Vec<String>, rng: &mut StdRng)
    ensures
        final(pool)@.to_multiset() == old(pool)@.to_multiset(),
{
    pool.shuffle(rng)
}

/// Relies on rand's `Rng::gen_range` over `0..n`, which panics on an empty
/// range: a number below `n`.
#[verifier::external_body]
fn random_below(rng: &mut StdRng, n: usize) -> (r: usize)
    requires
        n > 0,
    ensures
        r < n,
{
    rng.gen_range(0..n)
}

/// Why a round's lottery could not pick a winner.
#[derive(Debug, PartialEq, Eq, Structural)]
pub enum LotteryError {
    NoEligibleWinner,
}

/// The validator identifiers of the proposals, in proposal order.
pub open spec fn proposer_ids(blocks: Seq<Block>) -> Seq<Seq<char>> {
    blocks.map_values(|b: Block| b.validator@)
}

/// The stake of `id`, an unregistered identifier counting as zero.
pub open spec fn stake_weight(reg: Map<Seq<char>, u32>, id: Seq<char>) -> nat {
    if reg.contains_key(id) {
        reg[id] as nat
    } else {
        0
    }
}

/// The lottery pool: each distinct identifier, at its first occurrence,
/// repeated as many times as its stake.
pub open spec fn pool_of(ids: Seq<Seq<char>>, reg: Map<Seq<char>, u32>) -> Seq<Seq<char>>
    decreases ids.len(),
{
    if ids.len() == 0 {
        Seq::empty()
    } else {
        let rest = pool_of(ids.drop_last(), reg);
        let id = ids.last();
        if ids.drop_last().contains(id) {
            rest
        } else {
            rest + Seq::new(stake_weight(reg, id), |_i: int| id)
        }
    }
}

/// How often `x` occurs in `s`.
pub open spec fn occurrences(s: Seq<Seq<char>>, x: Seq<char>) -> nat
    decreases s.len(),
{
    if s.len() == 0 {
        0
    } else {
        occurrences(s.drop_last(), x) + if s.last() == x { 1nat } else { 0nat }
    }
}

/// The identifiers as the library's views of the strings.
pub open spec fn id_views(pool: Seq<String>) -> Seq<Seq<char>> {
    pool.map_values(|s: String| s@)
}

/// An identifier is in the pool exactly when it proposed and has a positive stake.
pub proof fn lemma_pool_members(ids: Seq<Seq<char>>, reg: Map<Seq<char>, u32>, x: Seq<char>)
    ensures
        pool_of(ids, reg).contains(x) <==> ids.contains(x) && stake_weight(reg, x) > 0,
    decreases ids.len(),
{
    if ids.len() > 0 {
        let rest = ids.drop_last();
        lemma_pool_members(rest, reg, x);
        let id = ids.last();
        assert(ids =~= rest.push(id));
        let extra = Seq::new(stake_weight(reg, id), |_i: int| id);
        if !rest.contains(id) {
            if pool_of(ids, reg).contains(x) && !pool_of(rest, reg).contains(x) {
                let k = choose|k: int| 0 <= k < pool_of(ids, reg).len() && pool_of(ids, reg)[k] == x;
                assert(pool_of(ids, reg)[k] == extra[k - pool_of(rest, reg).len()]);
            }
            if x == id && stake_weight(reg, x) > 0 {
                assert(pool_of(ids, reg)[pool_of(rest, reg).len() as int] == x);
            }
            if pool_of(rest, reg).contains(x) {
                let k = choose|k: int| 0 <= k < pool_of(rest, reg).len() && pool_of(rest, reg)[k] == x;
                assert(pool_of(ids, reg)[k] == x);
            }
        }
        if x != id {
            if rest.contains(x) {
                let k = choose|k: int| 0 <= k < rest.len() && rest[k] == x;
                assert(ids[k] == x);
            }
            if ids.contains(x) {
                let k = choose|k: int| 0 <= k < ids.len() && ids[k] == x;
                assert(rest[k] == x);
            }
        } else {
            assert(ids[ids.len() - 1] == x);
        }
    }
}

proof fn lemma_occurrences_concat(a: Seq<Seq<char>>, b: Seq<Seq<char>>, x: Seq<char>)
    ensures
        occurrences(a + b, x) == occurrences(a, x) + occurrences(b, x),
    decreases b.len(),
{
    if b.len() == 0 {
        assert(a + b =~= a);
    } else {
        lemma_occurrences_concat(a, b.drop_last(), x);
        assert((a + b).drop_last() =~= a + b.drop_last());
    }
}

proof fn lemma_occurrences_repeat(n: nat, id: Seq<char>, x: Seq<char>)
    ensures
        occurrences(Seq::new(n, |_i: int| id), x) == (if id == x { n } else { 0 }),
    decreases n,
{
    if n > 0 {
        lemma_occurrences_repeat((n - 1) as nat, id, x);
        assert(Seq::new(n, |_i: int| id).drop_last() =~= Seq::new((n - 1) as nat, |_i: int| id));
    }
}

/// Each identifier that proposed occurs in the pool exactly as many times as
/// its stake, and no other identifier occurs: a uniform draw from the pool
/// picks a proposer with probability its stake over the pool's length,
/// whatever the order of the proposals.
pub proof fn lemma_pool_share(ids: Seq<Seq<char>>, reg: Map<Seq<char>, u32>, x: Seq<char>)
    ensures
        occurrences(pool_of(ids, reg), x) == (if ids.contains(x) { stake_weight(reg, x) } else { 0 }),
    decreases ids.len(),
{
    if ids.len() > 0 {
        let rest = ids.drop_last();
        let id = ids.last();
        lemma_pool_share(rest, reg, x);
        lemma_pool_members(rest, reg, x);
        assert(ids =~= rest.push(id));
        if !rest.contains(id) {
            lemma_occurrences_concat(pool_of(rest, reg), Seq::new(stake_weight(reg, id), |_i: int| id), x);
            lemma_occurrences_repeat(stake_weight(reg, id), id, x);
        }
        if x != id {
            if rest.contains(x) {
                let k = choose|k: int| 0 <= k < rest.len() && rest[k] == x;
                assert(ids[k] == x);
            }
            if ids.contains(x) {
                let k = choose|k: int| 0 <= k < ids.len() && ids[k] == x;
                assert(rest[k] == x);
            }
        } else {
            assert(ids[ids.len() - 1] == x);
        }
    }
}

/// An identifier whose stake is zero, or that is not registered, never
/// enters the pool, however many proposals it made.
pub proof fn lemma_zero_stake_excluded(ids: Seq<Seq<char>>, reg: Map<Seq<char>, u32>, x: Seq<char>)
    requires
        stake_weight(reg, x) == 0,
    ensures
        !pool_of(ids, reg).contains(x),
{
    lemma_pool_members(ids, reg, x);
}

/// When no proposer has a positive stake the pool is empty.
pub proof fn lemma_zero_stakes_empty_pool(ids: Seq<Seq<char>>, reg: Map<Seq<char>, u32>)
    requires
        forall|i: int| 0 <= i < ids.len() ==> stake_weight(reg, #[trigger] ids[i]) == 0,
    ensures
        pool_of(ids, reg).len() == 0,
{
    if pool_of(ids, reg).len() > 0 {
        let x = pool_of(ids, reg)[0];
        lemma_pool_members(ids, reg, x);
        let k = choose|k: int| 0 <= k < ids.len() && ids[k] == x;
    }
}

fn pool_contains(pool: &Vec<String>, id: &String) -> (r: bool)
    ensures
        r == id_views(pool@).contains(id@),
{
    let mut i: usize = 0;
    while i < pool.len()
        invariant
            i <= pool@.len(),
            forall|j: int| 0 <= j < i ==> pool@[j]@ != id@,
        decreases pool@.len() - i,
    {
        if pool[i] == *id {
            assert(id_views(pool@)[i as int] == id@);
            return true;
        }
        i = i + 1;
    }
    proof {
        if id_views(pool@).contains(id@) {
            let k = choose|k: int| 0 <= k < id_views(pool@).len() && id_views(pool@)[k] == id@;
            assert(pool@[k]@ == id@);
        }
    }
    false
}

/// Builds the lottery pool of a round's proposals.
pub fn lottery_pool(blocks: &[Block], validators: &Validators) -> (pool: Vec<String>)
    requires
        validators.wf(),
    ensures
        id_views(pool@) == pool_of(proposer_ids(blocks@), validators@),
{
    let ghost ids = proposer_ids(blocks@);
    let ghost reg = validators@;
    let mut pool: Vec<String> = Vec::new();
    let mut i: usize = 0;
    assert(ids.subrange(0, 0) =~= Seq::<Seq<char>>::empty());
    while i < blocks.len()
        invariant
            i <= blocks@.len(),
            ids == proposer_ids(blocks@),
            reg == validators@,
            validators.wf(),
            id_views(pool@) == pool_of(ids.subrange(0, i as int), reg),
        decreases blocks@.len() - i,
    {
        let ghost prefix = ids.subrange(0, i as int);
        let ghost next = ids.subrange(0, i + 1);
        assert(next.drop_last() =~= prefix);
        assert(next.last() == blocks@[i as int].validator@);
        let id = &blocks[i].validator;
        if !pool_contains(&pool, id) {
            let stake = match validators.stake(id.as_str()) {
                Some(s) => s,
                None => 0,
            };
            proof {
                lemma_pool_members(prefix, reg, id@);
            }
            let ghost start = id_views(pool@);
            let mut j: u32 = 0;
            while j < stake
                invariant
                    j <= stake,
                    id_views(pool@) == start + Seq::new(j as nat, |_k: int| id@),
                decreases stake - j,
            {
                let ghost prev = pool@;
                let c = id.clone();
                pool.push(c);
                assert(id_views(pool@) =~= id_views(prev).push(id@));
                j = j + 1;
                assert(id_views(pool@) =~= start + Seq::new(j as nat, |_k: int| id@));
            }
            assert(stake as nat == stake_weight(reg, id@));
            proof {
                if prefix.contains(id@) {
                    assert(id_views(pool@) =~= start);
                }
            }
        } else {
            proof {
                lemma_pool_members(prefix, reg, id@);
            }
        }
        i = i + 1;
    }
    assert(ids.subrange(0, blocks@.len() as int) =~= ids);
    pool
}

/// The entry of a non-empty pool at `index`, counted round the pool.
pub fn draw_from_pool(pool: &Vec<String>, index: usize) -> (r: Result<String, LotteryError>)
    ensures
        pool@.len() == 0 ==> r == Err::<String, LotteryError>(LotteryError::NoEligibleWinner),
        pool@.len() > 0 ==> (r matches Ok(w) && w@ == pool@[(index as int) % (pool@.len() as int)]@),
{
    if pool.len() == 0 {
        Err(LotteryError::NoEligibleWinner)
    } else {
        Ok(pool[index % pool.len()].clone())
    }
}

/// Draws the round's winner from the pool with an entropy-seeded generator.
pub fn select_winner(blocks: &[Block], validators: &Validators) -> (r: Result<String, LotteryError>)
    requires
        validators.wf(),
    ensures
        r is Err <==> pool_of(proposer_ids(blocks@), validators@).len() == 0,
        r matches Err(e) ==> e == LotteryError::NoEligibleWinner,
        r matches Ok(w) ==> pool_of(proposer_ids(blocks@), validators@).contains(w@),
{
    let mut pool = lottery_pool(blocks, validators);
    if pool.len() == 0 {
        return Err(LotteryError::NoEligibleWinner);
    }
    let ghost before = pool@;
    let mut rng = entropy_rng();
    shuffle_pool(&mut pool, &mut rng);
    proof {
        before.to_multiset_ensures();
        pool@.to_multiset_ensures();
        assert(pool@.len() == before.len());
    }
    let index = random_below(&mut rng, pool.len());
    let r = draw_from_pool(&pool, index);
    proof {
        let w = pool@[index as int];
        assert(pool@.contains(w));
        assert(pool@.to_multiset().count(w) > 0);
        assert(before.to_multiset().count(w) > 0);
        assert(before.contains(w));
        let k = choose|k: int| 0 <= k < before.len() && before[k] == w;
        assert(id_views(before)[k] == w@);
        assert(pool_of(proposer_ids(blocks@), validators@)[k] == w@);
        vstd::arithmetic::div_mod::lemma_small_mod(index as nat, pool@.len());
    }
    r
}

} // verus!
