use vstd::prelude::*;

use crate::block::Block;
use crate::chain::{links_to, Blockchain};
use crate::lottery::{pool_of, proposer_ids, select_winner, LotteryError};
use crate::validators::Validators;

verus! {

/// The ledger after trying, in proposal order, to append every proposal
/// of `winner`; each is kept only if it extends the tip at that moment.
pub open spec fn commit_proposals(chain: Seq<Block>, blocks: Seq<Block>, winner: Seq<char>) -> Seq<Block>
    decreases blocks.len(),
{
    if blocks.len() == 0 {
        chain
    } else {
        let before = commit_proposals(chain, blocks.drop_last(), winner);
        let b = blocks.last();
        if b.validator@ == winner && links_to(before.last(), b) {
            before.push(b)
        } else {
            before
        }
    }
}

proof fn lemma_commit_prefix(chain: Seq<Block>, blocks: Seq<Block>, winner: Seq<char>, k: int, j: int)
    requires
        chain.len() > 0,
        0 <= k < blocks.len(),
        0 <= j <= blocks.len(),
        blocks[k].validator@ == winner,
        links_to(chain.last(), blocks[k]),
        forall|i: int| 0 <= i < blocks.len() && i != k ==> (#[trigger] blocks[i]).validator@ != winner,
    ensures
        commit_proposals(chain, blocks.subrange(0, j), winner)
            == (if j > k { chain.push(blocks[k]) } else { chain }),
    decreases j,
{
    if j > 0 {
        lemma_commit_prefix(chain, blocks, winner, k, j - 1);
        assert(blocks.subrange(0, j).drop_last() =~= blocks.subrange(0, j - 1));
        assert(blocks.subrange(0, j).last() == blocks[j - 1]);
    } else {
        assert(blocks.subrange(0, j) =~= Seq::<Block>::empty());
    }
}

/// When every proposal of a round extends the tip and no validator proposed
/// twice, committing the winner's proposals appends exactly the winner's
/// block: the ledger grows by one and the other proposals are dropped.
pub proof fn lemma_single_commit(chain: Seq<Block>, blocks: Seq<Block>, k: int)
    requires
        chain.len() > 0,
        0 <= k < blocks.len(),
        forall|i: int| 0 <= i < blocks.len() ==> links_to(chain.last(), #[trigger] blocks[i]),
        proposer_ids(blocks).no_duplicates(),
    ensures
        commit_proposals(chain, blocks, blocks[k].validator@) == chain.push(blocks[k]),
{
    let winner = blocks[k].validator@;
    assert forall|i: int| 0 <= i < blocks.len() && i != k implies (#[trigger] blocks[i]).validator@ != winner by {
        assert(proposer_ids(blocks)[i] != proposer_ids(blocks)[k]);
    }
    lemma_commit_prefix(chain, blocks, winner, k, blocks.len() as int);
    assert(blocks.subrange(0, blocks.len() as int) =~= blocks);
}

/// Tries to append, in order, each proposal of `winner`. Rejected ones are
/// dropped and the ledger stays valid; the count of appended blocks is returned.
pub fn commit_winner(chain: &mut Blockchain, blocks: &[Block], winner: &String) -> (appended: usize)
    requires
        old(chain).wf(),
    ensures
        final(chain).wf(),
        final(chain)@ == commit_proposals(old(chain)@, blocks@, winner@),
        appended == final(chain)@.len() - old(chain)@.len(),
{
    let mut appended: usize = 0;
    let mut i: usize = 0;
    assert(blocks@.subrange(0, 0) =~= Seq::<Block>::empty());
    while i < blocks.len()
        invariant
            i <= blocks@.len(),
            chain.wf(),
            chain@ == commit_proposals(old(chain)@, blocks@.subrange(0, i as int), winner@),
            chain@.len() == old(chain)@.len() + appended,
            appended <= i,
        decreases blocks@.len() - i,
    {
        assert(blocks@.subrange(0, i + 1).drop_last() =~= blocks@.subrange(0, i as int));
        if blocks[i].validator == *winner {
            if chain.add_block(blocks[i].clone()).is_ok() {
                appended = appended + 1;
            }
        }
        i = i + 1;
    }
    assert(blocks@.subrange(0, blocks@.len() as int) =~= blocks@);
    appended
}

/// Draws a winner among a round's proposals and appends the winner's
/// proposals; with an empty pool nothing is appended.
pub fn select_and_add_winner(temp_blocks: &[Block], blockchain: &mut Blockchain, validators: &Validators) -> (r: Result<String, LotteryError>)
    requires
        old(blockchain).wf(),
        validators.wf(),
    ensures
        final(blockchain).wf(),
        r is Err <==> pool_of(proposer_ids(temp_blocks@), validators@).len() == 0,
        r matches Err(e) ==> e == LotteryError::NoEligibleWinner && final(blockchain)@ == old(blockchain)@,
        r matches Ok(w) ==> pool_of(proposer_ids(temp_blocks@), validators@).contains(w@)
            && final(blockchain)@ == commit_proposals(old(blockchain)@, temp_blocks@, w@),
{
    match select_winner(temp_blocks, validators) {
        Ok(winner) => {
            commit_winner(blockchain, temp_blocks, &winner);
            Ok(winner)
        },
        Err(e) => Err(e),
    }
}

/// A round ends once as many distinct validators have proposed as are
/// registered.
pub open spec fn round_complete(proposals: Seq<Block>, registry_size: nat) -> bool {
    proposer_ids(proposals).to_set().len() == registry_size
}

proof fn lemma_push_to_set(s: Seq<Seq<char>>, x: Seq<char>)
    ensures
        s.push(x).to_set() == s.to_set().insert(x),
{
    assert forall|y: Seq<char>| #[trigger] s.push(x).to_set().contains(y) <==> s.to_set().insert(x).contains(y) by {
        if s.push(x).contains(y) && y != x {
            let k = choose|k: int| 0 <= k < s.push(x).len() && s.push(x)[k] == y;
            assert(s[k] == y);
        }
        if s.contains(y) {
            let k = choose|k: int| 0 <= k < s.len() && s[k] == y;
            assert(s.push(x)[k] == y);
        }
        if y == x {
            assert(s.push(x)[s.len() as int] == y);
        }
    }
    assert(s.push(x).to_set() =~= s.to_set().insert(x));
}

/// What became of a round after a proposal arrived.
pub enum RoundOutcome {
    /// Not every registered validator has proposed yet.
    Pending,
    /// The round was resolved in favour of this validator.
    Decided(String),
    /// The round was resolved, but no proposer had a positive stake.
    NoEligibleWinner,
}

/// The owner of the current round's state: the proposals received and the
/// validators that made them.
pub struct Aggregator {
    proposals: Vec<Block>,
    proposers: Vec<String>,
}

impl View for Aggregator {
    type V = Seq<Block>;

    closed spec fn view(&self) -> Seq<Block> {
        self.proposals@
    }
}

impl Aggregator {
    closed spec fn proposer_views(&self) -> Seq<Seq<char>> {
        self.proposers@.map_values(|s: String| s@)
    }

    /// The proposer list holds each proposer of the round once.
    pub closed spec fn wf(&self) -> bool {
        &&& self.proposer_views().no_duplicates()
        &&& self.proposer_views().to_set() == proposer_ids(self.proposals@).to_set()
    }

    /// An aggregator at the start of a round.
    pub fn new() -> (r: Aggregator)
        ensures
            r.wf(),
            r@ == Seq::<Block>::empty(),
    {
        let r = Aggregator { proposals: Vec::new(), proposers: Vec::new() };
        assert(r.proposer_views() =~= Seq::<Seq<char>>::empty());
        assert(proposer_ids(r.proposals@) =~= Seq::<Seq<char>>::empty());
        r
    }

    fn has_proposed(&self, id: &String) -> (r: bool)
        ensures
            r == self.proposer_views().contains(id@),
    {
        let mut i: usize = 0;
        while i < self.proposers.len()
            invariant
                i <= self.proposers@.len(),
                forall|j: int| 0 <= j < i ==> self.proposers@[j]@ != id@,
            decreases self.proposers@.len() - i,
        {
            if self.proposers[i] == *id {
                assert(self.proposer_views()[i as int] == id@);
                return true;
            }
            i = i + 1;
        }
        proof {
            if self.proposer_views().contains(id@) {
                let k = choose|k: int| 0 <= k < self.proposer_views().len() && self.proposer_views()[k] == id@;
                assert(self.proposers@[k]@ == id@);
            }
        }
        false
    }

    /// Records a proposal. When the round is then complete, its winner is
    /// drawn, the winner's proposals are appended to the ledger, and the
    /// round starts afresh; otherwise the ledger is untouched.
    pub fn receive(&mut self, block: Block, chain: &mut Blockchain, validators: &Validators) -> (r: RoundOutcome)
        requires
            old(self).wf(),
            old(chain).wf(),
            validators.wf(),
        ensures
            final(self).wf(),
            final(chain).wf(),
            ({
                let round = old(self)@.push(block);
                let pool = pool_of(proposer_ids(round), validators@);
                &&& !round_complete(round, validators@.len()) ==> r is Pending
                    && final(self)@ == round && final(chain)@ == old(chain)@
                &&& round_complete(round, validators@.len()) ==> !(r is Pending)
                    && final(self)@ == Seq::<Block>::empty()
                &&& r is NoEligibleWinner ==> pool.len() == 0 && final(chain)@ == old(chain)@
                &&& r matches RoundOutcome::Decided(w) ==> pool.len() > 0 && pool.contains(w@)
                    && final(chain)@ == commit_proposals(old(chain)@, round, w@)
                &&& round_complete(round, validators@.len()) && pool.len() == 0 ==> r is NoEligibleWinner
            }),
    {
        let ghost round = old(self)@.push(block);
        let id = block.validator.clone();
        self.proposals.push(block);
        proof {
            assert(proposer_ids(round) =~= proposer_ids(old(self)@).push(id@));
            lemma_push_to_set(proposer_ids(old(self)@), id@);
        }
        if !self.has_proposed(&id) {
            let ghost before = self.proposer_views();
            self.proposers.push(id);
            proof {
                assert(self.proposer_views() =~= before.push(id@));
                lemma_push_to_set(before, id@);
            }
        } else {
            proof {
                assert(self.proposer_views().to_set().insert(id@) =~= self.proposer_views().to_set());
            }
        }
        proof {
            self.proposer_views().unique_seq_to_set();
        }
        if self.proposers.len() == validators.len() {
            let result = select_and_add_winner(self.proposals.as_slice(), chain, validators);
            self.proposals = Vec::new();
            self.proposers = Vec::new();
            proof {
                assert(self.proposer_views() =~= Seq::<Seq<char>>::empty());
                assert(proposer_ids(self.proposals@) =~= Seq::<Seq<char>>::empty());
            }
            match result {
                Ok(w) => RoundOutcome::Decided(w),
                Err(_) => RoundOutcome::NoEligibleWinner,
            }
        } else {
            RoundOutcome::Pending
        }
    }
}

} // verus!
