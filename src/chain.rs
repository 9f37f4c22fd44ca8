use vstd::prelude::*;

use crate::block::Block;
use vstd::string::StringExecFns;

verus! {

/// Whether `next` may follow `prev` in the ledger: the next index, the
/// previous block's hash, and a hash that its own fields reproduce.
pub open spec fn links_to(prev: Block, next: Block) -> bool {
    &&& next.index == prev.index + 1
    &&& next.previous_hash@ == prev.hash@
    &&& next.is_sealed()
}

/// The fixed first block of every ledger.
pub open spec fn is_genesis(b: Block) -> bool {
    &&& b.index == 0
    &&& b.previous_hash@ == Seq::<char>::empty()
    &&& b.validator@ == seq!['g', 'e', 'n', 'e', 's', 'i', 's']
    &&& b.is_sealed()
}

/// A well-formed ledger: genesis first, then each block linked to the one
/// before it.
pub open spec fn valid_chain(blocks: Seq<Block>) -> bool {
    &&& blocks.len() > 0
    &&& is_genesis(blocks[0])
    &&& forall|i: int| 0 < i < blocks.len() ==> #[trigger] links_to(blocks[i - 1], blocks[i])
}

/// The ledger's description: each block's line, each followed by a newline.
pub open spec fn chain_text(blocks: Seq<Block>) -> Seq<char>
    decreases blocks.len(),
{
    if blocks.len() == 0 {
        Seq::empty()
    } else {
        chain_text(blocks.drop_last()) + blocks.last().text() + "\n"@
    }
}

/// In a well-formed ledger each block's index is its position.
pub proof fn lemma_index_is_position(blocks: Seq<Block>, i: int)
    requires
        valid_chain(blocks),
        0 <= i < blocks.len(),
    ensures
        blocks[i].index == i,
    decreases i,
{
    if i > 0 {
        lemma_index_is_position(blocks, i - 1);
        assert(links_to(blocks[i - 1], blocks[i]));
    }
}

/// The append-only ledger of committed blocks.
pub struct Blockchain {
    chain: Vec<Block>,
}

impl View for Blockchain {
    type V = Seq<Block>;

    closed spec fn view(&self) -> Seq<Block> {
        self.chain@
    }
}

impl Blockchain {
    /// The ledger's invariant holds.
    pub open spec fn wf(&self) -> bool {
        valid_chain(self@)
    }

    /// A ledger that holds the genesis block alone.
    pub fn new() -> (r: Blockchain)
        ensures
            r.wf(),
            r@.len() == 1,
    {
        let genesis = Block::new(0, String::new(), String::from_str("genesis"));
        proof { reveal_strlit("genesis"); }
        assert(genesis.validator@ =~= seq!['g', 'e', 'n', 'e', 's', 'i', 's']);
        let mut chain = Vec::new();
        chain.push(genesis);
        Blockchain { chain }
    }

    /// Appends `block` when it extends the tip; otherwise the ledger is
    /// left as it was.
    pub fn add_block(&mut self, block: Block) -> (r: Result<(), String>)
        requires
            old(self).wf(),
        ensures
            final(self).wf(),
            r is Ok <==> links_to(old(self)@.last(), block),
            r is Ok ==> final(self)@ == old(self)@.push(block),
            r is Err ==> final(self)@ == old(self)@,
            r matches Err(e) ==> e@ == seq!['I', 'n', 'v', 'a', 'l', 'i', 'd', ' ', 'b', 'l', 'o', 'c', 'k'],
    {
        if self.block_is_valid(&block) {
            self.chain.push(block);
            assert forall|i: int| 0 < i < self@.len() implies #[trigger] links_to(self@[i - 1], self@[i]) by {
                if i < old(self)@.len() {
                    assert(links_to(old(self)@[i - 1], old(self)@[i]));
                }
            }
            Ok(())
        } else {
            proof { reveal_strlit("Invalid block"); }
            Err(String::from_str("Invalid block"))
        }
    }

    /// The tip of the ledger, which always exists.
    pub fn last(&self) -> (r: Option<Block>)
        requires
            self.wf(),
        ensures
            r == Some(self@.last()),
    {
        let n = self.chain.len();
        Some(self.chain[n - 1].clone())
    }

    /// Whether `new_block` may be appended at the tip.
    pub fn block_is_valid(&self, new_block: &Block) -> (r: bool)
        requires
            self.wf(),
        ensures
            r == links_to(self@.last(), *new_block),
    {
        let n = self.chain.len();
        let prev = &self.chain[n - 1];
        if prev.index >= usize::MAX {
            return false;
        }
        prev.index + 1 == new_block.index && prev.hash == new_block.previous_hash
            && new_block.hash() == new_block.hash
    }

    /// Describes the whole ledger, one block per line.
    pub fn to_string(&self) -> (r: String)
        ensures
            r@ == chain_text(self@),
    {
        let mut s = String::new();
        let mut i: usize = 0;
        assert(self@.subrange(0, 0) =~= Seq::<Block>::empty());
        while i < self.chain.len()
            invariant
                i <= self@.len(),
                s@ == chain_text(self@.subrange(0, i as int)),
            decreases self@.len() - i,
        {
            let line = self.chain[i].to_string();
            s.append(line.as_str());
            s.append("\n");
            assert(self@.subrange(0, i + 1).drop_last() =~= self@.subrange(0, i as int));
            i = i + 1;
        }
        assert(self@.subrange(0, self@.len() as int) =~= self@);
        s
    }

    /// A candidate that extends the tip, made by `validator` now.
    pub fn propose(&self, validator: String) -> (r: Block)
        requires
            self.wf(),
        ensures
            links_to(self@.last(), r),
            r.validator == validator,
    {
        let n = self.chain.len();
        let tip = &self.chain[n - 1];
        proof {
            lemma_index_is_position(self@, n - 1);
            if n > 1 {
                let i: int = n - 1;
                assert(links_to(self@[i - 1], self@[i]));
            }
        }
        Block::new(tip.index + 1, tip.hash(), validator)
    }

    /// The number of blocks in the ledger.
    pub fn len(&self) -> (r: usize)
        ensures
            r == self@.len(),
    {
        self.chain.len()
    }
}

} // verus!
