use vstd::prelude::*;
use crate::block::{Block, BlockView, Content, genesis_view, header_hash_bytes};
use crate::config::{DIFFICULTY, difficulty_target, gen_difficulty_array};
use crate::hash::{H256, be_value, zero_hash};
use crate::transaction::SignedTransaction;

verus! {

/// A content-addressed store of blocks with a tip, a length, and a chain-wide
/// difficulty. Every non-genesis block's parent resolves to a known block;
/// the tip is the known block of greatest distance from genesis, ties broken
/// by first-seen.
pub struct Blockchain {
    blocks: Vec<Block>,
    tip_idx: usize,
    difficulty: H256,
    check_trans: bool,
}

/// Whether some block of `blocks` has hash `h`.
pub open spec fn blocks_have(blocks: Seq<BlockView>, h: Seq<u8>) -> bool {
    exists|i: int| 0 <= i < blocks.len() && blocks[i].hash == h
}

/// The position of the block with hash `h`, unique when hashes are.
pub open spec fn position_of(blocks: Seq<BlockView>, h: Seq<u8>) -> int {
    choose|i: int| 0 <= i < blocks.len() && blocks[i].hash == h
}

/// Whether block `i` links to a known parent one index-step up the chain.
pub open spec fn parent_link_ok(blocks: Seq<BlockView>, i: int) -> bool {
    exists|j: int|
        0 <= j < blocks.len() && blocks[j].hash == blocks[i].header.parent && blocks[i].index
            == blocks[j].index + 1
}

impl Blockchain {
    /// The stored blocks, as views, in insertion order; genesis first.
    pub closed spec fn spec_blocks(self) -> Seq<BlockView> {
        Seq::new(self.blocks@.len(), |i: int| self.blocks@[i]@)
    }

    /// The position of the tip.
    pub closed spec fn spec_tip_idx(self) -> int {
        self.tip_idx as int
    }

    /// The chain-wide difficulty target.
    pub closed spec fn spec_difficulty(self) -> Seq<u8> {
        self.difficulty@
    }

    /// Whether inserts with check verify transaction signatures.
    pub closed spec fn spec_check_trans(self) -> bool {
        self.check_trans
    }

    /// Whether a block with hash `h` is known.
    pub open spec fn has_block(self, h: Seq<u8>) -> bool {
        blocks_have(self.spec_blocks(), h)
    }

    /// The tip's hash.
    pub open spec fn spec_tip(self) -> Seq<u8> {
        self.spec_blocks()[self.spec_tip_idx()].hash
    }

    /// Blocks from genesis to tip, inclusive.
    pub open spec fn spec_length(self) -> int {
        self.spec_blocks()[self.spec_tip_idx()].index + 1
    }

    /// Chain invariants: genesis sits first with the zero hash and index zero;
    /// hashes are unique; every other block carries the hash its header
    /// dictates, links to a known parent, and sits no deeper than its
    /// position; the tip is the first block of greatest index.
    pub open spec fn wf(self) -> bool {
        let blocks = self.spec_blocks();
        &&& blocks.len() >= 1
        &&& blocks[0].hash == zero_hash()
        &&& blocks[0].index == 0
        &&& forall|i: int, j: int| 0 <= i < j < blocks.len() ==> blocks[i].hash != blocks[j].hash
        &&& forall|i: int| 1 <= i < blocks.len() ==> (#[trigger] blocks[i]).hash
            == header_hash_bytes(blocks[i].header)
        &&& forall|i: int| 1 <= i < blocks.len() ==> parent_link_ok(blocks, i)
        &&& forall|i: int| 0 <= i < blocks.len() ==> 0 <= (#[trigger] blocks[i]).index <= i
        &&& 0 <= self.spec_tip_idx() < blocks.len()
        &&& forall|i: int| 0 <= i < blocks.len() ==> (#[trigger] blocks[i]).index
            <= blocks[self.spec_tip_idx()].index
        &&& forall|i: int| 0 <= i < self.spec_tip_idx() ==> (#[trigger] blocks[i]).index
            < blocks[self.spec_tip_idx()].index
    }

    /// A fresh chain: genesis alone, the configured difficulty, signature
    /// checking on.
    pub fn new() -> (r: Blockchain)
        ensures
            r.wf(),
            r.spec_blocks() =~= seq![genesis_view()],
            r.spec_difficulty() == difficulty_target(DIFFICULTY),
            r.spec_check_trans(),
            r.spec_length() == 1,
            r.spec_tip() == zero_hash(),
    {
        let genesis = Block::genesis();
        let mut blocks: Vec<Block> = Vec::new();
        blocks.push(genesis);
        let difficulty = H256::new(gen_difficulty_array(DIFFICULTY));
        let r = Blockchain { blocks, tip_idx: 0, difficulty, check_trans: true };
        proof {
            assert(r.spec_blocks() =~= seq![genesis_view()]);
        }
        r
    }

    /// The current longest-chain head hash.
    pub fn tip(&self) -> (r: H256)
        requires
            self.wf(),
        ensures
            r@ == self.spec_tip(),
    {
        self.blocks[self.tip_idx].hash
    }

    /// The current target: a header hash strictly below it satisfies the
    /// proof of work.
    pub fn difficulty(&self) -> (r: H256)
        ensures
            r@ == self.spec_difficulty(),
    {
        self.difficulty
    }

    /// The number of blocks from genesis to tip, inclusive.
    pub fn length(&self) -> (r: usize)
        requires
            self.wf(),
        ensures
            r == self.spec_length(),
    {
        let n = self.blocks.len();
        proof {
            assert(self.spec_blocks()[self.spec_tip_idx()].index <= self.spec_tip_idx() && self.spec_tip_idx() < n);
        }
        self.blocks[self.tip_idx].index + 1
    }

    /// Replace the target; stored blocks are untouched.
    pub fn change_difficulty(&mut self, new_difficulty: &H256)
        ensures
            final (self).spec_difficulty() == new_difficulty@,
            final (self).spec_blocks() == old(self).spec_blocks(),
            final (self).spec_tip_idx() == old(self).spec_tip_idx(),
            final (self).spec_check_trans() == old(self).spec_check_trans(),
            old(self).wf() ==> final (self).wf(),
    {
        self.difficulty = *new_difficulty;
    }

    /// Turn signature checking at insert on or off.
    pub fn set_check_trans(&mut self, check: bool)
        ensures
            final (self).spec_check_trans() == check,
            final (self).spec_blocks() == old(self).spec_blocks(),
            final (self).spec_tip_idx() == old(self).spec_tip_idx(),
            final (self).spec_difficulty() == old(self).spec_difficulty(),
            old(self).wf() ==> final (self).wf(),
    {
        self.check_trans = check;
    }

    /// The position of the block with the given hash, if one is known.
    fn find_position(&self, hash: &H256) -> (r: Option<usize>)
        ensures
            match r {
                Some(i) => i < self.spec_blocks().len() && self.spec_blocks()[i as int].hash
                    == hash@,
                None => !self.has_block(hash@),
            },
    {
        let mut i: usize = 0;
        while i < self.blocks.len()
            invariant
                i <= self.blocks@.len(),
                forall|j: int| 0 <= j < i ==> self.spec_blocks()[j].hash != hash@,
            decreases self.blocks@.len() - i,
        {
            if self.blocks[i].hash == *hash {
                return Some(i);
            }
            i += 1;
        }
        None
    }

    /// Look a block up by hash.
    pub fn get_block(&self, hash: &H256) -> (r: Option<Block>)
        ensures
            match r {
                Some(b) => self.has_block(hash@) && b@.hash == hash@
                    && self.spec_blocks().contains(b@),
                None => !self.has_block(hash@),
            },
    {
        match self.find_position(hash) {
            Some(i) => {
                let b = clone_block(&self.blocks[i]);
                proof {
                    assert(self.spec_blocks()[i as int] == b@);
                }
                Some(b)
            },
            None => None,
        }
    }

    /// Unconditional insert of a trusted block whose parent is known: the
    /// block is stored under the index one past its parent's, and becomes the
    /// tip if that index is a new maximum. A hash already known leaves the
    /// chain unchanged.
    pub fn insert(&mut self, block: &Block)
        requires
            old(self).wf(),
            block@.hash == header_hash_bytes(block@.header),
            old(self).has_block(block@.header.parent),
        ensures
            final (self).wf(),
            final (self).has_block(block@.hash),
            final (self).spec_difficulty() == old(self).spec_difficulty(),
            final (self).spec_check_trans() == old(self).spec_check_trans(),
            old(self).has_block(block@.hash) ==> final (self).spec_blocks()
                == old(self).spec_blocks() && final (self).spec_tip_idx() == old(
                self,
            ).spec_tip_idx(),
            !old(self).has_block(block@.hash) ==> final (self).spec_blocks()
                == old(self).spec_blocks().push(
                BlockView {
                    index: old(self).spec_blocks()[position_of(
                        old(self).spec_blocks(),
                        block@.header.parent,
                    )].index + 1,
                    ..block@
                },
            ),
            !old(self).has_block(block@.hash) ==> final (self).spec_length() == if old(
                self,
            ).spec_blocks()[position_of(old(self).spec_blocks(), block@.header.parent)].index + 2
                > old(self).spec_length() {
                old(self).spec_blocks()[position_of(
                    old(self).spec_blocks(),
                    block@.header.parent,
                )].index + 2
            } else {
                old(self).spec_length()
            },
    {
        let ghost prev = self.spec_blocks();
        match self.find_position(&block.hash) {
            Some(pos) => {
                proof {
                    assert(self.spec_blocks()[pos as int].hash == block@.hash);
                }
                return ;
            },
            None => {},
        }
        let parent_pos = match self.find_position(&block.header.parent) {
            Some(p) => p,
            None => vstd::pervasive::unreached(),
        };
        proof {
            assert(position_of(prev, block@.header.parent) == parent_pos as int);
        }
        let n = self.blocks.len();
        proof {
            assert(self.spec_blocks()[parent_pos as int].index <= parent_pos as int && parent_pos < n);
        }
        let new_index = self.blocks[parent_pos].index + 1;
        let mut owned = clone_block(block);
        owned.index = new_index;
        let new_pos = self.blocks.len();
        self.blocks.push(owned);
        proof {
            assert(self.spec_blocks() =~= prev.push(
                BlockView { index: new_index as int, ..block@ },
            ));
        }
        if new_index > self.blocks[self.tip_idx].index {
            self.tip_idx = new_pos;
        }
        proof {
            let blocks = self.spec_blocks();
            assert(blocks[new_pos as int].hash == block@.hash);
            assert forall|i: int| 1 <= i < blocks.len() implies parent_link_ok(blocks, i) by {
                if i < prev.len() {
                    assert(parent_link_ok(prev, i));
                    let j = choose|j: int|
                        0 <= j < prev.len() && prev[j].hash == prev[i].header.parent && prev[i].index
                            == prev[j].index + 1;
                    assert(blocks[j] == prev[j]);
                    assert(blocks[i] == prev[i]);
                } else {
                    assert(blocks[parent_pos as int] == prev[parent_pos as int]);
                    assert(blocks[i].header.parent == block@.header.parent);
                    assert(blocks[parent_pos as int].hash == blocks[i].header.parent);
                    assert(blocks[i].index == blocks[parent_pos as int].index + 1);
                }
            }
        }
    }

    /// Whether a block would pass `insert_with_check`: its hash is new, its
    /// parent known, its transactions valid when checking is on, its stored
    /// hash the one its header dictates, that hash strictly below the block's
    /// own target, and that target the chain's difficulty.
    pub open spec fn can_insert(self, b: BlockView) -> bool {
        &&& !self.has_block(b.hash)
        &&& self.has_block(b.header.parent)
        &&& (self.spec_check_trans() ==> forall|i: int|
            0 <= i < b.content.len() ==> (#[trigger] b.content[i]).sig_ok)
        &&& b.hash == header_hash_bytes(b.header)
        &&& be_value(b.hash) < be_value(b.header.difficulty)
        &&& b.header.difficulty == self.spec_difficulty()
    }

    /// Validated insert: stores the block, under the index one past its
    /// parent's, iff every check passes; a rejected block leaves the chain
    /// unchanged.
    pub fn insert_with_check(&mut self, block: &Block) -> (r: bool)
        requires
            old(self).wf(),
        ensures
            final (self).wf(),
            r == old(self).can_insert(block@),
            final (self).spec_difficulty() == old(self).spec_difficulty(),
            final (self).spec_check_trans() == old(self).spec_check_trans(),
            !r ==> final (self).spec_blocks() == old(self).spec_blocks()
                && final (self).spec_tip_idx() == old(self).spec_tip_idx(),
            r ==> final (self).spec_blocks() == old(self).spec_blocks().push(
                BlockView {
                    index: old(self).spec_blocks()[position_of(
                        old(self).spec_blocks(),
                        block@.header.parent,
                    )].index + 1,
                    ..block@
                },
            ),
            r ==> final (self).has_block(block@.hash),
    {
        if self.find_position(&block.hash).is_some() {
            return false;
        }
        if self.find_position(&block.header.parent).is_none() {
            return false;
        }
        if self.check_trans && !block.validate_trans() {
            return false;
        }
        let expected = block.header.hash();
        if !(block.hash == expected) {
            return false;
        }
        if !block.hash.lt(&block.header.difficulty) {
            return false;
        }
        if !(block.header.difficulty == self.difficulty) {
            return false;
        }
        self.insert(block);
        true
    }
}

/// Duplicate a content payload, view for view.
pub fn clone_content(content: &Content) -> (r: Content)
    ensures
        r@ == content@,
{
    let mut trans: Vec<SignedTransaction> = Vec::new();
    let mut i: usize = 0;
    while i < content.trans.len()
        invariant
            i <= content.trans@.len(),
            trans@.len() == i,
            forall|j: int| 0 <= j < i ==> trans@[j] == content.trans@[j],
        decreases content.trans@.len() - i,
    {
        trans.push(content.trans[i]);
        i += 1;
    }
    let r = Content { trans };
    proof {
        assert(r@ =~= content@);
    }
    r
}

/// Duplicate a block, view for view.
pub fn clone_block(block: &Block) -> (r: Block)
    ensures
        r@ == block@,
{
    Block {
        hash: block.hash,
        index: block.index,
        header: block.header,
        content: clone_content(&block.content),
    }
}

/// Every block a well-formed chain holds beyond genesis carries exactly the
/// hash its header dictates: what `insert` demands and `insert_with_check`
/// verifies is an invariant of the whole store.
pub proof fn lemma_chain_hashes_valid(chain: Blockchain)
    requires
        chain.wf(),
    ensures
        forall|i: int| 1 <= i < chain.spec_blocks().len() ==> (#[trigger] chain.spec_blocks()[i]).hash
            == header_hash_bytes(chain.spec_blocks()[i].header),
{
}

} // verus!
