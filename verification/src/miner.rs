use vstd::prelude::*;
use crate::block::{
    Block, BlockView, Header, HeaderView, content_hashes, header_hash_bytes, wrap_inc,
};
use crate::blockchain::{Blockchain, position_of};
use crate::config::{BLOCK_SIZE_LIMIT, MINING_STEP};
use crate::hash::{H256, be_value};
use crate::mempool::{MemPool, hash_list_contains, hash_views, pool_at};
use crate::merkle::merkle_root_of;
use crate::transaction::TransView;

verus! {

/// A control signal for the mining worker: start with an inter-burst delay in
/// microseconds, pause, or shut down for good.
#[derive(Clone, Copy, Debug, PartialEq, Eq, Structural)]
pub enum ControlSignal {
    Start(u64),
    Exit,
    Paused,
}

/// The worker's operating state: initially paused; `Run` carries the
/// inter-burst delay; `ShutDown` is terminal.
#[derive(Clone, Copy, Debug, PartialEq, Eq, Structural)]
pub enum OperatingState {
    Paused,
    Run(u64),
    ShutDown,
}

/// The state a control signal drives the worker to.
pub open spec fn next_state(signal: ControlSignal) -> OperatingState {
    match signal {
        ControlSignal::Start(i) => OperatingState::Run(i),
        ControlSignal::Exit => OperatingState::ShutDown,
        ControlSignal::Paused => OperatingState::Paused,
    }
}

/// The nonce reached from `start` after `k` wrapping increments.
pub open spec fn nonce_at(start: u32, k: int) -> u32 {
    ((start + k) % 0x1_0000_0000) as u32
}

/// The header hash probed at step `k`: the header with its nonce advanced `k`
/// wrapping steps from `start`.
pub open spec fn hash_at(h: HeaderView, start: u32, k: int) -> Seq<u8> {
    header_hash_bytes(HeaderView { nonce: nonce_at(start, k), ..h })
}

/// Content the mempool's bounded drain admits: `min(BLOCK_SIZE_LIMIT, size)`
/// transactions, each one an entry of the pool, pairwise distinct by hash.
/// Which entries are drawn is left open, as the pool's contract leaves it.
pub open spec fn admissible_content(pool: MemPool, c: Seq<TransView>) -> bool {
    &&& c.len() == (if BLOCK_SIZE_LIMIT <= pool.spec_size() {
        BLOCK_SIZE_LIMIT as int
    } else {
        pool.spec_size() as int
    })
    &&& forall|i: int| 0 <= i < c.len() ==> pool.spec_contains((#[trigger] c[i]).hash) && pool_at(
        pool.spec_trans(),
        c[i].hash,
    ) == c[i]
    &&& forall|i: int, j: int| 0 <= i < j < c.len() ==> c[i].hash != c[j].hash
}

/// The header a burst probes: parent the snapshot tip, the rolling cursor as
/// nonce, the chain's target, the given clock, and the content's Merkle root.
pub open spec fn candidate_header(chain: Blockchain, nonce: u32, now_ms: u64, c: Seq<TransView>)
    -> HeaderView {
    HeaderView {
        parent: chain.spec_tip(),
        nonce,
        difficulty: chain.spec_difficulty(),
        timestamp: now_ms,
        merkle_root: merkle_root_of(content_hashes(c)),
    }
}

/// One wrapping increment advances `nonce_at` by one step.
proof fn lemma_nonce_at_succ(start: u32, k: int)
    requires
        k >= 0,
    ensures
        wrap_inc(nonce_at(start, k)) == nonce_at(start, k + 1),
{
    let m = 0x1_0000_0000int;
    let a = start + k;
    assert(0 <= a % m < m);
    if a % m == m - 1 {
        assert((a + 1) % m == 0) by (nonlinear_arith)
            requires
                a >= 0 && a % m == m - 1 && m == 0x1_0000_0000int,
        ;
    } else {
        assert((a + 1) % m == a % m + 1) by (nonlinear_arith)
            requires
                a >= 0 && 0 <= a % m < m - 1 && m == 0x1_0000_0000int,
        ;
    }
}

/// Probe up to `MINING_STEP` nonces: succeed at the first one whose header
/// hash falls strictly below the target, leaving that nonce in place; fail
/// with the nonce advanced past exactly `MINING_STEP` probes, wrapping. A
/// zero target never succeeds. Nothing but the nonce is touched.
pub fn mining_base(header: &mut Header, difficulty: H256) -> (r: bool)
    ensures
        final (header)@ == (HeaderView { nonce: final (header)@.nonce, ..old(header)@ }),
        r ==> exists|k: int|
            0 <= k < MINING_STEP && #[trigger] be_value(
                hash_at(old(header)@, old(header)@.nonce, k),
            ) < be_value(difficulty@) && (forall|j: int|
                0 <= j < k ==> #[trigger] be_value(hash_at(old(header)@, old(header)@.nonce, j))
                    >= be_value(difficulty@)) && final (header)@.nonce == nonce_at(
                old(header)@.nonce,
                k,
            ),
        !r ==> (forall|k: int|
            0 <= k < MINING_STEP ==> #[trigger] be_value(
                hash_at(old(header)@, old(header)@.nonce, k),
            ) >= be_value(difficulty@)) && final (header)@.nonce == nonce_at(
            old(header)@.nonce,
            MINING_STEP as int,
        ),
        be_value(difficulty@) == 0 ==> !r,
{
    let mut step: u32 = 0;
    proof {
        assert(nonce_at(old(header)@.nonce, 0) == old(header)@.nonce);
    }
    while step < MINING_STEP
        invariant
            step <= MINING_STEP,
            header@ == (HeaderView {
                nonce: nonce_at(old(header)@.nonce, step as int),
                ..old(header)@
            }),
            forall|j: int| 0 <= j < step ==> #[trigger] be_value(
                hash_at(old(header)@, old(header)@.nonce, j),
            ) >= be_value(difficulty@),
        decreases MINING_STEP - step,
    {
        let h = header.hash();
        proof {
            assert(h@ == hash_at(old(header)@, old(header)@.nonce, step as int));
        }
        if h.lt(&difficulty) {
            proof {
                assert(be_value(hash_at(old(header)@, old(header)@.nonce, step as int))
                    < be_value(difficulty@));
                assert(header@.nonce == nonce_at(old(header)@.nonce, step as int));
                assert(header@ == (HeaderView { nonce: header@.nonce, ..old(header)@ }));
            }
            return true;
        }
        proof {
            lemma_nonce_at_succ(old(header)@.nonce, step as int);
        }
        header.change_nonce();
        step += 1;
    }
    proof {
        assert(header@ == (HeaderView { nonce: header@.nonce, ..old(header)@ }));
    }
    false
}

/// The single mining worker of a node: a rolling nonce cursor that survives
/// failed bursts and resets on success, a count of blocks mined, and the
/// control-plane state.
pub struct Miner {
    pub nonce: u32,
    pub mined_num: usize,
    pub operating_state: OperatingState,
}

impl Miner {
    /// A fresh worker: paused, cursor at zero, nothing mined.
    pub fn new() -> (r: Miner)
        ensures
            r.nonce == 0,
            r.mined_num == 0,
            r.operating_state == OperatingState::Paused,
    {
        Miner { nonce: 0, mined_num: 0, operating_state: OperatingState::Paused }
    }

    /// Apply one control signal: `Start(i)` runs with delay `i`, `Paused`
    /// pauses, `Exit` shuts down. Nothing else moves.
    pub fn handle_control_signal(&mut self, signal: ControlSignal)
        ensures
            final (self).operating_state == next_state(signal),
            final (self).nonce == old(self).nonce,
            final (self).mined_num == old(self).mined_num,
    {
        match signal {
            ControlSignal::Exit => {
                self.operating_state = OperatingState::ShutDown;
            },
            ControlSignal::Start(i) => {
                self.operating_state = OperatingState::Run(i);
            },
            ControlSignal::Paused => {
                self.operating_state = OperatingState::Paused;
            },
        }
    }

    /// Commit a freshly mined block: insert it into the chain, evict its
    /// transactions from the mempool, count it, and hand back the hash the
    /// caller must announce to peers.
    pub fn found(&mut self, chain: &mut Blockchain, pool: &mut MemPool, block: Block) -> (announce:
        H256)
        requires
            old(chain).wf(),
            old(pool).wf(),
            old(self).mined_num < usize::MAX,
            block@.hash == header_hash_bytes(block@.header),
            old(chain).has_block(block@.header.parent),
        ensures
            final (chain).wf(),
            final (pool).wf(),
            announce@ == block@.hash,
            final (chain).has_block(block@.hash),
            final (chain).spec_difficulty() == old(chain).spec_difficulty(),
            final (chain).spec_check_trans() == old(chain).spec_check_trans(),
            !old(chain).has_block(block@.hash) ==> final (chain).spec_blocks()
                == old(chain).spec_blocks().push(
                BlockView {
                    index: old(chain).spec_blocks()[position_of(
                        old(chain).spec_blocks(),
                        block@.header.parent,
                    )].index + 1,
                    ..block@
                },
            ),
            old(chain).has_block(block@.hash) ==> final (chain).spec_blocks()
                == old(chain).spec_blocks(),
            forall|i: int| 0 <= i < block@.content.len() ==> !final (pool).spec_contains(
                (#[trigger] block@.content[i]).hash,
            ),
            forall|h: Seq<u8>| final (pool).spec_contains(h) <==> (old(pool).spec_contains(h)
                && !hash_list_contains(content_hashes(block@.content), h)),
            forall|i: int| 0 <= i < final (pool).spec_trans().len() ==> old(
                pool,
            ).spec_trans().contains(#[trigger] final (pool).spec_trans()[i]),
            final (self).mined_num == old(self).mined_num + 1,
            final (self).nonce == old(self).nonce,
            final (self).operating_state == old(self).operating_state,
    {
        let hashes = block.content.get_trans_hashes();
        proof {
            assert(hash_views(hashes@) =~= content_hashes(block@.content));
        }
        chain.insert(&block);
        pool.remove_trans(&hashes);
        proof {
            assert forall|i: int| 0 <= i < block@.content.len() implies !pool.spec_contains(
                (#[trigger] block@.content[i]).hash,
            ) by {
                assert(content_hashes(block@.content)[i] == block@.content[i].hash);
            }
        }
        self.mined_num += 1;
        block.hash
    }

    /// One mining burst. Snapshot the tip and the target, drain a bounded
    /// batch from the mempool, and probe up to `MINING_STEP` nonces from the
    /// rolling cursor at the given wall-clock milliseconds. An empty pool or
    /// an exhausted budget yields `None` and leaves chain and pool unchanged;
    /// the cursor stands after the failed probes. Success commits the block,
    /// evicts its transactions, resets the cursor, and yields the hash to
    /// announce.
    pub fn mining(&mut self, chain: &mut Blockchain, pool: &mut MemPool, now_ms: u64) -> (r:
        Option<H256>)
        requires
            old(chain).wf(),
            old(pool).wf(),
            old(self).mined_num < usize::MAX,
        ensures
            final (chain).wf(),
            final (pool).wf(),
            final (chain).spec_difficulty() == old(chain).spec_difficulty(),
            final (chain).spec_check_trans() == old(chain).spec_check_trans(),
            final (self).operating_state == old(self).operating_state,
            be_value(old(chain).spec_difficulty()) == 0 ==> r is None,
            old(pool).spec_size() == 0 ==> r is None && final (self).nonce == old(self).nonce,
            r is None ==> final (chain).spec_blocks() == old(chain).spec_blocks()
                && final (chain).spec_tip_idx() == old(chain).spec_tip_idx()
                && final (pool).spec_trans() == old(pool).spec_trans()
                && final (self).mined_num == old(self).mined_num,
            r is None && old(pool).spec_size() > 0 ==> final (self).nonce == nonce_at(
                old(self).nonce,
                MINING_STEP as int,
            ),
            r is None && old(pool).spec_size() > 0 ==> (exists|c: Seq<TransView>|
                #[trigger] admissible_content(*old(pool), c) && (forall|k: int|
                    0 <= k < MINING_STEP ==> be_value(
                        hash_at(
                            candidate_header(*old(chain), old(self).nonce, now_ms, c),
                            old(self).nonce,
                            k,
                        ),
                    ) >= be_value(old(chain).spec_difficulty()))),
            r matches Some(announce) ==> {
                let b = final (chain).spec_blocks().last();
                &&& final (self).nonce == 0
                &&& final (self).mined_num == old(self).mined_num + 1
                &&& final (chain).has_block(announce@)
                &&& be_value(announce@) < be_value(old(chain).spec_difficulty())
                &&& old(pool).spec_size() > 0
                &&& exists|c: Seq<TransView>|
                    #[trigger] admissible_content(*old(pool), c) && (forall|h: Seq<u8>|
                        final (pool).spec_contains(h) <==> (old(pool).spec_contains(h)
                            && !hash_list_contains(content_hashes(c), h)))
                &&& forall|i: int| 0 <= i < final (pool).spec_trans().len() ==> old(
                    pool,
                ).spec_trans().contains(#[trigger] final (pool).spec_trans()[i])
                &&& !old(chain).has_block(announce@) ==> {
                    &&& final (chain).spec_blocks() == old(chain).spec_blocks().push(b)
                    &&& b.hash == announce@
                    &&& b.hash == header_hash_bytes(b.header)
                    &&& b.header.parent == old(chain).spec_tip()
                    &&& b.header.timestamp == now_ms
                    &&& b.header.difficulty == old(chain).spec_difficulty()
                    &&& b.header.merkle_root == merkle_root_of(content_hashes(b.content))
                    &&& admissible_content(*old(pool), b.content)
                    &&& forall|h: Seq<u8>| final (pool).spec_contains(h) <==> (old(
                        pool,
                    ).spec_contains(h) && !hash_list_contains(content_hashes(b.content), h))
                    &&& forall|i: int| 0 <= i < b.content.len() ==> !final (pool).spec_contains(
                        (#[trigger] b.content[i]).hash,
                    )
                }
            },
    {
        let tip = chain.tip();
        let difficulty = chain.difficulty();
        if pool.size() == 0 {
            return None;
        }
        let content = pool.create_content();
        let merkle = content.merkle_root();
        let nonce = self.nonce;
        let mut header = Header::new(&tip, nonce, now_ms as u128, &difficulty, &merkle);
        let ghost h0 = header@;
        proof {
            assert(admissible_content(*old(pool), content@));
            assert((now_ms as u128) as u64 == now_ms);
            assert(h0 == candidate_header(*old(chain), old(self).nonce, now_ms, content@));
        }
        if mining_base(&mut header, difficulty) {
            proof {
                let k = choose|k: int|
                    0 <= k < MINING_STEP && #[trigger] be_value(hash_at(h0, nonce, k)) < be_value(
                        difficulty@,
                    ) && (forall|j: int|
                        0 <= j < k ==> #[trigger] be_value(hash_at(h0, nonce, j)) >= be_value(
                            difficulty@,
                        )) && header@.nonce == nonce_at(nonce, k);
                assert(header@ == (HeaderView { nonce: nonce_at(nonce, k), ..h0 }));
                assert(header_hash_bytes(header@) == hash_at(h0, nonce, k));
            }
            let block = Block::new(header, content);
            proof {
                assert(chain.spec_blocks()[chain.spec_tip_idx()].hash == block@.header.parent);
            }
            let announce = self.found(chain, pool, block);
            self.nonce = 0;
            proof {
                assert(admissible_content(*old(pool), content@));
            }
            Some(announce)
        } else {
            self.nonce = header.nonce;
            proof {
                let cand = candidate_header(*old(chain), old(self).nonce, now_ms, content@);
                assert forall|k: int| 0 <= k < MINING_STEP implies be_value(
                    hash_at(cand, old(self).nonce, k),
                ) >= be_value(old(chain).spec_difficulty()) by {
                    assert(be_value(hash_at(h0, nonce, k)) >= be_value(difficulty@));
                }
            }
            None
        }
    }
}

/// What a peer worker does with a fetched block: insert it after full
/// validation and, on success, evict its transactions from the local
/// mempool. Rejection leaves chain and pool untouched.
pub fn receive_block(chain: &mut Blockchain, pool: &mut MemPool, block: &Block) -> (r: bool)
    requires
        old(chain).wf(),
        old(pool).wf(),
    ensures
        final (chain).wf(),
        final (pool).wf(),
        r == old(chain).can_insert(block@),
        final (chain).spec_difficulty() == old(chain).spec_difficulty(),
        final (chain).spec_check_trans() == old(chain).spec_check_trans(),
        !r ==> final (chain).spec_blocks() == old(chain).spec_blocks()
            && final (pool).spec_trans() == old(pool).spec_trans(),
        r ==> final (chain).spec_blocks() == old(chain).spec_blocks().push(
            BlockView {
                index: old(chain).spec_blocks()[position_of(
                    old(chain).spec_blocks(),
                    block@.header.parent,
                )].index + 1,
                ..block@
            },
        ),
        r ==> final (chain).has_block(block@.hash),
        r ==> forall|i: int| 0 <= i < block@.content.len() ==> !final (pool).spec_contains(
            (#[trigger] block@.content[i]).hash,
        ),
        r ==> forall|h: Seq<u8>| final (pool).spec_contains(h) <==> (old(pool).spec_contains(h)
            && !hash_list_contains(content_hashes(block@.content), h)),
        forall|i: int| 0 <= i < final (pool).spec_trans().len() ==> old(
            pool,
        ).spec_trans().contains(#[trigger] final (pool).spec_trans()[i]),
{
    if chain.insert_with_check(block) {
        let hashes = block.content.get_trans_hashes();
        proof {
            assert(hash_views(hashes@) =~= content_hashes(block@.content));
        }
        pool.remove_trans(&hashes);
        proof {
            assert forall|i: int| 0 <= i < block@.content.len() implies !pool.spec_contains(
                (#[trigger] block@.content[i]).hash,
            ) by {
                assert(content_hashes(block@.content)[i] == block@.content[i].hash);
            }
        }
        true
    } else {
        false
    }
}

} // verus!
