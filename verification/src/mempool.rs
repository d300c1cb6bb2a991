use vstd::prelude::*;
use crate::block::Content;
use crate::config::{BLOCK_SIZE_LIMIT, POOL_SIZE_LIMIT};
use crate::hash::H256;
use crate::transaction::{SignedTransaction, TransView};

verus! {

/// An in-memory mapping of transaction hash to signed transaction, bounded by
/// `POOL_SIZE_LIMIT` and duplicate-free. No iteration order is promised.
pub struct MemPool {
    transactions: Vec<SignedTransaction>,
}

/// The byte views of a list of digests.
pub open spec fn hash_views(hs: Seq<H256>) -> Seq<Seq<u8>> {
    Seq::new(hs.len(), |i: int| hs[i]@)
}

/// The views of a list of transactions.
pub open spec fn trans_views(trans: Seq<SignedTransaction>) -> Seq<TransView> {
    trans.map(|i: int, t: SignedTransaction| t@)
}

/// Whether a list of hash bytes names `h`.
pub open spec fn hash_list_contains(hs: Seq<Seq<u8>>, h: Seq<u8>) -> bool {
    exists|i: int| 0 <= i < hs.len() && hs[i] == h
}

/// Whether some transaction of `pool` has hash `h`.
pub open spec fn pool_has(pool: Seq<TransView>, h: Seq<u8>) -> bool {
    exists|i: int| 0 <= i < pool.len() && pool[i].hash == h
}

/// The transaction of `pool` with hash `h`, unique when hashes are.
pub open spec fn pool_at(pool: Seq<TransView>, h: Seq<u8>) -> TransView {
    pool[choose|i: int| 0 <= i < pool.len() && pool[i].hash == h]
}

/// The present transactions named by `hs`, in the order of `hs`; missing
/// entries are skipped.
pub open spec fn spec_lookup(pool: Seq<TransView>, hs: Seq<Seq<u8>>) -> Seq<TransView>
    decreases hs.len(),
{
    if hs.len() == 0 {
        Seq::empty()
    } else {
        let rest = spec_lookup(pool, hs.skip(1));
        if pool_has(pool, hs[0]) {
            seq![pool_at(pool, hs[0])] + rest
        } else {
            rest
        }
    }
}

/// Looking one more hash up appends its hit, if any.
proof fn lemma_spec_lookup_snoc(pool: Seq<TransView>, hs: Seq<Seq<u8>>, h: Seq<u8>)
    ensures
        spec_lookup(pool, hs.push(h)) == spec_lookup(pool, hs) + (if pool_has(pool, h) {
            seq![pool_at(pool, h)]
        } else {
            Seq::<TransView>::empty()
        }),
    decreases hs.len(),
{
    let tail = if pool_has(pool, h) {
        seq![pool_at(pool, h)]
    } else {
        Seq::<TransView>::empty()
    };
    if hs.len() == 0 {
        assert(hs.push(h)[0] == h);
        assert(hs.push(h).skip(1) =~= Seq::<Seq<u8>>::empty());
        assert(spec_lookup(pool, Seq::<Seq<u8>>::empty()) =~= Seq::<TransView>::empty());
        assert(spec_lookup(pool, hs.push(h)) =~= spec_lookup(pool, hs) + tail);
    } else {
        assert(hs.push(h)[0] == hs[0]);
        assert(hs.push(h).skip(1) =~= hs.skip(1).push(h));
        lemma_spec_lookup_snoc(pool, hs.skip(1), h);
        if pool_has(pool, hs[0]) {
            assert(seq![pool_at(pool, hs[0])] + (spec_lookup(pool, hs.skip(1)) + tail) =~= (seq![
                pool_at(pool, hs[0]),
            ] + spec_lookup(pool, hs.skip(1))) + tail);
        }
    }
}

impl MemPool {
    /// The pool's transactions, as views.
    pub closed spec fn spec_trans(self) -> Seq<TransView> {
        Seq::new(self.transactions@.len(), |i: int| self.transactions@[i]@)
    }

    /// How many transactions the pool holds.
    pub open spec fn spec_size(self) -> nat {
        self.spec_trans().len()
    }

    /// Whether some entry has hash `h`.
    pub open spec fn spec_contains(self, h: Seq<u8>) -> bool {
        pool_has(self.spec_trans(), h)
    }

    /// Keys are unique: no two entries share a hash.
    pub open spec fn wf(self) -> bool {
        forall|i: int, j: int|
            0 <= i < j < self.spec_trans().len() ==> self.spec_trans()[i].hash
                != self.spec_trans()[j].hash
    }

    /// An empty pool.
    pub fn new() -> (r: MemPool)
        ensures
            r.wf(),
            r.spec_size() == 0,
    {
        MemPool { transactions: Vec::new() }
    }

    /// A pool initialised from a list: every listed hash is present, every
    /// entry comes from the list, and a list of pairwise-distinct hashes goes
    /// in whole and in order.
    pub fn new_with_trans(trans: &Vec<SignedTransaction>) -> (r: MemPool)
        ensures
            r.wf(),
            forall|j: int| 0 <= j < trans@.len() ==> r.spec_contains((#[trigger] trans@[j]@).hash),
            forall|k: int| 0 <= k < r.spec_trans().len() ==> trans_views(trans@).contains(
                #[trigger] r.spec_trans()[k],
            ),
            (forall|i: int, j: int|
                0 <= i < j < trans@.len() ==> trans@[i]@.hash != trans@[j]@.hash) ==> r.spec_trans()
                =~= trans_views(trans@),
    {
        let ghost tv = trans_views(trans@);
        let mut pool = MemPool { transactions: Vec::new() };
        let mut i: usize = 0;
        while i < trans.len()
            invariant
                i <= trans@.len(),
                tv == trans_views(trans@),
                pool.wf(),
                forall|j: int| 0 <= j < i ==> pool.spec_contains((#[trigger] trans@[j]@).hash),
                forall|k: int| 0 <= k < pool.spec_trans().len() ==> tv.contains(
                    #[trigger] pool.spec_trans()[k],
                ),
                (forall|k: int, j: int|
                    0 <= k < j < trans@.len() ==> trans@[k]@.hash != trans@[j]@.hash)
                    ==> pool.spec_trans() =~= tv.take(i as int),
            decreases trans@.len() - i,
        {
            let t = trans[i];
            let ghost prev = pool.spec_trans();
            match pool.find_index(&t.hash) {
                None => {
                    pool.transactions.push(t);
                    proof {
                        assert(pool.spec_trans() =~= prev.push(t@));
                        assert forall|j: int| 0 <= j < i + 1 implies pool.spec_contains(
                            (#[trigger] trans@[j]@).hash,
                        ) by {
                            if j < i {
                                assert(pool_has(prev, trans@[j]@.hash));
                                let k = choose|k: int|
                                    0 <= k < prev.len() && prev[k].hash == trans@[j]@.hash;
                                assert(pool.spec_trans()[k].hash == trans@[j]@.hash);
                            } else {
                                assert(pool.spec_trans()[prev.len() as int].hash
                                    == trans@[i as int]@.hash);
                            }
                        }
                        assert forall|k: int| 0 <= k < pool.spec_trans().len() implies tv.contains(
                            #[trigger] pool.spec_trans()[k],
                        ) by {
                            if k < prev.len() {
                                assert(pool.spec_trans()[k] == prev[k]);
                            } else {
                                assert(tv[i as int] == pool.spec_trans()[k]);
                            }
                        }
                        if forall|k: int, j: int|
                            0 <= k < j < trans@.len() ==> trans@[k]@.hash != trans@[j]@.hash {
                            assert(prev =~= tv.take(i as int));
                            assert(pool.spec_trans() =~= tv.take(i + 1));
                        }
                    }
                },
                Some(idx) => {
                    proof {
                        assert(prev[idx as int].hash == trans@[i as int]@.hash);
                        assert(pool.spec_contains(trans@[i as int]@.hash));
                        if forall|k: int, j: int|
                            0 <= k < j < trans@.len() ==> trans@[k]@.hash != trans@[j]@.hash {
                            assert(prev =~= tv.take(i as int));
                            assert(prev[idx as int] == trans@[idx as int]@);
                            assert(trans@[idx as int]@.hash == trans@[i as int]@.hash);
                            assert(false);
                        }
                    }
                },
            }
            i += 1;
        }
        proof {
            assert(tv.take(trans@.len() as int) =~= tv);
        }
        pool
    }

    /// The index of the entry with the given hash, if one is present.
    fn find_index(&self, hash: &H256) -> (r: Option<usize>)
        ensures
            match r {
                Some(i) => i < self.spec_trans().len() && self.spec_trans()[i as int].hash
                    == hash@,
                None => !self.spec_contains(hash@),
            },
    {
        let mut i: usize = 0;
        while i < self.transactions.len()
            invariant
                i <= self.transactions@.len(),
                forall|j: int| 0 <= j < i ==> self.spec_trans()[j].hash != hash@,
            decreases self.transactions@.len() - i,
        {
            if self.transactions[i].hash == *hash {
                return Some(i);
            }
            i += 1;
        }
        None
    }

    /// Add a transaction after checking it: rejected, with the pool left
    /// unchanged, iff its hash is already present, its signature fails, or the
    /// pool is full.
    pub fn add_with_check(&mut self, tran: &SignedTransaction) -> (r: bool)
        requires
            old(self).wf(),
        ensures
            final (self).wf(),
            r == (!old(self).spec_contains(tran@.hash) && tran@.sig_ok && old(self).spec_size()
                < POOL_SIZE_LIMIT),
            r ==> final (self).spec_trans() == old(self).spec_trans().push(tran@),
            !r ==> final (self).spec_trans() == old(self).spec_trans(),
    {
        let hash = tran.hash();
        if self.exist(&hash) || !tran.sign_check() || self.size() >= POOL_SIZE_LIMIT {
            return false;
        }
        let ghost prev = self.spec_trans();
        self.transactions.push(*tran);
        proof {
            assert(self.spec_trans() =~= prev.push(tran@));
        }
        true
    }

    /// Remove every listed hash that is present; misses are ignored. Every
    /// surviving entry was present before, and a hash survives iff it was
    /// present and not listed.
    pub fn remove_trans(&mut self, trans: &Vec<H256>)
        requires
            old(self).wf(),
        ensures
            final (self).wf(),
            forall|h: Seq<u8>| final (self).spec_contains(h) <==> (old(self).spec_contains(h)
                && !hash_list_contains(hash_views(trans@), h)),
            forall|i: int| 0 <= i < final (self).spec_trans().len() ==> old(
                self,
            ).spec_trans().contains(#[trigger] final (self).spec_trans()[i]),
    {
        let mut k: usize = 0;
        proof {
            assert(hash_views(trans@).take(0) =~= Seq::<Seq<u8>>::empty());
            assert forall|i: int| 0 <= i < self.spec_trans().len() implies old(
                self,
            ).spec_trans().contains(#[trigger] self.spec_trans()[i]) by {
                assert(old(self).spec_trans()[i] == self.spec_trans()[i]);
            }
        }
        while k < trans.len()
            invariant
                k <= trans@.len(),
                self.wf(),
                forall|h: Seq<u8>| self.spec_contains(h) <==> (old(self).spec_contains(h)
                    && !hash_list_contains(hash_views(trans@).take(k as int), h)),
                forall|i: int| 0 <= i < self.spec_trans().len() ==> old(
                    self,
                ).spec_trans().contains(#[trigger] self.spec_trans()[i]),
            decreases trans@.len() - k,
        {
            let h = trans[k];
            let ghost before = self.spec_trans();
            match self.find_index(&h) {
                Some(i) => {
                    self.transactions.remove(i);
                    proof {
                        assert(self.spec_trans() =~= before.remove(i as int));
                        assert forall|p: int| 0 <= p < self.spec_trans().len() implies old(
                            self,
                        ).spec_trans().contains(#[trigger] self.spec_trans()[p]) by {
                            if p < i {
                                assert(before[p] == self.spec_trans()[p]);
                            } else {
                                assert(before[p + 1] == self.spec_trans()[p]);
                            }
                        }
                        assert forall|hh: Seq<u8>| self.spec_contains(hh) <==> (pool_has(
                            before,
                            hh,
                        ) && hh != h@) by {
                            if pool_has(before, hh) && hh != h@ {
                                let j = choose|j: int|
                                    0 <= j < before.len() && before[j].hash == hh;
                                if j < i {
                                    assert(self.spec_trans()[j] == before[j]);
                                } else {
                                    assert(j > i);
                                    assert(self.spec_trans()[j - 1] == before[j]);
                                }
                            }
                            if self.spec_contains(hh) {
                                let j = choose|j: int|
                                    0 <= j < self.spec_trans().len() && self.spec_trans()[j].hash
                                        == hh;
                                if j < i {
                                    assert(before[j].hash == hh);
                                } else {
                                    assert(before[j + 1].hash == hh);
                                }
                                assert(pool_has(before, hh));
                                if hh == h@ {
                                    let jj = if j < i {
                                        j
                                    } else {
                                        j + 1
                                    };
                                    assert(before[jj].hash == h@ && before[i as int].hash == h@
                                        && jj != i);
                                    assert(false);
                                }
                            }
                        }
                    }
                },
                None => {
                    proof {
                        assert(!pool_has(before, h@));
                    }
                },
            }
            proof {
                assert(hash_views(trans@).take(k + 1) =~= hash_views(trans@).take(k as int).push(
                    h@,
                ));
                assert forall|hh: Seq<u8>| self.spec_contains(hh) <==> (old(
                    self,
                ).spec_contains(hh) && !hash_list_contains(
                    hash_views(trans@).take(k + 1),
                    hh,
                )) by {
                    let prefix = hash_views(trans@).take(k as int);
                    let longer = hash_views(trans@).take(k + 1);
                    assert(hash_list_contains(longer, hh) <==> (hash_list_contains(prefix, hh)
                        || hh == h@)) by {
                        if hash_list_contains(longer, hh) {
                            let j = choose|j: int|
                                0 <= j < longer.len() && longer[j] == hh;
                            if j < k {
                                assert(prefix[j] == hh);
                            }
                        }
                        if hash_list_contains(prefix, hh) {
                            let j = choose|j: int|
                                0 <= j < prefix.len() && prefix[j] == hh;
                            assert(longer[j] == hh);
                        }
                        if hh == h@ {
                            assert(longer[k as int] == hh);
                        }
                    }
                }
            }
            k += 1;
        }
        proof {
            assert(hash_views(trans@).take(trans@.len() as int) =~= hash_views(trans@));
        }
    }

    /// A content payload of `min(BLOCK_SIZE_LIMIT, size())` transactions taken
    /// from the pool, pairwise distinct by hash; which entries are taken is
    /// left open, and the pool is not changed.
    pub fn create_content(&self) -> (r: Content)
        requires
            self.wf(),
        ensures
            r@.len() == if BLOCK_SIZE_LIMIT <= self.spec_size() {
                BLOCK_SIZE_LIMIT as int
            } else {
                self.spec_size() as int
            },
            forall|i: int| 0 <= i < r@.len() ==> self.spec_contains((#[trigger] r@[i]).hash)
                && pool_at(self.spec_trans(), r@[i].hash) == r@[i],
            forall|i: int, j: int| 0 <= i < j < r@.len() ==> r@[i].hash != r@[j].hash,
    {
        let trans_num = if BLOCK_SIZE_LIMIT < self.transactions.len() {
            BLOCK_SIZE_LIMIT
        } else {
            self.transactions.len()
        };
        let mut taken: Vec<SignedTransaction> = Vec::new();
        let mut i: usize = 0;
        while i < trans_num
            invariant
                trans_num <= self.transactions@.len(),
                i <= trans_num,
                taken@.len() == i,
                forall|j: int| 0 <= j < i ==> taken@[j] == self.transactions@[j],
            decreases trans_num - i,
        {
            taken.push(self.transactions[i]);
            i += 1;
        }
        let r = Content { trans: taken };
        proof {
            assert forall|j: int| 0 <= j < r@.len() implies self.spec_contains(
                (#[trigger] r@[j]).hash,
            ) && pool_at(self.spec_trans(), r@[j].hash) == r@[j] by {
                assert(self.spec_trans()[j] == r@[j]);
                assert(pool_has(self.spec_trans(), r@[j].hash));
                let k = choose|k: int|
                    0 <= k < self.spec_trans().len() && self.spec_trans()[k].hash == r@[j].hash;
                assert(k == j);
            }
            assert(forall|j: int| 0 <= j < r@.len() ==> #[trigger] r@[j] == self.spec_trans()[j]);
        }
        r
    }

    /// Whether a transaction with this hash is present.
    pub fn exist(&self, hash: &H256) -> (r: bool)
        ensures
            r == self.spec_contains(hash@),
    {
        self.find_index(hash).is_some()
    }

    /// The present transactions named by `hashes`, in the order of `hashes`;
    /// missing entries are skipped.
    pub fn get_trans(&self, hashes: &Vec<H256>) -> (r: Vec<SignedTransaction>)
        requires
            self.wf(),
        ensures
            r@.map(|i: int, t: SignedTransaction| t@) == spec_lookup(
                self.spec_trans(),
                hash_views(hashes@),
            ),
    {
        let ghost pool = self.spec_trans();
        let mut out: Vec<SignedTransaction> = Vec::new();
        let mut k: usize = 0;
        proof {
            assert(hash_views(hashes@).take(0) =~= Seq::<Seq<u8>>::empty());
            assert(out@.map(|i: int, t: SignedTransaction| t@) =~= spec_lookup(
                pool,
                hash_views(hashes@).take(0),
            ));
        }
        while k < hashes.len()
            invariant
                k <= hashes@.len(),
                pool == self.spec_trans(),
                self.wf(),
                out@.map(|i: int, t: SignedTransaction| t@) == spec_lookup(
                    pool,
                    hash_views(hashes@).take(k as int),
                ),
            decreases hashes@.len() - k,
        {
            let h = hashes[k];
            let ghost prev = out@;
            match self.find_index(&h) {
                Some(i) => {
                    let t = self.transactions[i];
                    proof {
                        let w = choose|j: int| 0 <= j < pool.len() && pool[j].hash == h@;
                        assert(pool[i as int].hash == h@);
                        assert(w == i as int);
                        assert(pool_at(pool, h@) == t@);
                    }
                    out.push(t);
                },
                None => {
                },
            }
            proof {
                lemma_spec_lookup_snoc(pool, hash_views(hashes@).take(k as int), h@);
                assert(hash_views(hashes@).take(k + 1) =~= hash_views(hashes@).take(k as int).push(
                    h@,
                ));
                if pool_has(pool, h@) {
                    assert(out@.map(|i: int, t: SignedTransaction| t@) =~= prev.map(
                        |i: int, t: SignedTransaction| t@,
                    ) + seq![pool_at(pool, h@)]);
                } else {
                    assert(out@.map(|i: int, t: SignedTransaction| t@) =~= prev.map(
                        |i: int, t: SignedTransaction| t@,
                    ));
                }
            }
            k += 1;
        }
        proof {
            assert(hash_views(hashes@).take(hashes@.len() as int) =~= hash_views(hashes@));
        }
        out
    }

    /// The number of transactions in the pool.
    pub fn size(&self) -> (r: usize)
        ensures
            r == self.spec_size(),
    {
        self.transactions.len()
    }

    /// Whether the pool holds no transaction.
    pub fn empty(&self) -> (r: bool)
        ensures
            r == (self.spec_size() == 0),
    {
        self.transactions.is_empty()
    }
}

} // verus!
