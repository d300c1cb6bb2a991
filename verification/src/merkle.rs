use vstd::prelude::*;
use crate::hash::{H256, sha256, sha256_of, zero_hash};
use crate::transaction::SignedTransaction;

verus! {

/// One combining pass over a level: adjacent nodes pair left-to-right, an odd
/// tail (a singleton level included) duplicates its last node, and each pair
/// hashes to SHA-256(left || right).
pub open spec fn merkle_pass(level: Seq<Seq<u8>>) -> Seq<Seq<u8>>
    decreases level.len(),
{
    if level.len() == 0 {
        Seq::empty()
    } else if level.len() == 1 {
        seq![sha256_of(level[0] + level[0])]
    } else {
        seq![sha256_of(level[0] + level[1])] + merkle_pass(level.skip(2))
    }
}

/// A pass halves a level, rounding up.
pub proof fn lemma_merkle_pass_len(level: Seq<Seq<u8>>)
    ensures
        merkle_pass(level).len() == (level.len() + 1) / 2,
    decreases level.len(),
{
    if level.len() >= 2 {
        lemma_merkle_pass_len(level.skip(2));
    }
}

/// Combining passes applied until a single node remains.
pub open spec fn merkle_collapse(level: Seq<Seq<u8>>) -> Seq<u8>
    recommends
        level.len() >= 1,
    decreases level.len(),
    via merkle_collapse_decreases
{
    if level.len() == 0 {
        zero_hash()
    } else if level.len() == 1 {
        level[0]
    } else {
        merkle_collapse(merkle_pass(level))
    }
}

#[via_fn]
proof fn merkle_collapse_decreases(level: Seq<Seq<u8>>) {
    if level.len() >= 2 {
        lemma_merkle_pass_len(level);
    }
}

/// The Merkle root of an ordered sequence of leaf hashes: the zero hash for an
/// empty sequence; otherwise pair-and-duplicate passes applied, at least once,
/// until one node remains.
pub open spec fn merkle_root_of(hashes: Seq<Seq<u8>>) -> Seq<u8> {
    if hashes.len() == 0 {
        zero_hash()
    } else {
        merkle_collapse(merkle_pass(hashes))
    }
}

/// The leaf hashes of a sequence of transactions, in input order.
pub open spec fn leaf_hashes(trans: Seq<SignedTransaction>) -> Seq<Seq<u8>> {
    Seq::new(trans.len(), |i: int| trans[i].hash@)
}

/// The byte sequences behind a level of digests.
pub open spec fn views_of(level: Seq<H256>) -> Seq<Seq<u8>> {
    Seq::new(level.len(), |i: int| level[i]@)
}

/// The root of an empty item sequence is the zero hash. The converse — that a
/// non-empty sequence never roots to zero — would need SHA-256 to avoid the
/// zero digest, which nothing here states.
pub proof fn lemma_merkle_root_empty(hashes: Seq<Seq<u8>>)
    requires
        hashes.len() == 0,
    ensures
        merkle_root_of(hashes) == zero_hash(),
{
}

/// A single item roots to the digest of its hash paired with itself: the
/// duplicate-last rule applied to a singleton level.
pub proof fn lemma_merkle_root_single(hashes: Seq<Seq<u8>>)
    requires
        hashes.len() == 1,
    ensures
        merkle_root_of(hashes) == sha256_of(hashes[0] + hashes[0]),
{
}

/// At any level of odd width, the last node is duplicated: the pass ends with
/// the digest of the last node paired with itself.
pub proof fn lemma_merkle_pass_odd_duplicates_last(level: Seq<Seq<u8>>)
    requires
        level.len() % 2 == 1,
    ensures
        merkle_pass(level).last() == sha256_of(level.last() + level.last()),
    decreases level.len(),
{
    if level.len() == 1 {
    } else {
        lemma_merkle_pass_odd_duplicates_last(level.skip(2));
        lemma_merkle_pass_len(level.skip(2));
    }
}

/// Concatenate the bytes of two digests.
fn concat_digests(a: &H256, b: &H256) -> (r: Vec<u8>)
    ensures
        r@ == a@ + b@,
{
    let mut v: Vec<u8> = Vec::new();
    let mut i: usize = 0;
    while i < 32
        invariant
            i <= 32,
            v@ == a@.take(i as int),
        decreases 32 - i,
    {
        v.push(a.bytes[i]);
        proof {
            assert(v@ =~= a@.take(i + 1));
        }
        i += 1;
    }
    proof {
        assert(a@.take(32) =~= a@);
    }
    let mut i: usize = 0;
    while i < 32
        invariant
            i <= 32,
            v@ == a@ + b@.take(i as int),
        decreases 32 - i,
    {
        v.push(b.bytes[i]);
        proof {
            assert(v@ =~= a@ + b@.take(i + 1));
        }
        i += 1;
    }
    proof {
        assert(b@.take(32) =~= b@);
    }
    v
}

/// Run one combining pass over a level of digests.
fn merkle_pass_exec(level: &Vec<H256>) -> (r: Vec<H256>)
    requires
        level@.len() >= 1,
    ensures
        views_of(r@) == merkle_pass(views_of(level@)),
        r@.len() >= 1,
{
    let ghost whole = views_of(level@);
    let mut out: Vec<H256> = Vec::new();
    let mut i: usize = 0;
    proof {
        assert(whole.skip(0) =~= whole);
        assert(views_of(out@) + merkle_pass(whole) =~= merkle_pass(whole));
    }
    while i < level.len()
        invariant
            i <= level@.len(),
            whole == views_of(level@),
            views_of(out@) + merkle_pass(whole.skip(i as int)) == merkle_pass(whole),
        decreases level@.len() - i,
    {
        let ghost rest = whole.skip(i as int);
        if i + 1 < level.len() {
            let combined = concat_digests(&level[i], &level[i + 1]);
            let node = sha256(&combined);
            proof {
                assert(rest.len() >= 2);
                assert(rest[0] == whole[i as int]);
                assert(rest[1] == whole[i + 1]);
                assert(rest.skip(2) =~= whole.skip(i + 2));
                assert(merkle_pass(rest) == seq![sha256_of(whole[i as int] + whole[i + 1])]
                    + merkle_pass(whole.skip(i + 2)));
            }
            let ghost prev_out = out@;
            out.push(node);
            proof {
                assert(views_of(out@) =~= views_of(prev_out).push(node@));
                assert(views_of(out@) + merkle_pass(whole.skip(i + 2)) =~= merkle_pass(whole));
            }
            i += 2;
        } else {
            let combined = concat_digests(&level[i], &level[i]);
            let node = sha256(&combined);
            proof {
                assert(rest.len() == 1);
                assert(rest[0] == whole[i as int]);
                assert(merkle_pass(rest) == seq![sha256_of(whole[i as int] + whole[i as int])]);
            }
            let ghost prev_out = out@;
            out.push(node);
            proof {
                assert(views_of(out@) =~= views_of(prev_out).push(node@));
                assert(whole.skip(i + 1) =~= Seq::<Seq<u8>>::empty());
                assert(views_of(out@) + merkle_pass(whole.skip(i + 1)) =~= merkle_pass(whole));
            }
            i += 1;
        }
    }
    proof {
        assert(whole.skip(i as int) =~= Seq::<Seq<u8>>::empty());
        assert(views_of(out@) =~= views_of(out@) + merkle_pass(whole.skip(i as int)));
        lemma_merkle_pass_len(whole);
    }
    out
}

/// A Merkle tree over a sequence of hashable items, reduced to its root.
pub struct MerkleTree {
    root: H256,
}

impl MerkleTree {
    /// The root this tree carries.
    pub closed spec fn spec_root(self) -> Seq<u8> {
        self.root@
    }

    /// Build the tree over the items' hashes, in input order.
    pub fn new(items: &Vec<SignedTransaction>) -> (r: MerkleTree)
        ensures
            r.spec_root() == merkle_root_of(leaf_hashes(items@)),
    {
        if items.len() == 0 {
            let r = MerkleTree { root: H256::zero() };
            proof {
                assert(leaf_hashes(items@).len() == 0);
            }
            return r;
        }
        let mut level: Vec<H256> = Vec::new();
        let mut i: usize = 0;
        while i < items.len()
            invariant
                i <= items@.len(),
                level@.len() == i,
                forall|j: int| 0 <= j < i ==> level@[j] == items@[j].hash,
            decreases items@.len() - i,
        {
            level.push(items[i].hash);
            i += 1;
        }
        proof {
            assert(views_of(level@) =~= leaf_hashes(items@));
        }
        let mut level = merkle_pass_exec(&level);
        while level.len() > 1
            invariant
                level@.len() >= 1,
                merkle_collapse(views_of(level@)) == merkle_root_of(leaf_hashes(items@)),
            decreases level@.len(),
        {
            proof {
                lemma_merkle_pass_len(views_of(level@));
            }
            level = merkle_pass_exec(&level);
        }
        MerkleTree { root: level[0] }
    }

    /// The root digest: the zero hash iff the tree was built over no items.
    pub fn root(&self) -> (r: H256)
        ensures
            r@ == self.spec_root(),
    {
        self.root
    }
}

} // verus!
