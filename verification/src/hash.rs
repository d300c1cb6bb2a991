use vstd::prelude::*;

verus! {

/// A 32-byte digest, totally ordered as a single 256-bit big-endian unsigned
/// integer. The all-zero value is the sentinel used by the genesis block and
/// as the Merkle root of empty content.
#[derive(Clone, Copy, Debug)]
pub struct H256 {
    pub bytes: [u8; 32],
}

/// The value of a byte string read as a big-endian unsigned integer.
pub open spec fn be_value(s: Seq<u8>) -> nat
    decreases s.len(),
{
    if s.len() == 0 {
        0
    } else {
        be_value(s.drop_last()) * 256 + s.last() as nat
    }
}

/// 256 raised to the power `n`.
pub open spec fn pow256(n: nat) -> nat
    decreases n,
{
    if n == 0 {
        1
    } else {
        256 * pow256((n - 1) as nat)
    }
}

/// The 32 zero bytes.
pub open spec fn zero_hash() -> Seq<u8> {
    Seq::new(32, |i: int| 0u8)
}

/// The digest that SHA-256 assigns to a byte string. Verified code reaches
/// SHA-256 only through `sha256`, which computes it.
pub uninterp spec fn sha256_of(data: Seq<u8>) -> Seq<u8>;

/// Relies on ring::digest::digest with ring::digest::SHA256: the digest is a
/// function of the input bytes alone, and is 32 bytes long.
#[verifier::external_body]
pub fn sha256(data: &Vec<u8>) -> (r: H256)
    ensures
        r@ == sha256_of(data@),
{
    let digest = ring::digest::digest(&ring::digest::SHA256, data.as_slice());
    let mut bytes = [0u8; 32];
    bytes.copy_from_slice(digest.as_ref());
    H256 { bytes }
}

/// The lowercase hex digit for a value below 16.
pub open spec fn nibble_char(n: u8) -> char {
    if n == 0 {
        '0'
    } else if n == 1 {
        '1'
    } else if n == 2 {
        '2'
    } else if n == 3 {
        '3'
    } else if n == 4 {
        '4'
    } else if n == 5 {
        '5'
    } else if n == 6 {
        '6'
    } else if n == 7 {
        '7'
    } else if n == 8 {
        '8'
    } else if n == 9 {
        '9'
    } else if n == 10 {
        'a'
    } else if n == 11 {
        'b'
    } else if n == 12 {
        'c'
    } else if n == 13 {
        'd'
    } else if n == 14 {
        'e'
    } else {
        'f'
    }
}

/// Lowercase hex of a byte string: two digits per byte, in input order.
pub open spec fn hex_of(s: Seq<u8>) -> Seq<char>
    decreases s.len(),
{
    if s.len() == 0 {
        Seq::empty()
    } else {
        hex_of(s.drop_last()) + seq![nibble_char(s.last() / 16), nibble_char(s.last() % 16)]
    }
}

/// Relies on hex::encode: lowercase hex, two digits per byte, in input order.
#[verifier::external_body]
pub fn encode_hex(h: &H256) -> (r: String)
    ensures
        r@ == hex_of(h@),
{
    hex::encode(&h.bytes)
}

impl View for H256 {
    type V = Seq<u8>;

    open spec fn view(&self) -> Seq<u8> {
        self.bytes@
    }
}

impl PartialEq for H256 {
    fn eq(&self, other: &H256) -> (r: bool) {
        let mut i: usize = 0;
        while i < 32
            invariant
                i <= 32,
                forall|j: int| 0 <= j < i ==> self.bytes@[j] == other.bytes@[j],
            decreases 32 - i,
        {
            if self.bytes[i] != other.bytes[i] {
                return false;
            }
            i += 1;
        }
        proof {
            assert(self.bytes@ =~= other.bytes@);
        }
        true
    }
}

impl vstd::std_specs::cmp::PartialEqSpecImpl for H256 {
    open spec fn obeys_eq_spec() -> bool {
        true
    }

    open spec fn eq_spec(&self, other: &H256) -> bool {
        self@ == other@
    }
}

impl H256 {
    /// Wrap 32 raw bytes.
    pub fn new(bytes: [u8; 32]) -> (r: H256)
        ensures
            r@ == bytes@,
    {
        H256 { bytes }
    }

    /// The all-zero digest.
    pub fn zero() -> (r: H256)
        ensures
            r@ == zero_hash(),
    {
        let bytes = [0u8; 32];
        proof {
            assert(bytes@ =~= zero_hash());
        }
        H256 { bytes }
    }

    /// Strictly-less comparison of the big-endian 256-bit values.
    pub fn lt(&self, other: &H256) -> (r: bool)
        ensures
            r == (be_value(self@) < be_value(other@)),
    {
        let mut i: usize = 0;
        while i < 32
            invariant
                i <= 32,
                forall|j: int| 0 <= j < i ==> self.bytes@[j] == other.bytes@[j],
            decreases 32 - i,
        {
            if self.bytes[i] < other.bytes[i] {
                proof {
                    lemma_be_prefix_lt(self@, other@, i as int);
                }
                return true;
            }
            if self.bytes[i] > other.bytes[i] {
                proof {
                    lemma_be_prefix_lt(other@, self@, i as int);
                }
                return false;
            }
            i += 1;
        }
        proof {
            assert(self.bytes@ =~= other.bytes@);
        }
        false
    }
}

impl From<[u8; 32]> for H256 {
    fn from(bytes: [u8; 32]) -> (r: H256) {
        H256 { bytes }
    }
}

impl vstd::std_specs::convert::FromSpecImpl<[u8; 32]> for H256 {
    open spec fn obeys_from_spec() -> bool {
        true
    }

    open spec fn from_spec(bytes: [u8; 32]) -> H256 {
        H256 { bytes }
    }
}

/// A big-endian value is below 256 to the power of its length.
proof fn lemma_be_bound(s: Seq<u8>)
    ensures
        be_value(s) < pow256(s.len()),
    decreases s.len(),
{
    if s.len() == 0 {
    } else {
        lemma_be_bound(s.drop_last());
        assert(be_value(s.drop_last()) * 256 <= (pow256((s.len() - 1) as nat) - 1) * 256)
            by (nonlinear_arith)
            requires
                be_value(s.drop_last()) <= pow256((s.len() - 1) as nat) - 1,
        ;
    }
}

/// Splitting a byte string at `k` splits its big-endian value.
proof fn lemma_be_split(s: Seq<u8>, k: int)
    requires
        0 <= k <= s.len(),
    ensures
        be_value(s) == be_value(s.take(k)) * pow256((s.len() - k) as nat) + be_value(s.skip(k)),
    decreases s.len() - k,
{
    if k == s.len() {
        assert(s.take(k) =~= s);
        assert(s.skip(k) =~= Seq::<u8>::empty());
        assert(pow256((s.len() - k) as nat) == 1);
        assert(be_value(s) * 1 == be_value(s)) by (nonlinear_arith);
    } else {
        let d = s.drop_last();
        lemma_be_split(d, k);
        assert(d.take(k) =~= s.take(k));
        assert(d.skip(k) =~= s.skip(k).drop_last());
        assert(s.skip(k).last() == s.last());
        assert(s.skip(k).len() == s.len() - k);
        let n1 = (s.len() - 1 - k) as nat;
        let a = be_value(s.take(k));
        let b = be_value(s.skip(k).drop_last());
        let l = s.last() as nat;
        assert(be_value(d) == a * pow256(n1) + b);
        assert(be_value(s) == be_value(d) * 256 + l);
        assert((a * pow256(n1) + b) * 256 + l == a * (pow256(n1) * 256) + (b * 256 + l))
            by (nonlinear_arith);
        lemma_pow256_succ(n1);
        assert(pow256(n1) * 256 == pow256((s.len() - k) as nat));
        assert(be_value(s.skip(k)) == b * 256 + l);
        assert(be_value(s) == a * pow256((s.len() - k) as nat) + be_value(s.skip(k)));
    }
}

/// 256^(n+1) == 256^n * 256.
proof fn lemma_pow256_succ(n: nat)
    ensures
        pow256(n) * 256 == pow256(n + 1),
    decreases n,
{
    if n == 0 {
    } else {
        lemma_pow256_succ((n - 1) as nat);
        assert(256 * pow256((n - 1) as nat) * 256 == 256 * (pow256((n - 1) as nat) * 256))
            by (nonlinear_arith);
    }
}

/// If two equal-length byte strings agree before index `i` and differ there,
/// the one with the smaller byte at `i` has the smaller big-endian value.
proof fn lemma_be_prefix_lt(a: Seq<u8>, b: Seq<u8>, i: int)
    requires
        a.len() == b.len(),
        0 <= i < a.len(),
        forall|j: int| 0 <= j < i ==> a[j] == b[j],
        a[i] < b[i],
    ensures
        be_value(a) < be_value(b),
{
    let n = a.len() as int;
    let p = pow256((n - i - 1) as nat);
    lemma_be_split(a, i + 1);
    lemma_be_split(b, i + 1);
    lemma_be_bound(a.skip(i + 1));
    assert(a.take(i + 1).drop_last() =~= a.take(i));
    assert(b.take(i + 1).drop_last() =~= b.take(i));
    assert(a.take(i) =~= b.take(i));
    assert(be_value(a.take(i + 1)) == be_value(a.take(i)) * 256 + a[i]);
    assert(be_value(b.take(i + 1)) == be_value(b.take(i)) * 256 + b[i]);
    let ap = be_value(a.take(i + 1));
    let bp = be_value(b.take(i + 1));
    assert(ap < bp);
    assert(a.skip(i + 1).len() == n - i - 1);
    assert(be_value(a) < (ap + 1) * p) by (nonlinear_arith)
        requires
            be_value(a) == ap * p + be_value(a.skip(i + 1)),
            be_value(a.skip(i + 1)) < p,
    ;
    assert((ap + 1) * p <= bp * p) by (nonlinear_arith)
        requires
            ap < bp,
            p >= 1,
    ;
    assert(p >= 1) by {
        lemma_pow256_pos((n - i - 1) as nat);
    }
    assert(bp * p <= be_value(b));
}

/// Equal-length byte strings with different contents have different
/// big-endian values: the 256-bit value totally orders the digests.
pub proof fn lemma_be_value_injective(a: Seq<u8>, b: Seq<u8>)
    requires
        a.len() == b.len(),
        a != b,
    ensures
        be_value(a) != be_value(b),
    decreases a.len(),
{
    if a.len() == 0 {
        assert(a =~= b);
    } else if a.last() == b.last() {
        if a.drop_last() =~= b.drop_last() {
            assert forall|i: int| 0 <= i < a.len() implies a[i] == b[i] by {
                if i < a.len() - 1 {
                    assert(a.drop_last()[i] == b.drop_last()[i]);
                }
            }
            assert(a =~= b);
        }
        lemma_be_value_injective(a.drop_last(), b.drop_last());
    } else {
        let va = be_value(a.drop_last());
        let vb = be_value(b.drop_last());
        assert((va * 256 + a.last()) % 256 == a.last()) by (nonlinear_arith)
            requires
                va >= 0 && a.last() < 256,
        ;
        assert((vb * 256 + b.last()) % 256 == b.last()) by (nonlinear_arith)
            requires
                vb >= 0 && b.last() < 256,
        ;
    }
}

/// 256^n is positive.
proof fn lemma_pow256_pos(n: nat)
    ensures
        pow256(n) >= 1,
    decreases n,
{
    if n == 0 {
    } else {
        lemma_pow256_pos((n - 1) as nat);
    }
}

} // verus!
