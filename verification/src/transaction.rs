use vstd::prelude::*;
use crate::hash::{H256, encode_hex, hex_of};

verus! {

/// What the core reads of a signed transaction: its content hash and whether
/// its embedded signature verifies.
pub ghost struct TransView {
    pub hash: Seq<u8>,
    pub sig_ok: bool,
}

/// A signed transaction as this core consumes it: an opaque signed payload
/// exposing a content hash and a signature-validity predicate. Two
/// transactions with equal hash are treated as equal for mempool and
/// block-content purposes.
#[derive(Clone, Copy, Debug)]
pub struct SignedTransaction {
    pub hash: H256,
    pub sig_ok: bool,
}

impl View for SignedTransaction {
    type V = TransView;

    open spec fn view(&self) -> TransView {
        TransView { hash: self.hash@, sig_ok: self.sig_ok }
    }
}

impl SignedTransaction {
    /// Wrap a content hash and the outcome of its signature verification.
    pub fn new(hash: H256, sig_ok: bool) -> (r: SignedTransaction)
        ensures
            r@ == (TransView { hash: hash@, sig_ok }),
    {
        SignedTransaction { hash, sig_ok }
    }

    /// The content hash, deterministic across nodes.
    pub fn hash(&self) -> (r: H256)
        ensures
            r@ == self@.hash,
    {
        self.hash
    }

    /// Whether the embedded signature verifies.
    pub fn sign_check(&self) -> (r: bool)
        ensures
            r == self@.sig_ok,
    {
        self.sig_ok
    }
}

impl PartialEq for SignedTransaction {
    fn eq(&self, other: &SignedTransaction) -> (r: bool) {
        self.hash == other.hash && self.sig_ok == other.sig_ok
    }
}

impl vstd::std_specs::cmp::PartialEqSpecImpl for SignedTransaction {
    open spec fn obeys_eq_spec() -> bool {
        true
    }

    open spec fn eq_spec(&self, other: &SignedTransaction) -> bool {
        self@ == other@
    }
}

/// Display form of a transaction: its content hash in lowercase hex.
#[derive(Debug)]
pub struct PrintableTransaction {
    pub hash: String,
}

impl PrintableTransaction {
    /// Hex-render every transaction of a list, in order.
    pub fn from_signedtx_vec(trans: &Vec<SignedTransaction>) -> (r: Vec<PrintableTransaction>)
        ensures
            r@.len() == trans@.len(),
            forall|i: int| 0 <= i < trans@.len() ==> r@[i].hash@ == hex_of(trans@[i]@.hash),
    {
        let mut out: Vec<PrintableTransaction> = Vec::new();
        let mut i: usize = 0;
        while i < trans.len()
            invariant
                i <= trans@.len(),
                out@.len() == i,
                forall|j: int| 0 <= j < i ==> out@[j].hash@ == hex_of(trans@[j]@.hash),
            decreases trans@.len() - i,
        {
            out.push(PrintableTransaction { hash: encode_hex(&trans[i].hash) });
            i += 1;
        }
        out
    }
}

} // verus!
