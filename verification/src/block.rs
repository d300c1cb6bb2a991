use vstd::prelude::*;
use crate::config::{DIFFICULTY, difficulty_target, gen_difficulty_array};
use crate::hash::{H256, encode_hex, hex_of, sha256, sha256_of, zero_hash};
use crate::merkle::{MerkleTree, leaf_hashes, merkle_root_of};
use crate::transaction::{PrintableTransaction, SignedTransaction, TransView};

verus! {

/// What a header holds, with digests as their bytes.
pub ghost struct HeaderView {
    pub parent: Seq<u8>,
    pub nonce: u32,
    pub difficulty: Seq<u8>,
    pub timestamp: u64,
    pub merkle_root: Seq<u8>,
}

/// What a block holds.
pub ghost struct BlockView {
    pub hash: Seq<u8>,
    pub index: int,
    pub header: HeaderView,
    pub content: Seq<TransView>,
}

/// A block header. Its hash is the block's identity, and the byte layout of
/// the hashed pre-image is a wire contract.
#[derive(Clone, Copy, Debug)]
pub struct Header {
    pub parent: H256,
    pub nonce: u32,
    pub difficulty: H256,
    pub timestamp: u64,
    pub merkle_root: H256,
}

/// An ordered sequence of signed transactions inside a block.
#[derive(Clone, Debug)]
pub struct Content {
    pub trans: Vec<SignedTransaction>,
}

/// A header plus a content payload; identified by its header hash. `index` is
/// the distance from genesis, assigned by the owning chain on insert.
#[derive(Clone, Debug)]
pub struct Block {
    pub hash: H256,
    pub index: usize,
    pub header: Header,
    pub content: Content,
}

/// The big-endian bytes of a 32-bit integer.
pub open spec fn u32_be_bytes(n: u32) -> Seq<u8> {
    seq![
        ((n >> 24) & 0xff) as u8,
        ((n >> 16) & 0xff) as u8,
        ((n >> 8) & 0xff) as u8,
        (n & 0xff) as u8,
    ]
}

/// The big-endian bytes of a 64-bit integer.
pub open spec fn u64_be_bytes(n: u64) -> Seq<u8> {
    seq![
        ((n >> 56) & 0xff) as u8,
        ((n >> 48) & 0xff) as u8,
        ((n >> 40) & 0xff) as u8,
        ((n >> 32) & 0xff) as u8,
        ((n >> 24) & 0xff) as u8,
        ((n >> 16) & 0xff) as u8,
        ((n >> 8) & 0xff) as u8,
        (n & 0xff) as u8,
    ]
}

/// The 108-byte pre-image a header's hash is taken over, in this exact order:
/// parent, nonce as 4 big-endian bytes, difficulty, timestamp as 8 big-endian
/// bytes, merkle root. No length prefixes, no separators.
pub open spec fn header_preimage(h: HeaderView) -> Seq<u8> {
    h.parent + u32_be_bytes(h.nonce) + h.difficulty + u64_be_bytes(h.timestamp) + h.merkle_root
}

/// The hash a header's bytes dictate.
pub open spec fn header_hash_bytes(h: HeaderView) -> Seq<u8> {
    sha256_of(header_preimage(h))
}

/// The leaf hashes of a content view, in order.
pub open spec fn content_hashes(c: Seq<TransView>) -> Seq<Seq<u8>> {
    Seq::new(c.len(), |i: int| c[i].hash)
}

impl View for Header {
    type V = HeaderView;

    open spec fn view(&self) -> HeaderView {
        HeaderView {
            parent: self.parent@,
            nonce: self.nonce,
            difficulty: self.difficulty@,
            timestamp: self.timestamp,
            merkle_root: self.merkle_root@,
        }
    }
}

impl View for Content {
    type V = Seq<TransView>;

    open spec fn view(&self) -> Seq<TransView> {
        Seq::new(self.trans@.len(), |i: int| self.trans@[i]@)
    }
}

impl View for Block {
    type V = BlockView;

    open spec fn view(&self) -> BlockView {
        BlockView {
            hash: self.hash@,
            index: self.index as int,
            header: self.header@,
            content: self.content@,
        }
    }
}

/// Append a digest's 32 bytes.
fn push_digest(v: &mut Vec<u8>, h: &H256)
    ensures
        final (v)@ == old(v)@ + h@,
{
    let ghost base = v@;
    let mut i: usize = 0;
    while i < 32
        invariant
            i <= 32,
            v@ == base + h@.take(i as int),
        decreases 32 - i,
    {
        v.push(h.bytes[i]);
        proof {
            assert(v@ =~= base + h@.take(i + 1));
        }
        i += 1;
    }
    proof {
        assert(base + h@.take(32) =~= base + h@);
    }
}

/// Append a 32-bit integer as 4 big-endian bytes.
fn push_u32_be(v: &mut Vec<u8>, n: u32)
    ensures
        final (v)@ == old(v)@ + u32_be_bytes(n),
{
    proof {
        assert(((n >> 24) & 0xff) < 256 && ((n >> 16) & 0xff) < 256 && ((n >> 8) & 0xff) < 256
            && (n & 0xff) < 256) by (bit_vector);
    }
    v.push(((n >> 24) & 0xff) as u8);
    v.push(((n >> 16) & 0xff) as u8);
    v.push(((n >> 8) & 0xff) as u8);
    v.push((n & 0xff) as u8);
    proof {
        assert(v@ =~= old(v)@ + u32_be_bytes(n));
    }
}

/// Append a 64-bit integer as 8 big-endian bytes.
fn push_u64_be(v: &mut Vec<u8>, n: u64)
    ensures
        final (v)@ == old(v)@ + u64_be_bytes(n),
{
    proof {
        assert(((n >> 56) & 0xff) < 256 && ((n >> 48) & 0xff) < 256 && ((n >> 40) & 0xff) < 256
            && ((n >> 32) & 0xff) < 256 && ((n >> 24) & 0xff) < 256 && ((n >> 16) & 0xff) < 256
            && ((n >> 8) & 0xff) < 256 && (n & 0xff) < 256) by (bit_vector);
    }
    v.push(((n >> 56) & 0xff) as u8);
    v.push(((n >> 48) & 0xff) as u8);
    v.push(((n >> 40) & 0xff) as u8);
    v.push(((n >> 32) & 0xff) as u8);
    v.push(((n >> 24) & 0xff) as u8);
    v.push(((n >> 16) & 0xff) as u8);
    v.push(((n >> 8) & 0xff) as u8);
    v.push((n & 0xff) as u8);
    proof {
        assert(v@ =~= old(v)@ + u64_be_bytes(n));
    }
}

impl Header {
    /// Assemble a header; the timestamp is truncated to 64 bits of
    /// milliseconds.
    pub fn new(parent: &H256, nonce: u32, timestamp: u128, difficulty: &H256, merkle_root: &H256)
        -> (r: Header)
        ensures
            r@ == (HeaderView {
                parent: parent@,
                nonce,
                difficulty: difficulty@,
                timestamp: timestamp as u64,
                merkle_root: merkle_root@,
            }),
    {
        Header {
            parent: *parent,
            nonce,
            difficulty: *difficulty,
            timestamp: #[verifier::truncate] (timestamp as u64),
            merkle_root: *merkle_root,
        }
    }

    /// SHA-256 over the 108-byte pre-image.
    pub fn hash(&self) -> (r: H256)
        ensures
            r@ == header_hash_bytes(self@),
    {
        let mut v: Vec<u8> = Vec::new();
        push_digest(&mut v, &self.parent);
        push_u32_be(&mut v, self.nonce);
        push_digest(&mut v, &self.difficulty);
        push_u64_be(&mut v, self.timestamp);
        push_digest(&mut v, &self.merkle_root);
        proof {
            assert(v@ =~= header_preimage(self@));
        }
        sha256(&v)
    }

    /// Advance the nonce cursor, wrapping at 2^32.
    pub fn change_nonce(&mut self)
        ensures
            final (self)@ == (HeaderView { nonce: wrap_inc(old(self).nonce), ..old(self)@ }),
    {
        if self.nonce == u32::MAX {
            self.nonce = 0;
        } else {
            self.nonce = self.nonce + 1;
        }
    }

    /// The merkle root this header commits to.
    pub fn get_merkle_root(&self) -> (r: H256)
        ensures
            r@ == self@.merkle_root,
    {
        self.merkle_root
    }
}

/// A nonce increment, wrapping at 2^32.
pub open spec fn wrap_inc(n: u32) -> u32 {
    if n == u32::MAX {
        0
    } else {
        (n + 1) as u32
    }
}

impl PartialEq for Header {
    fn eq(&self, other: &Header) -> (r: bool) {
        self.parent == other.parent && self.nonce == other.nonce && self.difficulty
            == other.difficulty && self.timestamp == other.timestamp && self.merkle_root
            == other.merkle_root
    }
}

impl vstd::std_specs::cmp::PartialEqSpecImpl for Header {
    open spec fn obeys_eq_spec() -> bool {
        true
    }

    open spec fn eq_spec(&self, other: &Header) -> bool {
        self@ == other@
    }
}

impl Content {
    /// An empty payload.
    pub fn new() -> (r: Content)
        ensures
            r@ =~= Seq::<TransView>::empty(),
    {
        Content { trans: Vec::new() }
    }

    /// A payload holding the given transactions, in order.
    pub fn new_with_trans(trans: &Vec<SignedTransaction>) -> (r: Content)
        ensures
            r@.len() == trans@.len(),
            forall|i: int| 0 <= i < trans@.len() ==> r@[i] == trans@[i]@,
    {
        let mut own: Vec<SignedTransaction> = Vec::new();
        let mut i: usize = 0;
        while i < trans.len()
            invariant
                i <= trans@.len(),
                own@.len() == i,
                forall|j: int| 0 <= j < i ==> own@[j] == trans@[j],
            decreases trans@.len() - i,
        {
            own.push(trans[i]);
            i += 1;
        }
        Content { trans: own }
    }

    /// Append one transaction.
    pub fn add_tran(&mut self, tran: SignedTransaction)
        ensures
            final (self)@ == old(self)@.push(tran@),
    {
        self.trans.push(tran);
        proof {
            assert(self@ =~= old(self)@.push(tran@));
        }
    }

    /// The Merkle root of the transaction hashes, in their given order.
    pub fn merkle_root(&self) -> (r: H256)
        ensures
            r@ == merkle_root_of(content_hashes(self@)),
    {
        let tree = MerkleTree::new(&self.trans);
        proof {
            assert(leaf_hashes(self.trans@) =~= content_hashes(self@));
        }
        tree.root()
    }

    /// The hash of every transaction inside, in order.
    pub fn get_trans_hashes(&self) -> (r: Vec<H256>)
        ensures
            r@.len() == self@.len(),
            forall|i: int| 0 <= i < self@.len() ==> r@[i]@ == self@[i].hash,
    {
        let mut hashes: Vec<H256> = Vec::new();
        let mut i: usize = 0;
        while i < self.trans.len()
            invariant
                i <= self.trans@.len(),
                hashes@.len() == i,
                forall|j: int| 0 <= j < i ==> hashes@[j]@ == self@[j].hash,
            decreases self.trans@.len() - i,
        {
            hashes.push(self.trans[i].hash);
            i += 1;
        }
        hashes
    }
}

impl PartialEq for Content {
    fn eq(&self, other: &Content) -> (r: bool) {
        if self.trans.len() != other.trans.len() {
            assert(self@.len() != other@.len());
            return false;
        }
        let mut i: usize = 0;
        while i < self.trans.len()
            invariant
                self.trans@.len() == other.trans@.len(),
                i <= self.trans@.len(),
                forall|j: int| 0 <= j < i ==> self@[j] == other@[j],
            decreases self.trans@.len() - i,
        {
            if !(self.trans[i] == other.trans[i]) {
                assert(self@[i as int] != other@[i as int]);
                return false;
            }
            i += 1;
        }
        proof {
            assert(self@ =~= other@);
        }
        true
    }
}

impl vstd::std_specs::cmp::PartialEqSpecImpl for Content {
    open spec fn obeys_eq_spec() -> bool {
        true
    }

    open spec fn eq_spec(&self, other: &Content) -> bool {
        self@ == other@
    }
}

/// The genesis block: index zero, an all-zero header except for the difficulty
/// taken from configuration, and no transactions.
pub open spec fn genesis_view() -> BlockView {
    BlockView {
        hash: zero_hash(),
        index: 0,
        header: HeaderView {
            parent: zero_hash(),
            nonce: 0,
            difficulty: difficulty_target(DIFFICULTY),
            timestamp: 0,
            merkle_root: zero_hash(),
        },
        content: Seq::empty(),
    }
}

impl Block {
    /// The chain's root block.
    pub fn genesis() -> (r: Block)
        ensures
            r@ == genesis_view(),
    {
        let zero = H256::zero();
        let difficulty = H256::new(gen_difficulty_array(DIFFICULTY));
        let header = Header {
            parent: zero,
            nonce: 0,
            difficulty,
            timestamp: 0,
            merkle_root: zero,
        };
        let content = Content { trans: Vec::new() };
        let r = Block { hash: zero, index: 0, header, content };
        proof {
            assert(r@.content =~= Seq::<TransView>::empty());
        }
        r
    }

    /// A block over the given header and content. Its hash is the header
    /// hash; its index is assigned later, by the chain that accepts it.
    pub fn new(header: Header, content: Content) -> (r: Block)
        ensures
            r@.hash == header_hash_bytes(header@),
            r@.index == 0,
            r@.header == header@,
            r@.content == content@,
    {
        let hash = header.hash();
        Block { hash, index: 0, header, content }
    }

    /// The block's identity.
    pub fn get_hash(&self) -> (r: H256)
        ensures
            r@ == self@.hash,
    {
        self.hash
    }

    /// Whether every transaction of the content passes its signature check.
    pub fn validate_trans(&self) -> (r: bool)
        ensures
            r == (forall|i: int| 0 <= i < self@.content.len() ==> self@.content[i].sig_ok),
    {
        let mut i: usize = 0;
        while i < self.content.trans.len()
            invariant
                i <= self.content.trans@.len(),
                forall|j: int| 0 <= j < i ==> self@.content[j].sig_ok,
            decreases self.content.trans@.len() - i,
        {
            if !self.content.trans[i].sign_check() {
                assert(!self@.content[i as int].sig_ok);
                return false;
            }
            i += 1;
        }
        true
    }

    /// Overwrite the stored hash, leaving the rest untouched.
    pub fn change_hash(&mut self, hash: &H256)
        ensures
            final (self)@ == (BlockView { hash: hash@, ..old(self)@ }),
    {
        self.hash = *hash;
    }
}

impl PartialEq for Block {
    fn eq(&self, other: &Block) -> (r: bool) {
        self.hash == other.hash && self.index == other.index && self.header == other.header
            && self.content == other.content
    }
}

impl vstd::std_specs::cmp::PartialEqSpecImpl for Block {
    open spec fn obeys_eq_spec() -> bool {
        true
    }

    open spec fn eq_spec(&self, other: &Block) -> bool {
        self@ == other@
    }
}

/// Block equality is structural over every field: two blocks differing in
/// header or in content compare unequal, whatever their stored hashes say.
pub proof fn lemma_block_equality_sensitive(a: Block, b: Block)
    requires
        a@.header != b@.header || a@.content != b@.content,
    ensures
        a@ != b@,
{
}

/// The text chrono renders for a millisecond timestamp, a function of the
/// timestamp alone. Verified code reaches it only through `format_timestamp`.
pub uninterp spec fn time_display_of(ms: u64) -> Seq<char>;

/// The largest millisecond timestamp that can be rendered: chrono's calendar
/// ends at 262142-12-31T23:59:59.999 UTC, and its conversion from a system
/// time panics beyond it.
pub const TIMESTAMP_DISPLAY_MAX_MS: u64 = 8_210_266_876_799_999;

/// Relies on chrono's UTC DateTime formatting with "%Y-%m-%d %H:%M:%S%.3f":
/// an all-numeric rendering, determined by the millisecond timestamp alone.
/// `DateTime::<Utc>::from` unwraps the conversion and panics past the end of
/// chrono's calendar, so timestamps beyond it are not admitted.
#[verifier::external_body]
fn format_timestamp(ms: u64) -> (r: String)
    requires
        ms <= TIMESTAMP_DISPLAY_MAX_MS,
    ensures
        r@ == time_display_of(ms),
{
    let t = std::time::UNIX_EPOCH + std::time::Duration::from_millis(ms);
    let datetime = chrono::DateTime::<chrono::Utc>::from(t);
    datetime.format("%Y-%m-%d %H:%M:%S%.3f").to_string()
}

/// A block rendered for display: digests in lowercase hex, the timestamp as a
/// UTC date and time.
#[derive(Debug)]
pub struct PrintableBlock {
    pub hash: String,
    pub parent_hash: String,
    pub index: usize,
    pub nonce: u32,
    pub difficulty: String,
    pub timestamp: String,
    pub merkle_root: String,
}

impl PrintableBlock {
    /// Render every block of a list, in order. Timestamps must fall within
    /// the displayable calendar.
    pub fn from_block_vec(blocks: &Vec<Block>) -> (r: Vec<PrintableBlock>)
        requires
            forall|i: int| 0 <= i < blocks@.len() ==> (#[trigger] blocks@[i]).header.timestamp
                <= TIMESTAMP_DISPLAY_MAX_MS,
        ensures
            r@.len() == blocks@.len(),
            forall|i: int| 0 <= i < blocks@.len() ==> {
                &&& (#[trigger] r@[i]).hash@ == hex_of(blocks@[i]@.hash)
                &&& r@[i].parent_hash@ == hex_of(blocks@[i]@.header.parent)
                &&& r@[i].index == blocks@[i]@.index
                &&& r@[i].nonce == blocks@[i]@.header.nonce
                &&& r@[i].difficulty@ == hex_of(blocks@[i]@.header.difficulty)
                &&& r@[i].timestamp@ == time_display_of(blocks@[i]@.header.timestamp)
                &&& r@[i].merkle_root@ == hex_of(blocks@[i]@.header.merkle_root)
            },
    {
        let mut pblocks: Vec<PrintableBlock> = Vec::new();
        let mut i: usize = 0;
        while i < blocks.len()
            invariant
                i <= blocks@.len(),
                forall|j: int| 0 <= j < blocks@.len() ==> (#[trigger] blocks@[j]).header.timestamp
                    <= TIMESTAMP_DISPLAY_MAX_MS,
                pblocks@.len() == i,
                forall|j: int| 0 <= j < i ==> {
                    &&& (#[trigger] pblocks@[j]).hash@ == hex_of(blocks@[j]@.hash)
                    &&& pblocks@[j].parent_hash@ == hex_of(blocks@[j]@.header.parent)
                    &&& pblocks@[j].index == blocks@[j]@.index
                    &&& pblocks@[j].nonce == blocks@[j]@.header.nonce
                    &&& pblocks@[j].difficulty@ == hex_of(blocks@[j]@.header.difficulty)
                    &&& pblocks@[j].timestamp@ == time_display_of(blocks@[j]@.header.timestamp)
                    &&& pblocks@[j].merkle_root@ == hex_of(blocks@[j]@.header.merkle_root)
                },
            decreases blocks@.len() - i,
        {
            let b = &blocks[i];
            let p = PrintableBlock {
                hash: encode_hex(&b.hash),
                parent_hash: encode_hex(&b.header.parent),
                index: b.index,
                nonce: b.header.nonce,
                difficulty: encode_hex(&b.header.difficulty),
                timestamp: format_timestamp(b.header.timestamp),
                merkle_root: encode_hex(&b.header.merkle_root),
            };
            pblocks.push(p);
            i += 1;
        }
        pblocks
    }
}

/// A content payload rendered for display.
#[derive(Debug)]
pub struct PrintableContent {
    pub trans: Vec<PrintableTransaction>,
}

impl PrintableContent {
    /// Render every content of a list, in order.
    pub fn from_content_vec(contents: &Vec<Content>) -> (r: Vec<PrintableContent>)
        ensures
            r@.len() == contents@.len(),
            forall|i: int| 0 <= i < contents@.len() ==> (#[trigger] r@[i]).trans@.len()
                == contents@[i]@.len(),
            forall|i: int, j: int|
                0 <= i < contents@.len() && 0 <= j < contents@[i]@.len() ==> (#[trigger] r@[i].trans@[j]).hash@
                    == hex_of(contents@[i]@[j].hash),
    {
        let mut pcontents: Vec<PrintableContent> = Vec::new();
        let mut i: usize = 0;
        while i < contents.len()
            invariant
                i <= contents@.len(),
                pcontents@.len() == i,
                forall|j: int| 0 <= j < i ==> (#[trigger] pcontents@[j]).trans@.len()
                    == contents@[j]@.len(),
                forall|j: int, k: int|
                    0 <= j < i && 0 <= k < contents@[j]@.len() ==> (
                    #[trigger] pcontents@[j].trans@[k]).hash@ == hex_of(contents@[j]@[k].hash),
            decreases contents@.len() - i,
        {
            let pts = PrintableTransaction::from_signedtx_vec(&contents[i].trans);
            proof {
                assert(forall|k: int| 0 <= k < contents@[i as int]@.len() ==> (#[trigger] pts@[k]).hash@
                    == hex_of(contents@[i as int]@[k].hash));
            }
            pcontents.push(PrintableContent { trans: pts });
            i += 1;
        }
        pcontents
    }
}

} // verus!
