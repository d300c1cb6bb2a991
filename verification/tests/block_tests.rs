use pow_chain::block::{Block, Content, Header, PrintableBlock, PrintableContent};
use pow_chain::config::{gen_difficulty_array, DIFFICULTY, EASIEST_DIF};
use pow_chain::hash::H256;
use pow_chain::merkle::MerkleTree;
use pow_chain::transaction::SignedTransaction;

fn sample_transaction(seed: u8) -> SignedTransaction {
    SignedTransaction::new(H256::new([seed; 32]), true)
}

fn sample_content(seed: u8) -> Content {
    let trans = vec![
        sample_transaction(seed),
        sample_transaction(seed.wrapping_add(1)),
        sample_transaction(seed.wrapping_add(2)),
    ];
    Content::new_with_trans(&trans)
}

fn sample_header(parent: &H256, content: &Content, nonce: u32) -> Header {
    let difficulty: H256 = H256::new(gen_difficulty_array(EASIEST_DIF));
    Header::new(
        parent,
        nonce,
        1_700_000_000_000u128 + nonce as u128,
        &difficulty,
        &content.merkle_root(),
    )
}

fn sha256_bytes(data: &[u8]) -> [u8; 32] {
    let digest = ring::digest::digest(&ring::digest::SHA256, data);
    let mut out = [0u8; 32];
    out.copy_from_slice(digest.as_ref());
    out
}

#[test]
fn test_genesis() {
    let g = Block::genesis();
    assert_eq!(0, g.index);
    assert!(g.hash == H256::from([0u8; 32]));
    assert!(DIFFICULTY > 0);
    assert!(DIFFICULTY < 256);
}

#[test]
fn test_content_new_with_trans() {
    let mut trans = Vec::<SignedTransaction>::new();
    for i in 0..3u8 {
        trans.push(sample_transaction(i));
    }
    let _content = Content::new_with_trans(&trans);
}

#[test]
fn test_difficulty() {
    let test_array1 = gen_difficulty_array(8);
    assert_eq!(0, test_array1[0]);
    assert_eq!(255, test_array1[1]);
    assert_eq!(255, test_array1[31]);

    let test_array1 = gen_difficulty_array(9);
    assert_eq!(0, test_array1[0]);
    assert_eq!(0x7f, test_array1[1]);
    assert_eq!(255, test_array1[31]);

    let test_array2 = gen_difficulty_array(10);
    assert_eq!(0, test_array2[0]);
    assert_eq!(63, test_array2[1]);
    assert_eq!(255, test_array2[2]);

    let test_array3 = gen_difficulty_array(15);
    assert_eq!(0, test_array3[0]);
    assert_eq!(1, test_array3[1]);
    assert_eq!(0, test_array3[0]);
    assert_eq!(255, test_array1[31]);

    let test_array4 = gen_difficulty_array(21);
    assert_eq!(0, test_array4[0]);
    assert_eq!(0, test_array4[1]);
    assert_eq!(7, test_array4[2]);
}

#[test]
fn test_difficulty_edges() {
    let all_ff = gen_difficulty_array(0);
    let all_zero = gen_difficulty_array(256);
    for i in 0..32 {
        assert_eq!(0xff, all_ff[i]);
        assert_eq!(0, all_zero[i]);
    }
}

#[test]
fn test_block_equality() {
    let rand_1: [u8; 32] = [0; 32];
    let rand_2: [u8; 32] = [1; 32];

    let content_1 = sample_content(10);
    let content_2 = sample_content(20);
    let header_1 = sample_header(&rand_1.into(), &content_1, 1);
    let header_2 = sample_header(&rand_1.into(), &content_2, 2);
    let header_3 = sample_header(&rand_2.into(), &content_1, 3);

    let block_1 = Block::new(header_1.clone(), content_1.clone());
    let block_2 = Block::new(header_2.clone(), content_1.clone());
    let block_3 = Block::new(header_3.clone(), content_1.clone());
    let block_4 = Block::new(header_1.clone(), content_2.clone());
    let block_5 = Block::new(header_1.clone(), content_1.clone());

    // different header
    assert_ne!(block_1, block_2);
    assert_ne!(block_1, block_3);
    // different content
    assert_ne!(block_1, block_4);
    // same
    assert_eq!(block_1, block_5);
}

#[test]
fn test_get_trans_hashed() {
    let t_1 = sample_transaction(1);
    let t_2 = sample_transaction(2);
    let t_3 = sample_transaction(3);
    let content = Content::new_with_trans(&vec![t_1.clone(), t_2.clone(), t_3.clone()]);
    let res = content.get_trans_hashes();
    assert_eq!(t_1.hash, res[0]);
    assert_eq!(t_2.hash, res[1]);
    assert_eq!(t_3.hash, res[2]);
}

#[test]
fn test_merkle_empty_root_is_zero() {
    let tree = MerkleTree::new(&Vec::<SignedTransaction>::new());
    assert_eq!(tree.root(), H256::zero());
}

#[test]
fn test_merkle_single_duplicates_leaf() {
    let t = sample_transaction(7);
    let tree = MerkleTree::new(&vec![t.clone()]);
    let mut pre = Vec::new();
    pre.extend_from_slice(&t.hash.bytes);
    pre.extend_from_slice(&t.hash.bytes);
    assert_eq!(tree.root(), H256::new(sha256_bytes(&pre)));
}

#[test]
fn test_merkle_pair_and_odd_duplication() {
    let t_1 = sample_transaction(1);
    let t_2 = sample_transaction(2);
    let t_3 = sample_transaction(3);

    let pair = MerkleTree::new(&vec![t_1.clone(), t_2.clone()]);
    let mut pre = Vec::new();
    pre.extend_from_slice(&t_1.hash.bytes);
    pre.extend_from_slice(&t_2.hash.bytes);
    let p12 = sha256_bytes(&pre);
    assert_eq!(pair.root(), H256::new(p12));

    let triple = MerkleTree::new(&vec![t_1, t_2, t_3.clone()]);
    let mut pre33 = Vec::new();
    pre33.extend_from_slice(&t_3.hash.bytes);
    pre33.extend_from_slice(&t_3.hash.bytes);
    let p33 = sha256_bytes(&pre33);
    let mut top = Vec::new();
    top.extend_from_slice(&p12);
    top.extend_from_slice(&p33);
    assert_eq!(triple.root(), H256::new(sha256_bytes(&top)));
}

#[test]
fn test_header_hash_layout() {
    let parent = H256::new([3u8; 32]);
    let difficulty = H256::new([5u8; 32]);
    let merkle_root = H256::new([9u8; 32]);
    let nonce: u32 = 0x01020304;
    let timestamp: u64 = 0x1112131415161718;
    let header = Header::new(&parent, nonce, timestamp as u128, &difficulty, &merkle_root);

    let mut pre = Vec::new();
    pre.extend_from_slice(&parent.bytes);
    pre.extend_from_slice(&nonce.to_be_bytes());
    pre.extend_from_slice(&difficulty.bytes);
    pre.extend_from_slice(&timestamp.to_be_bytes());
    pre.extend_from_slice(&merkle_root.bytes);
    assert_eq!(pre.len(), 108);
    assert_eq!(header.hash(), H256::new(sha256_bytes(&pre)));
}

#[test]
fn test_validate_trans() {
    let good = Content::new_with_trans(&vec![sample_transaction(1), sample_transaction(2)]);
    let header = sample_header(&H256::zero(), &good, 0);
    let block = Block::new(header, good);
    assert!(block.validate_trans());

    let mut mixed = Content::new();
    mixed.add_tran(sample_transaction(1));
    mixed.add_tran(SignedTransaction::new(H256::new([2u8; 32]), false));
    let header = sample_header(&H256::zero(), &mixed, 0);
    let block = Block::new(header, mixed);
    assert!(!block.validate_trans());
}

#[test]
fn test_printable_block_rendering() {
    let content = Content::new();
    let zero = H256::zero();
    let header = Header::new(&zero, 42, 0u128, &zero, &zero);
    let block = Block::new(header, content);
    let printed = PrintableBlock::from_block_vec(&vec![block.clone()]);
    assert_eq!(printed.len(), 1);
    let zeros = "0".repeat(64);
    assert_eq!(printed[0].parent_hash, zeros);
    assert_eq!(printed[0].difficulty, zeros);
    assert_eq!(printed[0].merkle_root, zeros);
    assert_eq!(printed[0].hash, hex::encode(&block.hash.bytes));
    assert_eq!(printed[0].nonce, 42);
    assert_eq!(printed[0].timestamp, "1970-01-01 00:00:00.000");
}

#[test]
fn test_printable_content_rendering() {
    let t_1 = sample_transaction(0xab);
    let t_2 = sample_transaction(0xcd);
    let content = Content::new_with_trans(&vec![t_1, t_2]);
    let printed = PrintableContent::from_content_vec(&vec![content]);
    assert_eq!(printed.len(), 1);
    assert_eq!(printed[0].trans.len(), 2);
    assert_eq!(printed[0].trans[0].hash, "ab".repeat(32));
    assert_eq!(printed[0].trans[1].hash, "cd".repeat(32));
}

#[test]
fn test_change_hash_and_change_nonce() {
    let content = Content::new();
    let header = sample_header(&H256::zero(), &content, 0);
    let mut block = Block::new(header, content);
    let other = H256::new([0x11u8; 32]);
    block.change_hash(&other);
    assert_eq!(block.get_hash(), other);

    let content = Content::new();
    let mut header = sample_header(&H256::zero(), &content, u32::MAX);
    header.change_nonce();
    assert_eq!(header.nonce, 0);
    header.change_nonce();
    assert_eq!(header.nonce, 1);
}

#[test]
fn test_hash_ordering_is_big_endian() {
    let mut low = [0u8; 32];
    low[31] = 0xff;
    let mut high = [0u8; 32];
    high[0] = 1;
    let small = H256::new(low);
    let big = H256::new(high);
    assert!(small.lt(&big));
    assert!(!big.lt(&small));
    assert!(!big.lt(&big));
    assert!(H256::zero().lt(&small));
}
