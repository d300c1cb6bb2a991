use pow_chain::block::{Block, Content, Header};
use pow_chain::blockchain::Blockchain;
use pow_chain::config::{gen_difficulty_array, BLOCK_SIZE_LIMIT, EASIEST_DIF, MINING_STEP};
use pow_chain::hash::H256;
use pow_chain::mempool::MemPool;
use pow_chain::miner::{mining_base, receive_block, ControlSignal, Miner, OperatingState};
use pow_chain::transaction::SignedTransaction;

const NOW_MS: u64 = 1_700_000_000_000;

fn sample_transaction(seed: u8) -> SignedTransaction {
    SignedTransaction::new(H256::new([seed; 32]), true)
}

fn fresh_node(difficulty_bits: usize) -> (Blockchain, MemPool, Miner) {
    let mut chain = Blockchain::new();
    let difficulty = H256::new(gen_difficulty_array(difficulty_bits));
    chain.change_difficulty(&difficulty);
    (chain, MemPool::new(), Miner::new())
}

fn fill_pool(pool: &mut MemPool, base: u8, count: usize) {
    for i in 0..count {
        assert!(pool.add_with_check(&sample_transaction(base + i as u8)));
    }
}

fn mine_block(parent: &H256, content: Content, difficulty: &H256) -> Block {
    let merkle = content.merkle_root();
    let mut header = Header::new(parent, 0, NOW_MS as u128, difficulty, &merkle);
    while !mining_base(&mut header, difficulty.clone()) {}
    Block::new(header, content)
}

#[test]
fn test_trivial_mine() {
    let (mut chain, mut pool, mut miner) = fresh_node(0);
    fill_pool(&mut pool, 1, BLOCK_SIZE_LIMIT);
    assert_eq!(0, miner.nonce);
    let announce = miner.mining(&mut chain, &mut pool, NOW_MS);
    assert!(announce.is_some());
    assert_eq!(0, miner.nonce);
    assert_eq!(1, miner.mined_num);
    assert_eq!(2, chain.length());
    assert!(pool.empty());
    let tip = chain.tip();
    assert_eq!(announce.unwrap(), tip);
}

#[test]
fn test_impossible_mine() {
    let (mut chain, mut pool, mut miner) = fresh_node(256);
    fill_pool(&mut pool, 1, BLOCK_SIZE_LIMIT);
    let announce = miner.mining(&mut chain, &mut pool, NOW_MS);
    assert!(announce.is_none());
    assert_eq!(MINING_STEP, miner.nonce);
    assert_eq!(0, miner.mined_num);
    assert_eq!(1, chain.length());
    assert_eq!(BLOCK_SIZE_LIMIT, pool.size());
}

#[test]
fn test_empty_pool_mine() {
    let (mut chain, mut pool, mut miner) = fresh_node(0);
    let announce = miner.mining(&mut chain, &mut pool, NOW_MS);
    assert!(announce.is_none());
    assert_eq!(0, miner.nonce);
    assert_eq!(1, chain.length());
    assert!(pool.empty());
}

#[test]
fn test_mining_base_nonce_cursor() {
    let zero = H256::zero();
    let impossible = H256::new(gen_difficulty_array(256));
    let mut header = Header::new(&zero, 5, NOW_MS as u128, &impossible, &zero);
    assert!(!mining_base(&mut header, impossible));
    assert_eq!(5 + MINING_STEP, header.nonce);

    let easiest = H256::new(gen_difficulty_array(0));
    let mut header = Header::new(&zero, 7, NOW_MS as u128, &easiest, &zero);
    assert!(mining_base(&mut header, easiest));
    assert_eq!(7, header.nonce);
}

#[test]
fn test_control_signals() {
    let mut miner = Miner::new();
    assert_eq!(miner.operating_state, OperatingState::Paused);
    miner.handle_control_signal(ControlSignal::Start(50));
    assert_eq!(miner.operating_state, OperatingState::Run(50));
    miner.handle_control_signal(ControlSignal::Paused);
    assert_eq!(miner.operating_state, OperatingState::Paused);
    miner.handle_control_signal(ControlSignal::Exit);
    assert_eq!(miner.operating_state, OperatingState::ShutDown);
}

#[test]
fn test_block_relay() {
    let (mut chain_a, mut pool_a, mut miner_a) = fresh_node(0);
    let (mut chain_b, mut pool_b, mut miner_b) = fresh_node(0);
    let (mut chain_c, mut pool_c, mut miner_c) = fresh_node(0);

    // A mines; the block reaches B, then C.
    fill_pool(&mut pool_a, 1, 3);
    let announce = miner_a.mining(&mut chain_a, &mut pool_a, NOW_MS).unwrap();
    let block_1 = chain_a.get_block(&announce).unwrap();
    assert!(receive_block(&mut chain_b, &mut pool_b, &block_1));
    assert!(receive_block(&mut chain_c, &mut pool_c, &block_1));
    assert_eq!(2, chain_a.length());
    assert_eq!(chain_a.length(), chain_b.length());
    assert_eq!(chain_a.length(), chain_c.length());
    assert_eq!(
        chain_a.get_block(&chain_a.tip()),
        chain_b.get_block(&chain_b.tip())
    );
    assert_eq!(
        chain_a.get_block(&chain_a.tip()),
        chain_c.get_block(&chain_c.tip())
    );

    // B mines next, then C.
    fill_pool(&mut pool_b, 10, 3);
    let announce = miner_b.mining(&mut chain_b, &mut pool_b, NOW_MS + 1).unwrap();
    let block_2 = chain_b.get_block(&announce).unwrap();
    assert!(receive_block(&mut chain_a, &mut pool_a, &block_2));
    assert!(receive_block(&mut chain_c, &mut pool_c, &block_2));

    fill_pool(&mut pool_c, 20, 3);
    let announce = miner_c.mining(&mut chain_c, &mut pool_c, NOW_MS + 2).unwrap();
    let block_3 = chain_c.get_block(&announce).unwrap();
    assert!(receive_block(&mut chain_a, &mut pool_a, &block_3));
    assert!(receive_block(&mut chain_b, &mut pool_b, &block_3));

    assert_eq!(chain_a.length(), chain_b.length());
    assert_eq!(chain_a.length(), chain_c.length());
    assert_eq!(
        chain_a.get_block(&chain_a.tip()),
        chain_b.get_block(&chain_b.tip())
    );
    let total_mined = miner_a.mined_num + miner_b.mined_num + miner_c.mined_num;
    assert_eq!(chain_a.length(), total_mined + 1);
}

#[test]
fn test_cross_node_mempool_clearing() {
    let (mut chain_a, mut pool_a, _) = fresh_node(EASIEST_DIF);
    let (mut chain_b, mut pool_b, _) = fresh_node(EASIEST_DIF);
    let (mut chain_c, mut pool_c, _) = fresh_node(EASIEST_DIF);

    let t_1 = sample_transaction(1);
    let t_2 = sample_transaction(2);
    let t_3 = sample_transaction(3);
    for pool in [&mut pool_a, &mut pool_b, &mut pool_c] {
        assert!(pool.add_with_check(&t_1));
        assert!(pool.add_with_check(&t_2));
        assert!(pool.add_with_check(&t_3));
    }

    let difficulty = H256::new(gen_difficulty_array(EASIEST_DIF));
    let content = Content::new_with_trans(&vec![t_1, t_2, t_3]);
    let block = mine_block(&chain_c.tip(), content, &difficulty);
    chain_c.insert(&block);
    assert_eq!(2, chain_c.length());

    // The broadcast hash leads A and B to fetch the block and insert it.
    assert!(receive_block(&mut chain_a, &mut pool_a, &block));
    assert!(receive_block(&mut chain_b, &mut pool_b, &block));
    assert!(pool_a.empty());
    assert!(pool_b.empty());
    assert_eq!(3, pool_c.size());
}

#[test]
fn test_insert_with_check_rejections() {
    let (mut chain, _, _) = fresh_node(EASIEST_DIF);
    let difficulty = H256::new(gen_difficulty_array(EASIEST_DIF));

    let good = mine_block(
        &chain.tip(),
        Content::new_with_trans(&vec![sample_transaction(1)]),
        &difficulty,
    );
    assert!(chain.insert_with_check(&good));
    assert_eq!(2, chain.length());

    // The same block again: its hash is already known.
    assert!(!chain.insert_with_check(&good));

    // A target other than the chain's difficulty.
    let wrong_difficulty = H256::new(gen_difficulty_array(1));
    let wrong = mine_block(
        &chain.tip(),
        Content::new_with_trans(&vec![sample_transaction(2)]),
        &wrong_difficulty,
    );
    assert!(!chain.insert_with_check(&wrong));

    // An unknown parent.
    let orphan = mine_block(
        &H256::new([0x77; 32]),
        Content::new_with_trans(&vec![sample_transaction(3)]),
        &difficulty,
    );
    assert!(!chain.insert_with_check(&orphan));

    // A stored hash that is not the header's.
    let mut tampered = mine_block(
        &chain.tip(),
        Content::new_with_trans(&vec![sample_transaction(4)]),
        &difficulty,
    );
    tampered.change_hash(&H256::new([0xaa; 32]));
    assert!(!chain.insert_with_check(&tampered));

    // A failing signature is rejected while checking is on, taken when off.
    let unsigned = SignedTransaction::new(H256::new([0x55; 32]), false);
    let bad_sig = mine_block(
        &chain.tip(),
        Content::new_with_trans(&vec![unsigned]),
        &difficulty,
    );
    assert!(!chain.insert_with_check(&bad_sig));
    chain.set_check_trans(false);
    assert!(chain.insert_with_check(&bad_sig));
    assert_eq!(3, chain.length());

    // A hash at or above the target: with an impossible target every block
    // is refused.
    let impossible = H256::new(gen_difficulty_array(256));
    chain.change_difficulty(&impossible);
    let easy = mine_block(
        &chain.tip(),
        Content::new_with_trans(&vec![sample_transaction(6)]),
        &difficulty,
    );
    assert!(!chain.insert_with_check(&easy));
}

#[test]
fn test_found_commits_and_clears() {
    let (mut chain, mut pool, mut miner) = fresh_node(EASIEST_DIF);
    let t_1 = sample_transaction(1);
    let t_2 = sample_transaction(2);
    assert!(pool.add_with_check(&t_1));
    assert!(pool.add_with_check(&t_2));

    let difficulty = H256::new(gen_difficulty_array(EASIEST_DIF));
    let content = Content::new_with_trans(&vec![t_1, t_2]);
    let block = mine_block(&chain.tip(), content, &difficulty);
    let announce = miner.found(&mut chain, &mut pool, block.clone());
    assert_eq!(announce, block.hash);
    assert_eq!(2, chain.length());
    assert!(pool.empty());
    assert_eq!(1, miner.mined_num);
    // The stored copy carries the chain-assigned index.
    let stored = chain.get_block(&announce).unwrap();
    assert_eq!(stored.hash, block.hash);
    assert_eq!(stored.index, 1);
}

#[test]
fn test_fork_keeps_first_seen_tip() {
    let (mut chain, _, _) = fresh_node(EASIEST_DIF);
    let difficulty = H256::new(gen_difficulty_array(EASIEST_DIF));
    let genesis_tip = chain.tip();

    let first = mine_block(
        &genesis_tip,
        Content::new_with_trans(&vec![sample_transaction(1)]),
        &difficulty,
    );
    let second = mine_block(
        &genesis_tip,
        Content::new_with_trans(&vec![sample_transaction(2)]),
        &difficulty,
    );
    assert!(chain.insert_with_check(&first));
    assert!(chain.insert_with_check(&second));

    // Both forks have length two; the tip stays with the block seen first.
    assert_eq!(2, chain.length());
    assert_eq!(chain.tip(), first.hash);

    // A block on the second fork makes that fork strictly longer.
    let third = mine_block(
        &second.hash,
        Content::new_with_trans(&vec![sample_transaction(3)]),
        &difficulty,
    );
    assert!(chain.insert_with_check(&third));
    assert_eq!(3, chain.length());
    assert_eq!(chain.tip(), third.hash);
}
