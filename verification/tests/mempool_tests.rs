use pow_chain::config::POOL_SIZE_LIMIT;
use pow_chain::hash::H256;
use pow_chain::mempool::MemPool;
use pow_chain::transaction::SignedTransaction;

fn sample_transaction(seed: u8) -> SignedTransaction {
    SignedTransaction::new(H256::new([seed; 32]), true)
}

fn wide_transaction(a: u8, b: u8) -> SignedTransaction {
    let mut bytes = [a; 32];
    bytes[0] = b;
    SignedTransaction::new(H256::new(bytes), true)
}

#[test]
fn test_add_with_check() {
    let mut mempool = MemPool::new();
    assert!(mempool.empty());
    let t = sample_transaction(1);
    let t_2 = sample_transaction(2);
    assert!(mempool.add_with_check(&t));
    assert_eq!(mempool.size(), 1);
    assert!(mempool.exist(&t.hash()));
    assert!(!mempool.exist(&t_2.hash()));
    assert!(!mempool.add_with_check(&t));
    assert!(mempool.add_with_check(&t_2));
    assert_eq!(mempool.size(), 2);
    assert_eq!(mempool.get_trans(&vec![t.hash(), t_2.hash()]).len(), 2);
}

#[test]
fn test_remove_trans() {
    let mut mempool = MemPool::new();
    let t = sample_transaction(1);
    let t_2 = sample_transaction(2);
    let t_3 = sample_transaction(3);

    mempool.add_with_check(&t);
    mempool.remove_trans(&vec![t.hash(), t_2.hash()]);
    assert!(mempool.empty());

    mempool.add_with_check(&t_2);
    mempool.add_with_check(&t_3);
    assert_eq!(mempool.size(), 2);
    assert!(!mempool.exist(&t.hash()));
    mempool.remove_trans(&vec![t.hash(), t_2.hash()]);
    assert_eq!(mempool.size(), 1);
    assert!(mempool.exist(&t_3.hash()));
}

#[test]
fn test_create_trans() {
    let mut mempool = MemPool::new();
    let mut t = sample_transaction(1);
    mempool.add_with_check(&t);
    t = sample_transaction(2);
    mempool.add_with_check(&t);
    t = sample_transaction(3);
    mempool.add_with_check(&t);

    let content = mempool.create_content();
    assert_eq!(content.trans.len(), 3);
}

#[test]
fn test_mempool_dedup_and_bound() {
    let mut mempool = MemPool::new();

    // The same transaction is taken once.
    let t = wide_transaction(0, 0);
    assert!(mempool.add_with_check(&t));
    assert!(!mempool.add_with_check(&t));

    // A transaction whose signature fails is rejected.
    let bad = SignedTransaction::new(H256::new([0xee; 32]), false);
    assert!(!mempool.add_with_check(&bad));
    assert_eq!(mempool.size(), 1);

    // Fill to capacity: each add up to the limit succeeds, one more fails.
    let mut seed: u16 = 1;
    while mempool.size() < POOL_SIZE_LIMIT {
        let extra = wide_transaction((seed / 200) as u8 + 1, (seed % 200) as u8);
        assert!(mempool.add_with_check(&extra));
        seed += 1;
    }
    let overflow = wide_transaction(0xfe, 0xff);
    assert!(!mempool.add_with_check(&overflow));
    assert_eq!(mempool.size(), POOL_SIZE_LIMIT);
}

#[test]
fn test_get_trans_order_and_misses() {
    let mut mempool = MemPool::new();
    let t_1 = sample_transaction(1);
    let t_2 = sample_transaction(2);
    let t_3 = sample_transaction(3);
    mempool.add_with_check(&t_3);
    mempool.add_with_check(&t_1);
    mempool.add_with_check(&t_2);

    let missing = H256::new([0x99; 32]);
    let got = mempool.get_trans(&vec![t_2.hash(), missing, t_1.hash()]);
    assert_eq!(got.len(), 2);
    assert_eq!(got[0], t_2);
    assert_eq!(got[1], t_1);
}

#[test]
fn test_new_with_trans_keeps_distinct_list() {
    let trans = vec![
        sample_transaction(4),
        sample_transaction(5),
        sample_transaction(6),
    ];
    let mempool = MemPool::new_with_trans(&trans);
    assert_eq!(mempool.size(), 3);
    for t in &trans {
        assert!(mempool.exist(&t.hash()));
    }

    let with_dup = vec![sample_transaction(4), sample_transaction(4)];
    let deduped = MemPool::new_with_trans(&with_dup);
    assert_eq!(deduped.size(), 1);
}
