use wallet_sync::cache::BlockCache;
use wallet_sync::store::{Hash32, ScannedBlock};

fn b(height: u64, tag: u64) -> ScannedBlock {
    ScannedBlock {
        height,
        frontier: Hash32 { w0: tag, w1: 0, w2: 0, w3: 0 },
        transactions: Vec::new(),
        received: Vec::new(),
        spends: Vec::new(),
        sent: Vec::new(),
    }
}

#[test]
fn cache_yields_heights_in_order_from_a_start() {
    let mut c = BlockCache::new();
    for h in [105u64, 101, 103, 102, 104] {
        c.write_block(b(h, 0));
    }
    assert_eq!(c.heights_from(None, None), vec![101, 102, 103, 104, 105]);
    assert_eq!(c.heights_from(Some(103), None), vec![103, 104, 105]);
    assert_eq!(c.heights_from(Some(102), Some(2)), vec![102, 103]);
    assert_eq!(c.heights_from(Some(200), Some(2)), Vec::<u64>::new());
    assert_eq!(c.heights_from(None, Some(0)), Vec::<u64>::new());
}

#[test]
fn cache_keeps_one_block_per_height() {
    let mut c = BlockCache::new();
    c.write_block(b(7, 1));
    c.write_block(b(7, 2));
    assert_eq!(c.blocks.len(), 1);
    assert_eq!(c.block_at(7).unwrap().frontier.w0, 2);
    assert!(c.block_at(8).is_none());
}
