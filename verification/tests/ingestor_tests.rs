use graph_core::backoff::ExponentialBackoff;
use graph_core::blockchain::{BlockIngestor, BlockchainKind, IngestorError};
use graph_core::chain_cache::ChainCache;
use graph_core::ingestor::{
    sync_stats, MemoryBlockSource, PollOutcome, PollingBlockIngestor,
};
use graph_core::types::{Block, BlockHash, BlockPtr};

fn hash(tag: u8) -> BlockHash {
    BlockHash::new(vec![tag, tag, tag, tag])
}

fn ptr(number: i32, tag: u8) -> BlockPtr {
    BlockPtr::new(number, hash(tag))
}

/// A block at `number` tagged `tag`, whose parent is tagged `parent_tag`.
fn block(number: i32, tag: u8, parent_tag: Option<u8>) -> Block {
    let parent_ptr = parent_tag.map(|p| ptr(number - 1, p));
    Block::new(ptr(number, tag), parent_ptr, 1000 + number as i64, serde_json::Value::Null)
}

/// A source holding an unbroken chain from genesis up to `head_tag`
/// blocks, block `k` tagged `k`.
fn chain_source(up_to: u8) -> MemoryBlockSource {
    let mut source = MemoryBlockSource::new();
    for k in 0..=up_to {
        let parent = if k == 0 { None } else { Some(k - 1) };
        source.add_block(block(k as i32, k, parent));
    }
    source
}

fn ingestor(ancestor_count: i32) -> PollingBlockIngestor {
    PollingBlockIngestor::new(ancestor_count, ChainCache::new(), 500, "mainnet".to_string())
        .unwrap()
}

#[test]
fn cold_start_fills_the_whole_short_chain() {
    let mut ing = ingestor(10);
    let source = chain_source(3);
    let outcome = ing.poll(&source).unwrap();
    assert_eq!(outcome, PollOutcome::Ingested);
    let head = ing.chain_head().expect("the head must be set");
    assert_eq!(head.number, 3);
    assert_eq!(ing.block_count(), 4);
}

#[test]
fn ancestor_window_bounds_the_backfill() {
    let mut ing = ingestor(2);
    let source = chain_source(10);
    let outcome = ing.poll(&source).unwrap();
    assert_eq!(outcome, PollOutcome::Ingested);
    let head = ing.chain_head().expect("the head must be set");
    assert_eq!(head.number, 10);
    // The latest block plus two ancestors: the window edge.
    assert_eq!(ing.block_count(), 3);
}

#[test]
fn no_new_block_is_a_no_op() {
    let mut ing = ingestor(5);
    let source = chain_source(2);
    assert_eq!(ing.poll(&source).unwrap(), PollOutcome::Ingested);
    let blocks_before = ing.block_count();
    let head_before = ing.chain_head().unwrap();
    assert_eq!(ing.poll(&source).unwrap(), PollOutcome::NoNewBlock);
    assert_eq!(ing.block_count(), blocks_before);
    assert_eq!(ing.chain_head().unwrap(), head_before);
}

#[test]
fn backward_source_is_rejected_without_error() {
    let mut ing = ingestor(5);
    let source = chain_source(5);
    assert_eq!(ing.poll(&source).unwrap(), PollOutcome::Ingested);
    assert_eq!(ing.chain_head().unwrap().number, 5);
    let blocks_before = ing.block_count();

    // A source that reports an older latest block changes nothing.
    let stale = chain_source(3);
    assert_eq!(ing.poll(&stale).unwrap(), PollOutcome::SourceWentBackwards);
    assert_eq!(ing.chain_head().unwrap().number, 5);
    assert_eq!(ing.block_count(), blocks_before);
}

#[test]
fn head_never_decreases_across_polls() {
    let mut ing = ingestor(4);
    let mut last_head: i32 = -1;
    for up_to in [2u8, 5, 5, 4, 9] {
        let source = chain_source(up_to);
        ing.poll(&source).unwrap();
        let head = ing.chain_head().map(|p| p.number).unwrap_or(-1);
        assert!(head >= last_head, "the head moved backwards");
        last_head = head;
    }
    assert_eq!(last_head, 9);
}

#[test]
fn missing_ancestor_in_source_reports_block_unavailable() {
    let mut ing = ingestor(5);
    let mut source = MemoryBlockSource::new();
    // Block 5 is available but its parent is not.
    source.add_block(block(5, 5, Some(4)));
    let err = ing.poll(&source).unwrap_err();
    match err {
        IngestorError::BlockUnavailable(h) => assert_eq!(h.bytes, vec![4, 4, 4, 4]),
        other => panic!("expected a missing block, got {:?}", other),
    }
}

#[test]
fn empty_source_is_an_error_and_changes_nothing() {
    let mut ing = ingestor(5);
    let source = MemoryBlockSource::new();
    assert!(ing.poll(&source).is_err());
    assert_eq!(ing.block_count(), 0);
    assert!(ing.chain_head().is_none());
}

#[test]
fn upserting_the_same_block_twice_changes_nothing_more() {
    let mut cache = ChainCache::new();
    let b = block(1, 1, Some(0));
    cache.upsert_block(b.clone());
    let count_once = cache.block_count();
    cache.upsert_block(b);
    assert_eq!(cache.block_count(), count_once);
    let found = cache.block_by_hash(&hash(1)).expect("the block must be stored");
    assert_eq!(found.ptr.number, 1);
    assert_eq!(found.timestamp, 1001);
    assert_eq!(found.data, serde_json::Value::Null);
}

#[test]
fn cleanup_retains_only_the_window() {
    let mut ing = ingestor(5);
    let source = chain_source(10);
    assert_eq!(ing.poll(&source).unwrap(), PollOutcome::Ingested);
    // Blocks 5 through 10 are cached; all inside the window.
    assert_eq!(ing.block_count(), 6);
    assert!(ing.cleanup_cached_blocks().is_none());

    // The chain grows; after the next poll the oldest blocks fall out
    // of the window.
    let source = chain_source(13);
    assert_eq!(ing.poll(&source).unwrap(), PollOutcome::Ingested);
    assert_eq!(ing.chain_head().unwrap().number, 13);
    let (floor, removed) = ing.cleanup_cached_blocks().expect("old blocks must go");
    assert_eq!(floor, 8);
    assert_eq!(removed, 3);
    assert_eq!(ing.block_count(), 6);
}

#[test]
fn cleanup_floor_is_head_minus_window() {
    let mut cache = ChainCache::new();
    for k in 0..=9u8 {
        let parent = if k == 0 { None } else { Some(k - 1) };
        cache.upsert_block(block(k as i32, k, parent));
    }
    let missing = cache.attempt_chain_head_update(20);
    assert!(missing.is_none());
    let head = cache.chain_head().unwrap();
    assert_eq!(head.number, 9);

    let (floor, removed) = cache.cleanup_cached_blocks(4).expect("old blocks must go");
    assert_eq!(floor, 5);
    assert_eq!(removed, 5);
    assert_eq!(cache.block_count(), 5);
    for k in 0..5u8 {
        assert!(cache.block_by_hash(&hash(k)).is_none());
    }
    for k in 5..=9u8 {
        let b = cache.block_by_hash(&hash(k)).expect("retained block");
        assert!(b.ptr.number >= head.number - 4);
    }
}

#[test]
fn attempt_reports_the_first_missing_ancestor() {
    let mut cache = ChainCache::new();
    cache.upsert_block(block(7, 7, Some(6)));
    let missing = cache.attempt_chain_head_update(5).expect("an ancestor is missing");
    assert_eq!(missing.number, 6);
    assert_eq!(missing.hash.bytes, vec![6, 6, 6, 6]);
    // The head must not have advanced past the gap.
    assert!(cache.chain_head().is_none());
}

#[test]
fn ingestor_exposes_its_configuration() {
    let ing = ingestor(7);
    assert_eq!(ing.ancestor_count(), 7);
    assert_eq!(ing.polling_interval_ms(), 500);
    assert_eq!(ing.network_name(), "mainnet".to_string());
    assert_eq!(ing.kind(), BlockchainKind::Ethereum);
}

#[test]
fn backoff_doubles_up_to_the_cap_and_resets() {
    let mut b = ExponentialBackoff::new(250, 30000);
    assert_eq!(b.next_delay_ms(), 250);
    assert_eq!(b.next_delay_ms(), 500);
    assert_eq!(b.next_delay_ms(), 1000);
    assert_eq!(b.next_delay_ms(), 2000);
    assert_eq!(b.next_delay_ms(), 4000);
    assert_eq!(b.next_delay_ms(), 8000);
    assert_eq!(b.next_delay_ms(), 16000);
    assert_eq!(b.next_delay_ms(), 30000);
    assert_eq!(b.next_delay_ms(), 30000);
    b.reset();
    assert_eq!(b.next_delay_ms(), 250);
}

#[test]
fn sync_stats_classifies_the_lag() {
    let s = sync_stats(100, 110, 3);
    assert_eq!(s.distance, 10);
    assert_eq!(s.blocks_needed, 3);
    assert!(!s.lagging);

    let s = sync_stats(100, 115, 50);
    assert_eq!(s.distance, 15);
    assert_eq!(s.blocks_needed, 15);
    assert!(s.lagging);
}

#[test]
fn same_height_reorg_never_moves_the_head_back() {
    let mut ing = ingestor(5);
    let source = chain_source(4);
    assert_eq!(ing.poll(&source).unwrap(), PollOutcome::Ingested);
    assert_eq!(ing.chain_head().unwrap().number, 4);
    let blocks_before = ing.block_count();

    // The source replaces block 4 by a competitor at the same height.
    let mut forked = chain_source(3);
    forked.add_block(block(4, 44, Some(3)));
    assert_eq!(forked.latest_block().unwrap().number, 4);
    assert_eq!(ing.poll(&forked).unwrap(), PollOutcome::Ingested);

    // The competitor is stored, but the head does not waver.
    assert_eq!(ing.block_count(), blocks_before + 1);
    assert_eq!(ing.chain_head().unwrap().number, 4);
}

#[test]
fn block_contradicting_the_chain_is_refused() {
    let mut ing = ingestor(5);
    let mut source = MemoryBlockSource::new();
    // The latest block claims a parent four numbers below: no unbroken
    // chain can contain it, so ingestion refuses it outright.
    source.add_block(Block::new(
        ptr(7, 7),
        Some(ptr_at(3, 3)),
        1007,
        serde_json::Value::Null,
    ));
    let err = ing.poll(&source).unwrap_err();
    assert!(matches!(err, IngestorError::Unknown(_)));
    assert_eq!(ing.block_count(), 0);
    assert!(ing.chain_head().is_none());
}

/// A pointer with an explicit number, decoupled from the tag scheme.
fn ptr_at(number: i32, tag: u8) -> BlockPtr {
    BlockPtr::new(number, hash(tag))
}
