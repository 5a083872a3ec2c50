//! The polling block ingestor.
//!
//! One poll cycle reads the cached head, asks the source for its latest
//! block, refuses a source that went backwards, and otherwise ingests
//! the latest block and then every ancestor the cache still misses,
//! until the head can advance. The head never moves backward, and the
//! ancestor fill performs at most one ingest per missing block number.

use vstd::prelude::*;

use crate::blockchain::{BlockIngestor, BlockchainKind, IngestorError};
use crate::chain_cache::{
    cache_from_source, candidate_index, check_block_consistent, coherent_parents,
    coherent_with_block, consistent_block, consistent_chain, head_number, head_update, has_hash,
    index_of_hash, lemma_candidate_prefix, lemma_candidate_push_smaller, lemma_index_of_hash,
    lemma_index_of_push, lemma_index_of_unique_at, lemma_push_coherent, lemma_source_block_ok,
    lemma_subsumed_upsert, lemma_update_coherent, lemma_upsert_stores, lemma_walk_bounds,
    lemma_walk_push, retained, source_coherent, source_complete, unique_hashes, upsert_model,
    walk_missing, ChainCache,
};
use crate::block_range::BlockNumber;
use crate::types::{Block, BlockHash, BlockPtr, BlockPtrV, BlockV};

verus! {

/// Outcome of one poll cycle.
#[derive(Clone, Copy, Debug, PartialEq, Eq, Structural)]
pub enum PollOutcome {
    /// The source's latest block is already the cached head.
    NoNewBlock,
    /// The source reported a latest block below the cached head; the
    /// cache was left untouched.
    SourceWentBackwards,
    /// The latest block and every ancestor the cache was missing were
    /// ingested, and the head advanced as far as the window allows.
    Ingested,
}

/// How far the cache lags the source, classified for observability: at
/// fifteen blocks behind, ingestion counts as lagging.
#[derive(Clone, Copy, Debug, PartialEq, Eq, Structural)]
pub struct SyncStats {
    pub distance: i32,
    pub blocks_needed: i32,
    pub lagging: bool,
}

/// Classify how far a head at `head_number` lags `latest_number`.
pub fn sync_stats(head_number: i32, latest_number: i32, ancestor_count: i32) -> (r: SyncStats)
    requires
        0 <= head_number <= latest_number,
        0 <= ancestor_count,
    ensures
        r.distance == latest_number - head_number,
        r.blocks_needed == if r.distance <= ancestor_count {
            r.distance as int
        } else {
            ancestor_count as int
        },
        r.lagging == (r.distance >= 15),
{
    let distance = latest_number - head_number;
    let blocks_needed = if distance <= ancestor_count {
        distance
    } else {
        ancestor_count
    };
    SyncStats { distance, blocks_needed, lagging: distance >= 15 }
}

/// An in-memory block source: the model of the upstream provider that
/// the verified poll cycle runs against.
pub struct MemoryBlockSource {
    store: ChainCache,
}

impl MemoryBlockSource {
    /// The available blocks, as mathematical values.
    pub closed spec fn blocks_view(&self) -> Seq<BlockV> {
        self.store.blocks_view()
    }

    /// Well-formedness: hashes pairwise distinct, numbers non-negative.
    pub closed spec fn wf(&self) -> bool {
        self.store.wf()
    }

    /// A source with no blocks.
    pub fn new() -> (r: MemoryBlockSource)
        ensures
            r.wf(),
            r.blocks_view() == Seq::<BlockV>::empty(),
    {
        MemoryBlockSource { store: ChainCache::new() }
    }

    /// Make a block available, replacing any block with the same hash.
    pub fn add_block(&mut self, b: Block)
        requires
            old(self).wf(),
            b@.ptr.number >= 0,
        ensures
            final(self).wf(),
            final(self).blocks_view() == upsert_model(old(self).blocks_view(), b@),
    {
        self.store.upsert_block(b);
    }

    /// The cheap latest-header read: the pointer of the first available
    /// block with the highest number.
    pub fn latest_block(&self) -> (r: Option<BlockPtr>)
        ensures
            match r {
                None => self.blocks_view().len() == 0,
                Some(p) => self.blocks_view().len() > 0 && p@ == self.blocks_view()[
                    candidate_index(self.blocks_view())].ptr,
            },
    {
        self.store.highest_block_ptr()
    }

    /// The full block with the given hash, if the source still has it.
    pub fn block_by_hash(&self, hash: &BlockHash) -> (r: Option<&Block>)
        ensures
            match r {
                Some(b) => {
                    &&& has_hash(self.blocks_view(), hash@)
                    &&& b@ == self.blocks_view()[index_of_hash(self.blocks_view(), hash@)]
                },
                None => !has_hash(self.blocks_view(), hash@),
            },
    {
        self.store.block_by_hash(hash)
    }
}

/// The ingestor that drives one network's chain cache: it owns the
/// cache, polls a source, and advances the head within the ancestor
/// window.
pub struct PollingBlockIngestor {
    ancestor_count: i32,
    chain_store: ChainCache,
    polling_interval_ms: u64,
    network_name: String,
}

impl PollingBlockIngestor {
    /// Well-formedness: the window is non-negative and the cache holds a
    /// unique, internally consistent, hash-coherent set of blocks.
    pub closed spec fn wf(&self) -> bool {
        &&& self.ancestor_count >= 0
        &&& self.chain_store.wf()
        &&& consistent_chain(self.chain_store.blocks_view())
        &&& coherent_parents(self.chain_store.blocks_view())
    }

    /// The cached blocks, as mathematical values.
    pub closed spec fn blocks_view(&self) -> Seq<BlockV> {
        self.chain_store.blocks_view()
    }

    /// The cached head, as a mathematical value.
    pub closed spec fn head_view(&self) -> Option<BlockPtrV> {
        self.chain_store.head_view()
    }

    /// The ancestor window.
    pub closed spec fn spec_ancestor_count(&self) -> int {
        self.ancestor_count as int
    }

    /// The polling interval, in milliseconds.
    pub closed spec fn spec_polling_interval_ms(&self) -> int {
        self.polling_interval_ms as int
    }

    /// Build an ingestor over a cache. Exactly one ingestor must drive a
    /// given network's cache.
    pub fn new(
        ancestor_count: i32,
        chain_store: ChainCache,
        polling_interval_ms: u64,
        network_name: String,
    ) -> (r: Result<PollingBlockIngestor, IngestorError>)
        requires
            ancestor_count >= 0,
            chain_store.wf(),
            consistent_chain(chain_store.blocks_view()),
            coherent_parents(chain_store.blocks_view()),
        ensures
            match r {
                Ok(ing) => {
                    &&& ing.wf()
                    &&& ing.blocks_view() == chain_store.blocks_view()
                    &&& ing.head_view() == chain_store.head_view()
                    &&& ing.spec_ancestor_count() == ancestor_count as int
                    &&& ing.spec_polling_interval_ms() == polling_interval_ms as int
                    &&& ing.spec_network_name() == network_name@
                },
                Err(_) => false,
            },
    {
        Ok(PollingBlockIngestor { ancestor_count, chain_store, polling_interval_ms, network_name })
    }

    /// The polling interval, in milliseconds.
    pub fn polling_interval_ms(&self) -> (r: u64)
        ensures
            r as int == self.spec_polling_interval_ms(),
    {
        self.polling_interval_ms
    }

    /// The ancestor window.
    pub fn ancestor_count(&self) -> (r: i32)
        ensures
            r as int == self.spec_ancestor_count(),
    {
        self.ancestor_count
    }

    /// The cached head, or `None` on a cold start.
    pub fn chain_head(&self) -> (r: Option<BlockPtr>)
        ensures
            match r {
                Some(p) => self.head_view() == Some(p@),
                None => self.head_view() is None,
            },
    {
        self.chain_store.chain_head()
    }

    /// How many blocks the cache holds.
    pub fn block_count(&self) -> (r: usize)
        ensures
            r == self.blocks_view().len(),
    {
        self.chain_store.block_count()
    }

    /// Ingest one full block: store it and attempt a head advance within
    /// the ancestor window. Returns the pointer of the first missing
    /// ancestor, or `None` once the window is connected. A block that
    /// contradicts the cached chain (wrong parent numbering, or a hash
    /// already bound to another number) is refused with an error and
    /// changes nothing.
    pub fn ingest_block(&mut self, block: Block) -> (r: Result<Option<BlockPtr>, IngestorError>)
        requires
            old(self).wf(),
        ensures
            final(self).wf(),
            final(self).spec_ancestor_count() == old(self).spec_ancestor_count(),
            final(self).spec_polling_interval_ms() == old(self).spec_polling_interval_ms(),
            final(self).spec_network_name() == old(self).spec_network_name(),
            head_number(final(self).head_view()) >= head_number(old(self).head_view()),
            ({
                let s0 = old(self).blocks_view();
                let h0 = old(self).head_view();
                let ac = old(self).spec_ancestor_count();
                let ok = consistent_block(block@) && coherent_with_block(s0, block@) && (
                index_of_hash(s0, block@.ptr.hash) >= 0 ==> s0[index_of_hash(
                    s0,
                    block@.ptr.hash,
                )].ptr.number == block@.ptr.number);
                if ok {
                    let s1 = upsert_model(s0, block@);
                    &&& final(self).blocks_view() == s1
                    &&& final(self).head_view() == head_update(s1, h0, ac).0
                    &&& match r {
                        Ok(m) => match m {
                            Some(mp) => head_update(s1, h0, ac).1 == Some(mp@),
                            None => head_update(s1, h0, ac).1 is None,
                        },
                        Err(_) => false,
                    }
                } else {
                    &&& final(self).blocks_view() == s0
                    &&& final(self).head_view() == h0
                    &&& match r {
                        Err(e) => e is Unknown,
                        Ok(_) => false,
                    }
                }
            }),
    {
        let ghost s0 = self.chain_store.blocks_view();
        let ok1 = check_block_consistent(&block);
        let ok2 = self.chain_store.check_coherent_with(&block);
        if !(ok1 && ok2) {
            return Err(
                IngestorError::Unknown(
                    String::from_str("received a block that contradicts the cached chain"),
                ),
            );
        }
        proof {
            lemma_index_of_hash(s0, block@.ptr.hash);
            if index_of_hash(s0, block@.ptr.hash) == -1 {
                lemma_push_coherent(s0, block@);
            } else {
                lemma_update_coherent(s0, block@);
            }
        }
        self.chain_store.upsert_block(block);
        let missing = self.chain_store.attempt_chain_head_update(self.ancestor_count);
        Ok(missing)
    }

    /// One poll cycle against `source`. The head never moves backward; a
    /// latest block below the head leaves the cache untouched; on every
    /// other input the cycle either ingests the source's latest block
    /// and reports completion with the head caught up, or fails on a
    /// block the source could not supply. The ancestor fill stores at
    /// most the window's worth of blocks beyond the latest. On a
    /// coherent source that supplied every cached block, every failure
    /// is the transient block-unavailable error; on a complete one, a
    /// cycle always completes.
    pub fn poll(&mut self, source: &MemoryBlockSource) -> (r: Result<PollOutcome, IngestorError>)
        requires
            old(self).wf(),
            source.wf(),
        ensures
            final(self).wf(),
            head_number(final(self).head_view()) >= head_number(old(self).head_view()),
            ({
                let src = source.blocks_view();
                let s0 = old(self).blocks_view();
                let h0 = old(self).head_view();
                if src.len() == 0 {
                    &&& final(self).blocks_view() == s0
                    &&& final(self).head_view() == h0
                    &&& r is Err
                } else {
                    let latest = src[candidate_index(src)].ptr;
                    // On the work path, success means the source's latest
                    // block itself now sits in the cache.
                    let ingested_latest = match r {
                        Ok(o) => {
                            &&& o == PollOutcome::Ingested
                            &&& has_hash(final(self).blocks_view(), latest.hash)
                            &&& final(self).blocks_view()[index_of_hash(
                                final(self).blocks_view(),
                                latest.hash,
                            )] == src[candidate_index(src)]
                        },
                        Err(_) => true,
                    };
                    match h0 {
                        Some(h) => {
                            if latest == h {
                                &&& final(self).blocks_view() == s0
                                &&& final(self).head_view() == h0
                                &&& r == Ok::<PollOutcome, IngestorError>(PollOutcome::NoNewBlock)
                            } else if latest.number < h.number {
                                &&& final(self).blocks_view() == s0
                                &&& final(self).head_view() == h0
                                &&& r == Ok::<PollOutcome, IngestorError>(PollOutcome::SourceWentBackwards)
                            } else {
                                ingested_latest
                            }
                        },
                        None => ingested_latest,
                    }
                }
            }),
            match r {
                Ok(o) => o == PollOutcome::Ingested ==> final(self).blocks_view().len() > 0
                    && final(self).blocks_view()[candidate_index(
                    final(self).blocks_view(),
                )].ptr.number <= head_number(final(self).head_view()),
                Err(_) => true,
            },
            match r {
                Err(e) => match e {
                    IngestorError::BlockUnavailable(h) => !has_hash(source.blocks_view(), h@),
                    _ => true,
                },
                Ok(_) => true,
            },
            // The fill performs one ingest per missing ancestor, and the
            // missing numbers descend within the window: at most the
            // latest block plus the window's worth of ancestors is added.
            final(self).blocks_view().len() <= old(self).blocks_view().len() + 1 + old(
                self,
            ).spec_ancestor_count(),
            // A coherent source that supplied every cached block can only
            // fail by having lost a block: the transient error.
            source_coherent(source.blocks_view()) && cache_from_source(
                old(self).blocks_view(),
                source.blocks_view(),
            ) && source.blocks_view().len() > 0 ==> match r {
                Err(e) => e is BlockUnavailable,
                Ok(_) => true,
            },
            source_complete(source.blocks_view()) && cache_from_source(
                old(self).blocks_view(),
                source.blocks_view(),
            ) && source.blocks_view().len() > 0 ==> r is Ok,
    {
        let ghost src = source.blocks_view();
        let ghost s0 = self.chain_store.blocks_view();
        let ghost h0 = self.chain_store.head_view();
        let ghost hypothesis = source_complete(src) && cache_from_source(s0, src) && src.len()
            > 0;
        let ghost coherent_src = source_coherent(src) && cache_from_source(s0, src) && src.len()
            > 0;

        let head_opt = self.chain_store.chain_head();
        let latest_ptr = match source.latest_block() {
            Some(p) => p,
            None => {
                return Err(
                    IngestorError::Unknown(
                        String::from_str("the source reported no latest block"),
                    ),
                );
            },
        };
        proof {
            lemma_candidate_prefix(src, src.len() as int);
        }
        match &head_opt {
            Some(h) => {
                if latest_ptr == *h {
                    return Ok(PollOutcome::NoNewBlock);
                }
                if latest_ptr.number < h.number {
                    return Ok(PollOutcome::SourceWentBackwards);
                }
            },
            None => {},
        }

        // Fetch the full latest block. It is one of the source's own
        // blocks, so the source has it.
        let latest_block = match source.block_by_hash(&latest_ptr.hash) {
            Some(b) => b.clone(),
            None => {
                proof {
                    lemma_index_of_hash(src, latest_ptr@.hash);
                    assert(src[candidate_index(src)].ptr.hash == latest_ptr@.hash);
                }
                return Err(IngestorError::BlockUnavailable(latest_ptr.hash));
            },
        };
        proof {
            // The source's hashes are unique, so the fetched block is the
            // candidate itself.
            lemma_index_of_hash(src, latest_ptr@.hash);
            assert(src[candidate_index(src)].ptr.hash == latest_ptr@.hash);
            lemma_index_of_unique_at(src, candidate_index(src));
            assert(index_of_hash(src, latest_ptr@.hash) == candidate_index(src));
        }
        assert(latest_block@ == src[candidate_index(src)]);

        let ghost lbv = latest_block@;
        let m0 = match self.ingest_block(latest_block) {
            Ok(m) => m,
            Err(e) => {
                proof {
                    if coherent_src {
                        lemma_source_block_ok(s0, src, lbv);
                        assert(false);
                    }
                }
                return Err(e);
            },
        };
        let ghost s1 = upsert_model(s0, lbv);
        proof {
            assert(self.chain_store.blocks_view() == s1);
            lemma_index_of_hash(s0, lbv.ptr.hash);
            assert(s1.len() > 0);
            assert(s1.len() <= s0.len() + 1);
            // The latest block is now stored under its hash.
            lemma_upsert_stores(s0, lbv);
            if coherent_src {
                lemma_subsumed_upsert(s0, src, lbv);
            }
        }

        let ghost latest_v = latest_ptr@;
        let mut mp: BlockPtr = match m0 {
            Some(p) => p,
            None => {
                return Ok(PollOutcome::Ingested);
            },
        };
        let ghost m0n = mp@.number;

        let ghost c = s1[candidate_index(s1)];
        proof {
            lemma_candidate_prefix(s1, s1.len() as int);
            // The head update reported a missing ancestor, so the
            // candidate beats the head and the walk stops at `mp`.
            assert(walk_missing(s1, c.ptr, self.spec_ancestor_count() as nat) == Some(mp@));
            lemma_index_of_unique_at(s1, candidate_index(s1));
            assert(index_of_hash(s1, c.ptr.hash) == candidate_index(s1));
            lemma_walk_bounds(s1, c.ptr, self.spec_ancestor_count() as nat);
        }

        loop
            invariant
                self.wf(),
                source.wf(),
                src == source.blocks_view(),
                src.len() > 0,
                s0 == old(self).blocks_view(),
                h0 == old(self).head_view(),
                self.head_view() == h0,
                self.spec_ancestor_count() == old(self).spec_ancestor_count(),
                hypothesis == (source_complete(src) && cache_from_source(s0, src) && src.len()
                    > 0),
                coherent_src == (source_coherent(src) && cache_from_source(s0, src) && src.len()
                    > 0),
                hypothesis ==> coherent_src,
                coherent_src ==> cache_from_source(self.blocks_view(), src),
                latest_v == src[candidate_index(src)].ptr,
                match h0 {
                    Some(h) => !(latest_v == h) && !(latest_v.number < h.number),
                    None => true,
                },
                has_hash(self.blocks_view(), latest_v.hash),
                self.blocks_view()[index_of_hash(self.blocks_view(), latest_v.hash)] == src[
                    candidate_index(src)],
                self.blocks_view().len() > 0,
                0 <= candidate_index(self.blocks_view()) < self.blocks_view().len(),
                c == self.blocks_view()[candidate_index(self.blocks_view())],
                c.ptr.number > head_number(h0),
                walk_missing(self.blocks_view(), c.ptr, self.spec_ancestor_count() as nat)
                    == Some(mp@),
                0 <= mp@.number < c.ptr.number,
                mp@.number <= m0n,
                m0n <= c.ptr.number - 1,
                mp@.number >= c.ptr.number - self.spec_ancestor_count(),
                s1.len() <= s0.len() + 1,
                self.blocks_view().len() + mp@.number <= s1.len() + m0n,
                index_of_hash(self.blocks_view(), mp@.hash) == -1,
                exists|i: int|
                    0 <= i < self.blocks_view().len() && (#[trigger] self.blocks_view()[
                    i]).parent_ptr == Some(mp@),
            decreases mp.number,
        {
            let ghost s = self.blocks_view();
            let b_ref = match source.block_by_hash(&mp.hash) {
                Some(b) => b,
                None => {
                    proof {
                        if hypothesis {
                            let i = choose|i: int|
                                0 <= i < s.len() && (#[trigger] s[i]).parent_ptr == Some(mp@);
                            assert(has_hash(src, s[i].ptr.hash));
                            let j = index_of_hash(src, s[i].ptr.hash);
                            lemma_index_of_hash(src, s[i].ptr.hash);
                            assert(src[j] == s[i]);
                            assert(has_hash(src, mp@.hash));
                            assert(false);
                        }
                    }
                    return Err(IngestorError::BlockUnavailable(mp.hash));
                },
            };
            proof {
                lemma_index_of_hash(src, mp@.hash);
            }
            if !(b_ref.ptr == mp) {
                proof {
                    if coherent_src {
                        let i = choose|i: int|
                            0 <= i < s.len() && (#[trigger] s[i]).parent_ptr == Some(mp@);
                        assert(has_hash(src, s[i].ptr.hash));
                        let ji = index_of_hash(src, s[i].ptr.hash);
                        lemma_index_of_hash(src, s[i].ptr.hash);
                        assert(src[ji] == s[i]);
                        let jb = index_of_hash(src, mp@.hash);
                        assert(src[ji].parent_ptr == Some(mp@));
                        assert(mp@.hash == src[jb].ptr.hash);
                        assert(mp@.number == src[jb].ptr.number);
                        assert(b_ref@.ptr == mp@);
                        assert(false);
                    }
                }
                return Err(
                    IngestorError::Unknown(
                        String::from_str("the source returned a block under a different pointer"),
                    ),
                );
            }
            let b = b_ref.clone();
            let ghost bv = b@;
            proof {
                assert(bv == src[index_of_hash(src, mp@.hash)]);
                assert(bv.ptr == mp@);
            }
            let m2 = match self.ingest_block(b) {
                Ok(m) => m,
                Err(e) => {
                    proof {
                        if coherent_src {
                            lemma_source_block_ok(s, src, bv);
                            assert(false);
                        }
                    }
                    return Err(e);
                },
            };
            let ghost s2 = upsert_model(s, bv);
            proof {
                assert(self.blocks_view() == s2);
                // The missing block was absent, so the upsert appended it.
                assert(s2 == s.push(bv));
                lemma_candidate_push_smaller(s, bv);
                assert(s2[candidate_index(s2)] == c);
                lemma_index_of_unique_at(s, candidate_index(s));
                assert(index_of_hash(s, c.ptr.hash) == candidate_index(s));
                lemma_walk_push(s, bv, c.ptr, self.spec_ancestor_count() as nat);
                if coherent_src {
                    lemma_subsumed_upsert(s, src, bv);
                }
                // The latest block stays where it was.
                lemma_index_of_hash(s, latest_v.hash);
                lemma_index_of_push(s, bv, latest_v.hash);
                assert(s2[index_of_hash(s2, latest_v.hash)] == s[index_of_hash(s, latest_v.hash)]);
                lemma_index_of_unique_at(s2, candidate_index(s2));
                assert(index_of_hash(s2, c.ptr.hash) == candidate_index(s2));
                lemma_walk_bounds(s2, c.ptr, self.spec_ancestor_count() as nat);
            }
            match m2 {
                None => {
                    return Ok(PollOutcome::Ingested);
                },
                Some(p) => {
                    mp = p;
                },
            }
        }
    }

    /// Drop cached blocks more than the ancestor window behind the head:
    /// every retained block number stays within the window. Returns the
    /// new floor and the number of blocks removed, or `None` when there
    /// was no head or nothing to clean.
    pub fn cleanup_cached_blocks(&mut self) -> (r: Option<(BlockNumber, usize)>)
        requires
            old(self).wf(),
        ensures
            final(self).wf(),
            final(self).head_view() == old(self).head_view(),
            final(self).spec_ancestor_count() == old(self).spec_ancestor_count(),
            match old(self).head_view() {
                None => final(self).blocks_view() == old(self).blocks_view() && r is None,
                Some(h) => {
                    let floor = h.number - old(self).spec_ancestor_count();
                    &&& final(self).blocks_view() == retained(old(self).blocks_view(), floor)
                    &&& forall|k: int|
                        0 <= k < final(self).blocks_view().len() ==> (#[trigger] final(self).blocks_view()[k]).ptr.number >= floor
                    &&& match r {
                        Some((mb, count)) => mb == floor && count == old(self).blocks_view().len()
                            - final(self).blocks_view().len() && count > 0,
                        None => final(self).blocks_view().len() == old(self).blocks_view().len(),
                    }
                },
            },
    {
        let ghost s0 = self.chain_store.blocks_view();
        proof {
            match self.chain_store.head_view() {
                Some(h) => {
                    let floor = h.number - self.spec_ancestor_count();
                    crate::chain_cache::lemma_retained_prefix(s0, floor, s0.len() as int);
                    lemma_retained_keeps_chain(s0, floor);
                },
                None => {},
            }
        }
        self.chain_store.cleanup_cached_blocks(self.ancestor_count)
    }
}

impl crate::blockchain::BlockIngestor for PollingBlockIngestor {
    closed spec fn spec_network_name(&self) -> Seq<char> {
        self.network_name@
    }

    fn network_name(&self) -> (r: String) {
        self.network_name.clone()
    }

    /// The chain kind this ingestor polls.
    fn kind(&self) -> BlockchainKind {
        BlockchainKind::Ethereum
    }
}


/// Cleanup keeps a subset of the blocks, so consistency and coherence
/// survive it.
pub proof fn lemma_retained_keeps_chain(s: Seq<BlockV>, floor: int)
    requires
        unique_hashes(s),
        consistent_chain(s),
        coherent_parents(s),
    ensures
        consistent_chain(retained(s, floor)),
        coherent_parents(retained(s, floor)),
{
    crate::chain_cache::lemma_retained_prefix(s, floor, s.len() as int);
    let r = retained(s, floor);
    assert forall|k: int| 0 <= k < r.len() implies consistent_block(#[trigger] r[k]) by {
        let j = choose|j: int| 0 <= j < s.len() && r[k] == s[j];
        assert(consistent_block(s[j]));
    }
    assert forall|k1: int, k2: int| 0 <= k1 < r.len() && 0 <= k2 < r.len() implies match (
    #[trigger] r[k1]).parent_ptr {
        Some(q) => q.hash == (#[trigger] r[k2]).ptr.hash ==> q.number == r[k2].ptr.number,
        None => true,
    } by {
        let j1 = choose|j: int| 0 <= j < s.len() && r[k1] == s[j];
        let j2 = choose|j: int| 0 <= j < s.len() && r[k2] == s[j];
        assert(r[k1] == s[j1] && r[k2] == s[j2]);
    }
}

} // verus!
