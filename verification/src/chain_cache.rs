//! The local chain cache: ingested blocks keyed by hash, and the chain
//! head pointer.
//!
//! The cache supports the four operations the ingestor needs: read the
//! head, upsert a block by content (idempotent), attempt a head advance
//! bounded by the ancestor window, and clean up blocks that fell out of
//! the window. The head never moves backward.

use vstd::prelude::*;

use crate::block_range::BlockNumber;
use crate::types::{Block, BlockHash, BlockPtr, BlockPtrV, BlockV};

verus! {

/// Index of the first block in `s` whose hash is `h`, or `-1` when no
/// block has that hash.
pub open spec fn index_of_hash(s: Seq<BlockV>, h: Seq<u8>) -> int
    decreases s.len(),
{
    if s.len() == 0 {
        -1
    } else if s[0].ptr.hash == h {
        0
    } else {
        let r = index_of_hash(s.drop_first(), h);
        if r == -1 {
            -1
        } else {
            r + 1
        }
    }
}

/// Whether some block in `s` has hash `h`.
pub open spec fn has_hash(s: Seq<BlockV>, h: Seq<u8>) -> bool {
    index_of_hash(s, h) >= 0
}

/// What `index_of_hash` returns: a position in range whose block has the
/// hash, before any other such position; or `-1` when the hash is absent.
pub proof fn lemma_index_of_hash(s: Seq<BlockV>, h: Seq<u8>)
    ensures
        -1 <= index_of_hash(s, h) < s.len(),
        index_of_hash(s, h) >= 0 ==> s[index_of_hash(s, h)].ptr.hash == h,
        forall|j: int|
            0 <= j < s.len() && s[j].ptr.hash == h ==> 0 <= index_of_hash(s, h) <= j,
        index_of_hash(s, h) == -1 ==> forall|j: int|
            0 <= j < s.len() ==> s[j].ptr.hash != h,
    decreases s.len(),
{
    if s.len() > 0 && s[0].ptr.hash != h {
        let d = s.drop_first();
        lemma_index_of_hash(d, h);
        if index_of_hash(d, h) == -1 {
            assert forall|j: int| 0 <= j < s.len() implies s[j].ptr.hash != h by {
                if j >= 1 {
                    assert(s[j] == d[j - 1]);
                }
            }
        } else {
            let r = index_of_hash(d, h);
            assert(s[r + 1] == d[r]);
            assert forall|j: int|
                0 <= j < s.len() && s[j].ptr.hash == h implies 0 <= index_of_hash(s, h) <= j by {
                if j >= 1 {
                    assert(s[j] == d[j - 1]);
                }
            }
        }
    }
}

/// The cache contents after upserting `b`: the first block with `b`'s
/// hash is replaced by `b`, or `b` is appended when its hash is new.
pub open spec fn upsert_model(s: Seq<BlockV>, b: BlockV) -> Seq<BlockV> {
    let i = index_of_hash(s, b.ptr.hash);
    if i == -1 {
        s.push(b)
    } else {
        s.update(i, b)
    }
}

/// Hashes in `s` are pairwise distinct.
pub open spec fn unique_hashes(s: Seq<BlockV>) -> bool {
    forall|i: int, j: int|
        0 <= i < s.len() && 0 <= j < s.len() && i != j ==> s[i].ptr.hash != s[j].ptr.hash
}

/// A block is internally consistent with an unbroken chain: its number
/// is non-negative, and its parent pointer, if any, names a different
/// block exactly one number below.
pub open spec fn consistent_block(b: BlockV) -> bool {
    b.ptr.number >= 0 && match b.parent_ptr {
        Some(p) => p.number == b.ptr.number - 1 && b.ptr.number > 0 && p.hash != b.ptr.hash,
        None => true,
    }
}

/// Every block in `s` is internally consistent.
pub open spec fn consistent_chain(s: Seq<BlockV>) -> bool {
    forall|i: int| 0 <= i < s.len() ==> consistent_block(#[trigger] s[i])
}

/// Within `s`, a parent pointer that names a stored block carries that
/// block's number: the hash alone determines the number.
pub open spec fn coherent_parents(s: Seq<BlockV>) -> bool {
    forall|i: int, j: int|
        0 <= i < s.len() && 0 <= j < s.len() ==> match (#[trigger] s[i]).parent_ptr {
            Some(q) => q.hash == (#[trigger] s[j]).ptr.hash ==> q.number == s[j].ptr.number,
            None => true,
        }
}

/// What must hold between `s` and a block about to be upserted so that
/// `coherent_parents` survives: stored parent pointers naming `b` carry
/// `b`'s number, and `b`'s parent pointer, if it names a stored block,
/// carries that block's number.
pub open spec fn coherent_with_block(s: Seq<BlockV>, b: BlockV) -> bool {
    &&& forall|i: int|
        0 <= i < s.len() ==> match (#[trigger] s[i]).parent_ptr {
            Some(q) => q.hash == b.ptr.hash ==> q.number == b.ptr.number,
            None => true,
        }
    &&& match b.parent_ptr {
        Some(q) => forall|j: int|
            0 <= j < s.len() && q.hash == (#[trigger] s[j]).ptr.hash ==> q.number
                == s[j].ptr.number,
        None => true,
    }
}

/// The head's block number, with `-1` for an absent head, so that head
/// movement can be compared across states.
pub open spec fn head_number(h: Option<BlockPtrV>) -> int {
    match h {
        Some(p) => p.number,
        None => -1,
    }
}

/// The local chain cache: ingested blocks (hashes pairwise distinct) and
/// the head pointer.
pub struct ChainCache {
    blocks: Vec<Block>,
    head: Option<BlockPtr>,
}

impl ChainCache {
    /// The stored blocks, as mathematical values, in storage order.
    pub closed spec fn blocks_view(&self) -> Seq<BlockV> {
        self.blocks@.map_values(|b: Block| b@)
    }

    /// The head pointer, as a mathematical value.
    pub closed spec fn head_view(&self) -> Option<BlockPtrV> {
        match self.head {
            Some(p) => Some(p@),
            None => None,
        }
    }

    /// Well-formedness: stored hashes are pairwise distinct, and block
    /// numbers (a block pointer's number is an integer at least zero)
    /// are non-negative, the head's included.
    pub open spec fn wf(&self) -> bool {
        &&& unique_hashes(self.blocks_view())
        &&& forall|i: int|
            0 <= i < self.blocks_view().len() ==> (#[trigger] self.blocks_view()[i]).ptr.number
                >= 0
        &&& match self.head_view() {
            Some(h) => h.number >= 0,
            None => true,
        }
    }

    /// An empty cache: no blocks, no head.
    pub fn new() -> (r: ChainCache)
        ensures
            r.wf(),
            r.blocks_view() == Seq::<BlockV>::empty(),
            r.head_view() is None,
    {
        let r = ChainCache { blocks: Vec::new(), head: None };
        proof {
            assert(r.blocks_view() =~= Seq::<BlockV>::empty());
        }
        r
    }

    /// The current head, or `None` on a cold start.
    pub fn chain_head(&self) -> (r: Option<BlockPtr>)
        ensures
            match r {
                Some(p) => self.head_view() == Some(p@),
                None => self.head_view() is None,
            },
    {
        match &self.head {
            Some(p) => Some(p.clone()),
            None => None,
        }
    }

    /// How many blocks are stored.
    pub fn block_count(&self) -> (r: usize)
        ensures
            r == self.blocks_view().len(),
    {
        self.blocks.len()
    }

    /// Position of the block with the given hash, if any.
    fn find_index(&self, hash: &BlockHash) -> (r: Option<usize>)
        ensures
            match r {
                Some(i) => i == index_of_hash(self.blocks_view(), hash@) && i
                    < self.blocks_view().len(),
                None => index_of_hash(self.blocks_view(), hash@) == -1,
            },
    {
        proof {
            lemma_index_of_hash(self.blocks_view(), hash@);
        }
        let ghost s = self.blocks_view();
        let mut i: usize = 0;
        while i < self.blocks.len()
            invariant
                i <= self.blocks.len(),
                s == self.blocks_view(),
                forall|j: int| 0 <= j < i ==> s[j].ptr.hash != hash@,
                -1 <= index_of_hash(s, hash@) < s.len(),
                index_of_hash(s, hash@) >= 0 ==> s[index_of_hash(s, hash@)].ptr.hash
                    == hash@,
                forall|j: int|
                    0 <= j < s.len() && s[j].ptr.hash == hash@ ==> 0 <= index_of_hash(
                        s,
                        hash@,
                    ) <= j,
                index_of_hash(s, hash@) == -1 ==> forall|j: int|
                    0 <= j < s.len() ==> s[j].ptr.hash != hash@,
            decreases self.blocks.len() - i,
        {
            if self.blocks[i].ptr.hash == *hash {
                assert(s[i as int].ptr.hash == hash@);
                assert(index_of_hash(s, hash@) == i);
                return Some(i);
            }
            i = i + 1;
        }
        assert(index_of_hash(s, hash@) == -1) by {
            if index_of_hash(s, hash@) >= 0 {
                assert(s[index_of_hash(s, hash@)].ptr.hash == hash@);
            }
        }
        None
    }

    /// Upsert a block by content. Re-upserting a block whose hash is
    /// already stored replaces that entry; the head is untouched.
    pub fn upsert_block(&mut self, b: Block)
        requires
            old(self).wf(),
            b@.ptr.number >= 0,
        ensures
            final(self).wf(),
            final(self).blocks_view() == upsert_model(old(self).blocks_view(), b@),
            final(self).head_view() == old(self).head_view(),
    {
        proof {
            lemma_index_of_hash(self.blocks_view(), b.ptr.hash@);
        }
        let ghost s0 = self.blocks_view();
        match self.find_index(&b.ptr.hash) {
            Some(i) => {
                self.blocks.set(i, b);
                proof {
                    assert(self.blocks_view() =~= s0.update(i as int, b@));
                }
            },
            None => {
                self.blocks.push(b);
                proof {
                    assert(self.blocks_view() =~= s0.push(b@));
                }
            },
        }
    }
}

/// Upserting the same block twice leaves exactly the state that one
/// upsert leaves.
pub proof fn lemma_upsert_idempotent(s: Seq<BlockV>, b: BlockV)
    requires
        unique_hashes(s),
    ensures
        upsert_model(upsert_model(s, b), b) == upsert_model(s, b),
{
    lemma_index_of_hash(s, b.ptr.hash);
    let i = index_of_hash(s, b.ptr.hash);
    let s1 = upsert_model(s, b);
    lemma_index_of_hash(s1, b.ptr.hash);
    let i1 = index_of_hash(s1, b.ptr.hash);
    if i == -1 {
        // b was appended at position s.len(); the second upsert replaces it
        // there with the same value.
        assert(s1[s.len() as int] == b);
        assert(0 <= i1 <= s.len() as int);
        assert(s1[i1].ptr.hash == b.ptr.hash);
        if i1 < s.len() as int {
            assert(s1[i1] == s[i1]);
            assert(false);
        }
        assert(upsert_model(s1, b) =~= s1);
    } else {
        assert(s1[i] == b);
        assert(0 <= i1 <= i);
        assert(s1[i1].ptr.hash == b.ptr.hash);
        if i1 < i {
            assert(s1[i1] == s[i1]);
            assert(false);
        }
        assert(upsert_model(s1, b) =~= s1);
    }
}

/// Index of the head-advance candidate within the first `n` blocks of
/// `s`: the first position holding the maximal block number.
pub open spec fn candidate_index_prefix(s: Seq<BlockV>, n: int) -> int
    decreases n,
{
    if n <= 0 {
        -1
    } else {
        let r = candidate_index_prefix(s, n - 1);
        if r == -1 {
            n - 1
        } else if s[n - 1].ptr.number > s[r].ptr.number {
            n - 1
        } else {
            r
        }
    }
}

/// Index of the head-advance candidate: the first block with the maximal
/// number, or `-1` when the cache is empty.
pub open spec fn candidate_index(s: Seq<BlockV>) -> int {
    candidate_index_prefix(s, s.len() as int)
}

/// The candidate prefix index is in range, maximal, and first.
pub proof fn lemma_candidate_prefix(s: Seq<BlockV>, n: int)
    requires
        n <= s.len(),
    ensures
        n <= 0 ==> candidate_index_prefix(s, n) == -1,
        n > 0 ==> {
            let c = candidate_index_prefix(s, n);
            &&& 0 <= c < n
            &&& forall|j: int| 0 <= j < n ==> s[j].ptr.number <= s[c].ptr.number
            &&& forall|j: int| 0 <= j < c ==> s[j].ptr.number < s[c].ptr.number
        },
    decreases n,
{
    if n > 0 {
        lemma_candidate_prefix(s, n - 1);
    }
}

/// Walk back from `cur` following parent pointers through the stored
/// blocks, for at most `fuel` steps. `Some(p)` is the first pointer on
/// that path whose block is not stored; `None` means the path is
/// connected down to a genesis block or to the window edge.
pub open spec fn walk_missing(s: Seq<BlockV>, cur: BlockPtrV, fuel: nat) -> Option<BlockPtrV>
    decreases fuel,
{
    let i = index_of_hash(s, cur.hash);
    if i == -1 {
        Some(cur)
    } else {
        match s[i].parent_ptr {
            None => None,
            Some(p) => if fuel == 0 {
                None
            } else {
                walk_missing(s, p, (fuel - 1) as nat)
            },
        }
    }
}

/// Appending a block moves no existing block and gives the new hash the
/// last position when it was absent.
pub proof fn lemma_index_of_push(s: Seq<BlockV>, b: BlockV, h: Seq<u8>)
    ensures
        index_of_hash(s, h) >= 0 ==> index_of_hash(s.push(b), h) == index_of_hash(s, h),
        index_of_hash(s, h) == -1 && b.ptr.hash == h ==> index_of_hash(s.push(b), h)
            == s.len(),
        index_of_hash(s, h) == -1 && b.ptr.hash != h ==> index_of_hash(s.push(b), h) == -1,
{
    let s1 = s.push(b);
    lemma_index_of_hash(s, h);
    lemma_index_of_hash(s1, h);
    let i = index_of_hash(s, h);
    let i1 = index_of_hash(s1, h);
    if i >= 0 {
        assert(s1[i] == s[i]);
        assert(0 <= i1 <= i);
        if i1 < i {
            assert(s1[i1] == s[i1]);
            assert(s[i1].ptr.hash == h);
            assert(0 <= i <= i1);
        }
    } else {
        if b.ptr.hash == h {
            assert(s1[s.len() as int].ptr.hash == h);
            assert(0 <= i1 <= s.len());
            if i1 < s.len() {
                assert(s1[i1] == s[i1]);
                assert(s[i1].ptr.hash == h);
            }
        } else {
            if i1 >= 0 {
                assert(s1[i1].ptr.hash == h);
                if i1 < s.len() {
                    assert(s1[i1] == s[i1]);
                }
            }
        }
    }
}

/// On a consistent, coherent chain, a missing ancestor that the walk
/// reports is itself absent, carries a non-negative number, and sits
/// strictly below its starting point when that is stored.
pub proof fn lemma_walk_bounds(s: Seq<BlockV>, cur: BlockPtrV, fuel: nat)
    requires
        consistent_chain(s),
        coherent_parents(s),
        index_of_hash(s, cur.hash) >= 0 ==> s[index_of_hash(s, cur.hash)].ptr.number
            == cur.number,
    ensures
        match walk_missing(s, cur, fuel) {
            Some(r) => {
                &&& r.number <= cur.number
                &&& r.number >= cur.number - fuel
                &&& index_of_hash(s, cur.hash) >= 0 ==> r.number <= cur.number - 1 && r.number
                    >= 0
                &&& index_of_hash(s, r.hash) == -1
                &&& index_of_hash(s, cur.hash) >= 0 ==> exists|i: int|
                    0 <= i < s.len() && (#[trigger] s[i]).parent_ptr == Some(r)
            },
            None => true,
        },
    decreases fuel,
{
    let i = index_of_hash(s, cur.hash);
    lemma_index_of_hash(s, cur.hash);
    if i >= 0 {
        assert(consistent_block(s[i]));
        match s[i].parent_ptr {
            None => {},
            Some(p) => {
                if fuel > 0 {
                    lemma_index_of_hash(s, p.hash);
                    let j = index_of_hash(s, p.hash);
                    if j >= 0 {
                        // Hash coherence: the stored block `p` names has
                        // `p`'s number.
                        assert(s[i].parent_ptr is Some);
                        assert(p.hash == s[j].ptr.hash);
                        assert(p.number == s[j].ptr.number);
                    }
                    lemma_walk_bounds(s, p, (fuel - 1) as nat);
                    match walk_missing(s, p, (fuel - 1) as nat) {
                        Some(r) => {
                            if j == -1 {
                                assert(r == p);
                                assert(s[i].parent_ptr == Some(r));
                            }
                        },
                        None => {},
                    }
                }
            },
        }
    }
}

/// Appending a missing block leaves the walk unchanged step for step
/// until it reaches the new block; past it, any still-missing ancestor
/// sits strictly below the new block.
pub proof fn lemma_walk_push(s: Seq<BlockV>, b: BlockV, cur: BlockPtrV, fuel: nat)
    requires
        unique_hashes(s),
        consistent_chain(s),
        coherent_parents(s),
        consistent_block(b),
        coherent_with_block(s, b),
        index_of_hash(s, cur.hash) >= 0,
        s[index_of_hash(s, cur.hash)].ptr.number == cur.number,
        walk_missing(s, cur, fuel) == Some(b.ptr),
    ensures
        match walk_missing(s.push(b), cur, fuel) {
            None => true,
            Some(q) => q.number < b.ptr.number && q.number >= 0,
        },
    decreases fuel,
{
    let s1 = s.push(b);
    let i = index_of_hash(s, cur.hash);
    lemma_index_of_hash(s, cur.hash);
    lemma_index_of_push(s, b, cur.hash);
    assert(s1[i] == s[i]);
    assert(consistent_block(s[i]));
    lemma_push_coherent(s, b);
    match s[i].parent_ptr {
        None => {},
        Some(par) => {
            // The walk reported a missing pointer, so it took this step.
            assert(fuel > 0);
            let f1 = (fuel - 1) as nat;
            assert(walk_missing(s, par, f1) == Some(b.ptr));
            assert(index_of_hash(s1, cur.hash) == i);
            assert(walk_missing(s1, cur, fuel) == walk_missing(s1, par, f1));
            lemma_index_of_hash(s, par.hash);
            if index_of_hash(s, par.hash) == -1 {
                // The missing pointer is `par` itself, so `par == b.ptr` and
                // the extended walk continues through `b`.
                assert(walk_missing(s, par, f1) == Some(par));
                assert(par == b.ptr);
                lemma_index_of_push(s, b, par.hash);
                assert(index_of_hash(s1, par.hash) == s.len());
                assert(s1[s.len() as int] == b);
                match b.parent_ptr {
                    None => {
                        assert(walk_missing(s1, par, f1) is None);
                    },
                    Some(q) => {
                        assert(q.number == b.ptr.number - 1 && b.ptr.number > 0);
                        if f1 == 0 {
                            assert(walk_missing(s1, par, f1) is None);
                        } else {
                            let f2 = (f1 - 1) as nat;
                            assert(walk_missing(s1, par, f1) == walk_missing(s1, q, f2));
                            let jq = index_of_hash(s1, q.hash);
                            lemma_index_of_hash(s1, q.hash);
                            if jq >= 0 {
                                assert(s1[s.len() as int].parent_ptr is Some);
                                assert(q.number == s1[jq].ptr.number);
                                lemma_walk_bounds(s1, q, f2);
                            } else {
                                assert(walk_missing(s1, q, f2) == Some(q));
                            }
                        }
                    },
                }
            } else {
                let j = index_of_hash(s, par.hash);
                assert(s[i].parent_ptr is Some);
                assert(par.hash == s[j].ptr.hash);
                assert(par.number == s[j].ptr.number);
                lemma_walk_push(s, b, par, f1);
            }
        },
    }
}

/// Appending a consistent block that passes the coherence check keeps
/// the chain consistent and coherent.
pub proof fn lemma_push_coherent(s: Seq<BlockV>, b: BlockV)
    requires
        consistent_chain(s),
        coherent_parents(s),
        consistent_block(b),
        coherent_with_block(s, b),
    ensures
        consistent_chain(s.push(b)),
        coherent_parents(s.push(b)),
{
    let s1 = s.push(b);
    assert(forall|k: int| 0 <= k < s.len() ==> s1[k] == s[k]);
    assert(s1[s.len() as int] == b);
    assert forall|i: int, j: int| 0 <= i < s1.len() && 0 <= j < s1.len() implies match (
    #[trigger] s1[i]).parent_ptr {
        Some(q) => q.hash == (#[trigger] s1[j]).ptr.hash ==> q.number == s1[j].ptr.number,
        None => true,
    } by {
        if i < s.len() && j < s.len() {
            assert(s1[i] == s[i] && s1[j] == s[j]);
        }
    }
}

/// Replacing the stored block that shares `b`'s hash keeps the chain
/// consistent and coherent, provided `b` passes the coherence check.
pub proof fn lemma_update_coherent(s: Seq<BlockV>, b: BlockV)
    requires
        unique_hashes(s),
        consistent_chain(s),
        coherent_parents(s),
        consistent_block(b),
        coherent_with_block(s, b),
        index_of_hash(s, b.ptr.hash) >= 0,
        s[index_of_hash(s, b.ptr.hash)].ptr.number == b.ptr.number,
    ensures
        consistent_chain(upsert_model(s, b)),
        coherent_parents(upsert_model(s, b)),
{
    lemma_index_of_hash(s, b.ptr.hash);
    let k = index_of_hash(s, b.ptr.hash);
    let s1 = s.update(k, b);
    assert forall|i: int, j: int| 0 <= i < s1.len() && 0 <= j < s1.len() implies match (
    #[trigger] s1[i]).parent_ptr {
        Some(q) => q.hash == (#[trigger] s1[j]).ptr.hash ==> q.number == s1[j].ptr.number,
        None => true,
    } by {
        if i != k && j != k {
            assert(s1[i] == s[i] && s1[j] == s[j]);
        } else if i == k && j != k {
            assert(s1[i] == b && s1[j] == s[j]);
        } else if i != k && j == k {
            assert(s1[i] == s[i] && s1[j] == b);
        } else {
            assert(s1[i] == b && s1[j] == b);
        }
    }
}

/// A later block with a smaller number does not change which block is
/// the head-advance candidate.
pub proof fn lemma_candidate_prefix_push(s: Seq<BlockV>, b: BlockV, n: int)
    requires
        0 <= n <= s.len(),
    ensures
        candidate_index_prefix(s.push(b), n) == candidate_index_prefix(s, n),
    decreases n,
{
    if n > 0 {
        lemma_candidate_prefix_push(s, b, n - 1);
        lemma_candidate_prefix(s, n - 1);
        assert(s.push(b)[n - 1] == s[n - 1]);
        if n - 1 > 0 {
            let r = candidate_index_prefix(s, n - 1);
            assert(s.push(b)[r] == s[r]);
        }
    }
}

/// Appending a block whose number is below the candidate's keeps the
/// candidate (same position, same block).
pub proof fn lemma_candidate_push_smaller(s: Seq<BlockV>, b: BlockV)
    requires
        s.len() > 0,
        b.ptr.number < s[candidate_index(s)].ptr.number,
    ensures
        candidate_index(s.push(b)) == candidate_index(s),
        s.push(b)[candidate_index(s.push(b))] == s[candidate_index(s)],
    decreases s.len(),
{
    let s1 = s.push(b);
    lemma_candidate_prefix(s, s.len() as int);
    lemma_candidate_prefix_push(s, b, s.len() as int);
    let c = candidate_index(s);
    assert(candidate_index_prefix(s1, s.len() as int) == c);
    assert(s1[s.len() as int] == b);
    assert(s1[c] == s[c]);
    assert(candidate_index_prefix(s1, s.len() + 1 as int) == c);
}

/// A source presents a coherent picture: hashes pairwise distinct,
/// every block internally consistent, hashes determining numbers. Such
/// a source may still have lost blocks to a reorg.
pub open spec fn source_coherent(src: Seq<BlockV>) -> bool {
    &&& unique_hashes(src)
    &&& consistent_chain(src)
    &&& coherent_parents(src)
}

/// A source presents a complete coherent picture: additionally, every
/// parent is itself available.
pub open spec fn source_complete(src: Seq<BlockV>) -> bool {
    &&& source_coherent(src)
    &&& forall|i: int|
        0 <= i < src.len() ==> match (#[trigger] src[i]).parent_ptr {
            Some(q) => has_hash(src, q.hash),
            None => true,
        }
}

/// Every cached block is exactly the source's block with its hash.
pub open spec fn cache_from_source(s: Seq<BlockV>, src: Seq<BlockV>) -> bool {
    forall|i: int|
        0 <= i < s.len() ==> has_hash(src, (#[trigger] s[i]).ptr.hash) && src[index_of_hash(
            src,
            s[i].ptr.hash,
        )] == s[i]
}

/// A block taken from a complete source that supplied every cached
/// block passes every ingestion check.
pub proof fn lemma_source_block_ok(s: Seq<BlockV>, src: Seq<BlockV>, b: BlockV)
    requires
        source_coherent(src),
        cache_from_source(s, src),
        has_hash(src, b.ptr.hash),
        b == src[index_of_hash(src, b.ptr.hash)],
    ensures
        consistent_block(b),
        coherent_with_block(s, b),
        index_of_hash(s, b.ptr.hash) >= 0 ==> s[index_of_hash(s, b.ptr.hash)].ptr.number
            == b.ptr.number,
{
    let jb = index_of_hash(src, b.ptr.hash);
    lemma_index_of_hash(src, b.ptr.hash);
    assert(consistent_block(src[jb]));
    assert forall|i: int| 0 <= i < s.len() implies match (#[trigger] s[i]).parent_ptr {
        Some(q) => q.hash == b.ptr.hash ==> q.number == b.ptr.number,
        None => true,
    } by {
        let hi = s[i].ptr.hash;
        assert(has_hash(src, hi));
        let ji = index_of_hash(src, hi);
        lemma_index_of_hash(src, hi);
        assert(src[ji] == s[i]);
        match s[i].parent_ptr {
            Some(q) => {
                if q.hash == b.ptr.hash {
                    assert(src[ji].parent_ptr is Some);
                    assert(q.hash == src[jb].ptr.hash);
                    assert(q.number == src[jb].ptr.number);
                }
            },
            None => {},
        }
    }
    match b.parent_ptr {
        Some(q) => {
            assert forall|j: int|
                0 <= j < s.len() && q.hash == (#[trigger] s[j]).ptr.hash implies q.number
                == s[j].ptr.number by {
                let hj = s[j].ptr.hash;
                let jj = index_of_hash(src, hj);
                lemma_index_of_hash(src, hj);
                assert(src[jj] == s[j]);
                assert(src[jb].parent_ptr is Some);
                assert(q.hash == src[jj].ptr.hash);
                assert(q.number == src[jj].ptr.number);
            }
        },
        None => {},
    }
    if index_of_hash(s, b.ptr.hash) >= 0 {
        let k = index_of_hash(s, b.ptr.hash);
        lemma_index_of_hash(s, b.ptr.hash);
        assert(s[k].ptr.hash == b.ptr.hash);
        let jk = index_of_hash(src, s[k].ptr.hash);
        assert(src[jk] == s[k]);
        assert(jk == jb);
    }
}

/// With pairwise distinct hashes, a block's position is exactly where
/// its hash is first found.
pub proof fn lemma_index_of_unique_at(s: Seq<BlockV>, i: int)
    requires
        unique_hashes(s),
        0 <= i < s.len(),
    ensures
        index_of_hash(s, s[i].ptr.hash) == i,
{
    lemma_index_of_hash(s, s[i].ptr.hash);
    let idx = index_of_hash(s, s[i].ptr.hash);
    assert(0 <= idx <= i);
    if idx != i {
        assert(s[idx].ptr.hash == s[i].ptr.hash);
        assert(false);
    }
}

/// After an upsert, the block is stored under its hash.
pub proof fn lemma_upsert_stores(s: Seq<BlockV>, b: BlockV)
    requires
        unique_hashes(s),
    ensures
        has_hash(upsert_model(s, b), b.ptr.hash),
        upsert_model(s, b)[index_of_hash(upsert_model(s, b), b.ptr.hash)] == b,
{
    lemma_index_of_hash(s, b.ptr.hash);
    let i = index_of_hash(s, b.ptr.hash);
    let s1 = upsert_model(s, b);
    if i == -1 {
        lemma_index_of_push(s, b, b.ptr.hash);
        assert(s1[s.len() as int] == b);
    } else {
        lemma_index_of_hash(s1, b.ptr.hash);
        assert(s1[i].ptr.hash == b.ptr.hash);
        let i1 = index_of_hash(s1, b.ptr.hash);
        assert(0 <= i1 <= i);
        if i1 < i {
            assert(s1[i1] == s[i1]);
            assert(s[i1].ptr.hash == b.ptr.hash);
            assert(0 <= i <= i1);
        }
        assert(s1[i1] == b);
    }
}

/// Upserting a block that the source supplied keeps the cache supplied
/// by the source.
pub proof fn lemma_subsumed_upsert(s: Seq<BlockV>, src: Seq<BlockV>, b: BlockV)
    requires
        cache_from_source(s, src),
        has_hash(src, b.ptr.hash),
        b == src[index_of_hash(src, b.ptr.hash)],
    ensures
        cache_from_source(upsert_model(s, b), src),
{
    lemma_index_of_hash(s, b.ptr.hash);
    let i = index_of_hash(s, b.ptr.hash);
    let s1 = upsert_model(s, b);
    assert forall|k: int|
        0 <= k < s1.len() implies has_hash(src, (#[trigger] s1[k]).ptr.hash) && src[
    index_of_hash(src, s1[k].ptr.hash)] == s1[k] by {
        if i == -1 {
            if k < s.len() {
                assert(s1[k] == s[k]);
            } else {
                assert(s1[k] == b);
            }
        } else {
            if k == i {
                assert(s1[k] == b);
            } else {
                assert(s1[k] == s[k]);
            }
        }
    }
}

/// What one head-advance attempt does to head `head` over blocks `s`
/// with window `ancestor_count`: the new head, and the first missing
/// ancestor when one blocks the advance.
pub open spec fn head_update(s: Seq<BlockV>, head: Option<BlockPtrV>, ancestor_count: int) -> (
    Option<BlockPtrV>,
    Option<BlockPtrV>,
) {
    if s.len() == 0 {
        (head, None)
    } else {
        let c = s[candidate_index(s)];
        if c.ptr.number <= head_number(head) {
            (head, None)
        } else {
            match walk_missing(s, c.ptr, ancestor_count as nat) {
                None => (Some(c.ptr), None),
                Some(p) => (head, Some(p)),
            }
        }
    }
}

/// The blocks of `s` whose number is at least `floor`, among the first
/// `n`, in storage order.
pub open spec fn retained_prefix(s: Seq<BlockV>, floor: int, n: int) -> Seq<BlockV>
    decreases n,
{
    if n <= 0 {
        Seq::empty()
    } else {
        let r = retained_prefix(s, floor, n - 1);
        if s[n - 1].ptr.number >= floor {
            r.push(s[n - 1])
        } else {
            r
        }
    }
}

/// The blocks of `s` whose number is at least `floor`, in storage order.
pub open spec fn retained(s: Seq<BlockV>, floor: int) -> Seq<BlockV> {
    retained_prefix(s, floor, s.len() as int)
}

/// What cleanup retains: only blocks of `s`, every one at or above the
/// floor, with hashes still pairwise distinct.
pub proof fn lemma_retained_prefix(s: Seq<BlockV>, floor: int, n: int)
    requires
        0 <= n <= s.len(),
        unique_hashes(s),
    ensures
        retained_prefix(s, floor, n).len() <= n,
        forall|k: int|
            0 <= k < retained_prefix(s, floor, n).len() ==> (#[trigger] retained_prefix(
                s,
                floor,
                n,
            )[k]).ptr.number >= floor,
        forall|k: int|
            0 <= k < retained_prefix(s, floor, n).len() ==> exists|j: int|
                0 <= j < n && #[trigger] retained_prefix(s, floor, n)[k] == s[j],
        unique_hashes(retained_prefix(s, floor, n)),
        forall|k1: int, k2: int|
            0 <= k1 < k2 < retained_prefix(s, floor, n).len() ==> exists|j1: int, j2: int|
                0 <= j1 < j2 < n && #[trigger] retained_prefix(s, floor, n)[k1] == s[j1]
                    && #[trigger] retained_prefix(s, floor, n)[k2] == s[j2],
    decreases n,
{
    if n > 0 {
        lemma_retained_prefix(s, floor, n - 1);
        let r = retained_prefix(s, floor, n - 1);
        let r1 = retained_prefix(s, floor, n);
        if s[n - 1].ptr.number >= floor {
            assert(r1 == r.push(s[n - 1]));
        } else {
            assert(r1 == r);
        }
        if s[n - 1].ptr.number >= floor {
            assert forall|k1: int, k2: int| 0 <= k1 < k2 < r1.len() implies exists|j1: int, j2: int|
                0 <= j1 < j2 < n && #[trigger] r1[k1] == s[j1] && #[trigger] r1[k2] == s[j2] by {
                if k2 < r.len() {
                    let (j1, j2) = choose|j1: int, j2: int|
                        0 <= j1 < j2 < n - 1 && r[k1] == s[j1] && r[k2] == s[j2];
                    assert(0 <= j1 < j2 < n && r1[k1] == s[j1] && r1[k2] == s[j2]);
                } else {
                    let j1 = choose|j: int| 0 <= j < n - 1 && r[k1] == s[j];
                    assert(r1[k2] == s[n - 1]);
                    assert(0 <= j1 < n - 1 && r1[k1] == s[j1]);
                }
            }
            assert forall|i: int, j: int|
                0 <= i < r1.len() && 0 <= j < r1.len() && i != j implies r1[i].ptr.hash
                != r1[j].ptr.hash by {
                let (k1, k2) = if i < j {
                    (i, j)
                } else {
                    (j, i)
                };
                let (j1, j2) = choose|j1: int, j2: int|
                    0 <= j1 < j2 < n && r1[k1] == s[j1] && r1[k2] == s[j2];
                assert(s[j1].ptr.hash != s[j2].ptr.hash);
            }
        }
    }
}

/// Runtime check that a block is internally consistent.
pub fn check_block_consistent(b: &Block) -> (ok: bool)
    ensures
        ok == consistent_block(b@),
{
    if b.ptr.number < 0 {
        return false;
    }
    match &b.parent_ptr {
        None => true,
        Some(p) => b.ptr.number > 0 && p.number == b.ptr.number - 1 && !(p.hash == b.ptr.hash),
    }
}

impl ChainCache {
    /// Runtime check that upserting `b` cannot break hash coherence:
    /// stored parent pointers naming `b`'s hash carry `b`'s number, `b`'s
    /// parent pointer agrees with any stored block it names, and a stored
    /// block sharing `b`'s hash has `b`'s number.
    pub fn check_coherent_with(&self, b: &Block) -> (ok: bool)
        requires
            self.wf(),
        ensures
            ok == (coherent_with_block(self.blocks_view(), b@) && (index_of_hash(
                self.blocks_view(),
                b@.ptr.hash,
            ) >= 0 ==> self.blocks_view()[index_of_hash(self.blocks_view(), b@.ptr.hash)].ptr.number
                == b@.ptr.number)),
    {
        let ghost s = self.blocks_view();
        proof {
            lemma_index_of_hash(s, b@.ptr.hash);
        }
        let mut i: usize = 0;
        while i < self.blocks.len()
            invariant
                i <= self.blocks.len(),
                s == self.blocks_view(),
                s.len() == self.blocks@.len(),
                self.wf(),
                unique_hashes(s),
                forall|k: int|
                    0 <= k < i ==> match (#[trigger] s[k]).parent_ptr {
                        Some(q) => q.hash == b@.ptr.hash ==> q.number == b@.ptr.number,
                        None => true,
                    },
                forall|k: int|
                    0 <= k < i ==> match b@.parent_ptr {
                        Some(q) => q.hash == (#[trigger] s[k]).ptr.hash ==> q.number
                            == s[k].ptr.number,
                        None => true,
                    },
                forall|k: int|
                    0 <= k < i ==> ((#[trigger] s[k]).ptr.hash == b@.ptr.hash ==> s[k].ptr.number
                        == b@.ptr.number),
            decreases self.blocks.len() - i,
        {
            proof {
                assert(s[i as int] == self.blocks@[i as int]@);
            }
            let sb = &self.blocks[i];
            match &sb.parent_ptr {
                Some(q) => {
                    if q.hash == b.ptr.hash && q.number != b.ptr.number {
                        assert(!coherent_with_block(s, b@));
                        return false;
                    }
                },
                None => {},
            }
            match &b.parent_ptr {
                Some(q) => {
                    if q.hash == sb.ptr.hash && q.number != sb.ptr.number {
                        proof {
                            assert(b@.parent_ptr == Some(q@));
                            assert(q@.hash == s[i as int].ptr.hash);
                            assert(q@.number != s[i as int].ptr.number);
                            assert(!coherent_with_block(s, b@));
                        }
                        return false;
                    }
                },
                None => {},
            }
            if sb.ptr.hash == b.ptr.hash && sb.ptr.number != b.ptr.number {
                proof {
                    lemma_index_of_hash(s, b@.ptr.hash);
                    let idx = index_of_hash(s, b@.ptr.hash);
                    assert(s[i as int].ptr.hash == b@.ptr.hash);
                    assert(0 <= idx <= i as int);
                    // Hashes are unique, so the first match is this one.
                    assert(s[idx].ptr.hash == b@.ptr.hash);
                    assert(idx == i as int);
                }
                return false;
            }
            i = i + 1;
        }
        proof {
            if index_of_hash(s, b@.ptr.hash) >= 0 {
                assert(s[index_of_hash(s, b@.ptr.hash)].ptr.hash == b@.ptr.hash);
            }
        }
        true
    }

    /// The stored block with the given hash, if any.
    pub fn block_by_hash(&self, hash: &BlockHash) -> (r: Option<&Block>)
        ensures
            match r {
                Some(b) => {
                    &&& has_hash(self.blocks_view(), hash@)
                    &&& b@ == self.blocks_view()[index_of_hash(self.blocks_view(), hash@)]
                },
                None => !has_hash(self.blocks_view(), hash@),
            },
    {
        match self.find_index(hash) {
            Some(i) => Some(&self.blocks[i]),
            None => None,
        }
    }

    /// The pointer of the first stored block with the highest number, or
    /// `None` when nothing is stored.
    pub fn highest_block_ptr(&self) -> (r: Option<BlockPtr>)
        ensures
            match r {
                None => self.blocks_view().len() == 0,
                Some(p) => self.blocks_view().len() > 0 && p@ == self.blocks_view()[
                    candidate_index(self.blocks_view())].ptr,
            },
    {
        let ghost s = self.blocks_view();
        if self.blocks.len() == 0 {
            return None;
        }
        let mut best: usize = 0;
        let mut k: usize = 1;
        proof {
            assert(candidate_index_prefix(s, 0) == -1);
            assert(candidate_index_prefix(s, 1) == 0);
        }
        while k < self.blocks.len()
            invariant
                1 <= k <= self.blocks.len(),
                best < k,
                s == self.blocks_view(),
                s.len() == self.blocks@.len(),
                best as int == candidate_index_prefix(s, k as int),
            decreases self.blocks.len() - k,
        {
            proof {
                assert(s[k as int] == self.blocks@[k as int]@);
                assert(s[best as int] == self.blocks@[best as int]@);
            }
            if self.blocks[k].ptr.number > self.blocks[best].ptr.number {
                best = k;
            }
            k = k + 1;
        }
        assert(best as int == candidate_index(s));
        proof {
            assert(s[best as int] == self.blocks@[best as int]@);
        }
        Some(self.blocks[best].ptr.clone())
    }

    /// Attempt to advance the head to the stored block with the highest
    /// number, provided every ancestor within `ancestor_count` blocks of
    /// it is stored (or the chain reaches genesis first). Returns the
    /// pointer of the first missing ancestor when one blocks the
    /// advance. The head never moves backward.
    pub fn attempt_chain_head_update(&mut self, ancestor_count: i32) -> (r: Option<BlockPtr>)
        requires
            old(self).wf(),
            ancestor_count >= 0,
        ensures
            final(self).wf(),
            final(self).blocks_view() == old(self).blocks_view(),
            head_number(final(self).head_view()) >= head_number(old(self).head_view()),
            final(self).head_view() == head_update(
                old(self).blocks_view(),
                old(self).head_view(),
                ancestor_count as int,
            ).0,
            match r {
                Some(rp) => head_update(
                    old(self).blocks_view(),
                    old(self).head_view(),
                    ancestor_count as int,
                ).1 == Some(rp@),
                None => head_update(
                    old(self).blocks_view(),
                    old(self).head_view(),
                    ancestor_count as int,
                ).1 is None,
            },
    {
        let ghost s = self.blocks_view();
        if self.blocks.len() == 0 {
            return None;
        }
        proof {
            lemma_candidate_prefix(s, s.len() as int);
        }
        let mut best: usize = 0;
        let mut k: usize = 1;
        proof {
            assert(candidate_index_prefix(s, 0) == -1);
            assert(candidate_index_prefix(s, 1) == 0);
        }
        while k < self.blocks.len()
            invariant
                1 <= k <= self.blocks.len(),
                best < k,
                self == old(self),
                s == self.blocks_view(),
                s.len() == self.blocks@.len(),
                best as int == candidate_index_prefix(s, k as int),
            decreases self.blocks.len() - k,
        {
            proof {
                assert(s[k as int] == self.blocks@[k as int]@);
                assert(s[best as int] == self.blocks@[best as int]@);
            }
            if self.blocks[k].ptr.number > self.blocks[best].ptr.number {
                best = k;
            }
            k = k + 1;
        }
        assert(best as int == candidate_index(s));
        let ghost c = s[candidate_index(s)];
        proof {
            assert(s[best as int] == self.blocks@[best as int]@);
        }
        let cand_number = self.blocks[best].ptr.number;
        assert(cand_number as int == c.ptr.number);
        let advance = match &self.head {
            Some(h) => cand_number > h.number,
            None => true,
        };
        if !advance {
            return None;
        }
        proof {
            // Stored numbers are non-negative, so a candidate always beats
            // an absent head.
            assert(self.blocks_view()[best as int].ptr.number >= 0);
        }
        let cand_ptr = self.blocks[best].ptr.clone();
        let mut cur: BlockPtr = self.blocks[best].ptr.clone();
        let mut fuel: i32 = ancestor_count;
        loop
            invariant
                self.wf(),
                s == self.blocks_view(),
                s == old(self).blocks_view(),
                self.head_view() == old(self).head_view(),
                old(self).wf(),
                0 <= fuel <= ancestor_count,
                cand_ptr@ == c.ptr,
                c.ptr.number > head_number(old(self).head_view()),
                c.ptr.number >= 0,
                s.len() > 0,
                0 <= candidate_index(s) < s.len(),
                c == s[candidate_index(s)],
                walk_missing(s, cur@, fuel as nat) == walk_missing(
                    s,
                    c.ptr,
                    ancestor_count as nat,
                ),
            decreases fuel,
        {
            proof {
                assert(s.len() == self.blocks@.len());
            }
            match self.find_index(&cur.hash) {
                None => {
                    assert(walk_missing(s, cur@, fuel as nat) == Some(cur@));
                    return Some(cur);
                },
                Some(i) => {
                    assert(s[i as int] == self.blocks@[i as int]@);
                    let parent = match &self.blocks[i].parent_ptr {
                        Some(p) => Some(p.clone()),
                        None => None,
                    };
                    match parent {
                        None => {
                            assert(walk_missing(s, cur@, fuel as nat) is None);
                            self.head = Some(cand_ptr);
                            return None;
                        },
                        Some(p) => {
                            assert(s[i as int].parent_ptr == Some(p@));
                            if fuel == 0 {
                                assert(walk_missing(s, cur@, fuel as nat) is None);
                                self.head = Some(cand_ptr);
                                return None;
                            }
                            assert(walk_missing(s, cur@, fuel as nat) == walk_missing(
                                s,
                                p@,
                                (fuel - 1) as nat,
                            ));
                            fuel = fuel - 1;
                            cur = p;
                        },
                    }
                },
            }
        }
    }

    /// Drop blocks more than `ancestor_count` behind the head. Returns
    /// the new floor and the number of blocks removed, or `None` when
    /// there was no head or nothing to clean.
    pub fn cleanup_cached_blocks(&mut self, ancestor_count: i32) -> (r: Option<
        (BlockNumber, usize),
    >)
        requires
            old(self).wf(),
            ancestor_count >= 0,
        ensures
            final(self).wf(),
            final(self).head_view() == old(self).head_view(),
            match old(self).head_view() {
                None => final(self).blocks_view() == old(self).blocks_view() && r is None,
                Some(h) => {
                    let floor = h.number - ancestor_count;
                    &&& final(self).blocks_view() == retained(old(self).blocks_view(), floor)
                    &&& match r {
                        Some((mb, count)) => mb == floor && count == old(self).blocks_view().len()
                            - final(self).blocks_view().len() && count > 0,
                        None => final(self).blocks_view().len() == old(self).blocks_view().len(),
                    }
                },
            },
    {
        let ghost s = self.blocks_view();
        let head_num = match &self.head {
            None => {
                return None;
            },
            Some(h) => h.number,
        };
        let floor: i32 = head_num - ancestor_count;
        proof {
            lemma_retained_prefix(s, floor as int, s.len() as int);
        }
        let mut kept: Vec<Block> = Vec::new();
        let mut i: usize = 0;
        let old_len = self.blocks.len();
        proof {
            assert(kept@.map_values(|b: Block| b@) =~= retained_prefix(s, floor as int, 0));
        }
        while i < self.blocks.len()
            invariant
                i <= self.blocks.len(),
                s == self.blocks_view(),
                s.len() == self.blocks.len(),
                kept@.map_values(|b: Block| b@) == retained_prefix(s, floor as int, i as int),
                kept.len() <= i,
            decreases self.blocks.len() - i,
        {
            let ghost kv = kept@.map_values(|b: Block| b@);
            if self.blocks[i].ptr.number >= floor {
                kept.push(self.blocks[i].clone());
                proof {
                    assert(kept@.map_values(|b: Block| b@) =~= kv.push(s[i as int]));
                }
            }
            i = i + 1;
        }
        let removed = old_len - kept.len();
        self.blocks = kept;
        proof {
            assert(self.blocks_view() == retained(s, floor as int));
        }
        if removed > 0 {
            Some((floor, removed))
        } else {
            None
        }
    }
}

} // verus!
