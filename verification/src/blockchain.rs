//! Chain-facing interfaces shared across chain kinds: ingestion errors,
//! the chain-kind tag, the typed chain registry, and the small traits a
//! chain implementation provides.

use vstd::prelude::*;
use vstd::string::StrSliceExecFns;

use crate::strutil::{
    dec_str_of_i64, from_str_radix_spec, i64_to_dec_string, parse_i64_radix, str_eq,
};
use crate::types::BlockHash;

verus! {

/// What can go wrong while ingesting blocks. `BlockUnavailable` and the
/// receipt variants are transient: the source lost the data, most likely
/// to a reorg, and the next poll retries. `Unknown` wraps everything
/// else.
#[derive(Debug)]
pub enum IngestorError {
    /// The source no longer has the block with this hash.
    BlockUnavailable(BlockHash),
    /// The source no longer has the receipt for this transaction
    /// (block hash, transaction hash).
    ReceiptUnavailable(BlockHash, BlockHash),
    /// The source no longer has the receipts of the block with this hash.
    BlockReceiptsUnavailable(BlockHash),
    /// The source reported conflicting receipts for the block with this
    /// hash.
    BlockReceiptsMismatched(BlockHash),
    /// Any other failure, described in text.
    Unknown(String),
}

/// The chain technologies an indexer node supports.
#[derive(Copy, Clone, Debug, Hash, PartialEq, Eq, Structural)]
pub enum BlockchainKind {
    /// The base chain this indexer grew up on, and chains compatible
    /// with it.
    Ethereum,
    /// Near chains, and chains compatible with them.
    Near,
    /// Substream-fed chains.
    Substreams,
}

/// The kind a name denotes, if any: an alias used in manifests maps to
/// the base chain kind.
pub open spec fn kind_from_str(s: Seq<char>) -> Option<BlockchainKind> {
    if s == "ethereum"@ {
        Some(BlockchainKind::Ethereum)
    } else if s == "near"@ {
        Some(BlockchainKind::Near)
    } else if s == "substreams"@ {
        Some(BlockchainKind::Substreams)
    } else if s == "subgraph"@ {
        Some(BlockchainKind::Ethereum)
    } else {
        None
    }
}

/// The name of a kind.
pub open spec fn kind_name(k: BlockchainKind) -> Seq<char> {
    match k {
        BlockchainKind::Ethereum => "ethereum"@,
        BlockchainKind::Near => "near"@,
        BlockchainKind::Substreams => "substreams"@,
    }
}

/// The prefix of `s` before its first `/`, or all of `s` when it has
/// none.
pub open spec fn first_segment_len(s: Seq<char>) -> int
    decreases s.len(),
{
    if s.len() == 0 {
        0
    } else if s[0] == '/' {
        0
    } else {
        1 + first_segment_len(s.drop_first())
    }
}

/// The prefix before the first `/` is within bounds, slash-free, and
/// ends at a `/` or at the end of the text.
pub proof fn lemma_first_segment(s: Seq<char>)
    ensures
        0 <= first_segment_len(s) <= s.len(),
        forall|j: int| 0 <= j < first_segment_len(s) ==> s[j] != '/',
        first_segment_len(s) < s.len() ==> s[first_segment_len(s)] == '/',
    decreases s.len(),
{
    if s.len() > 0 && s[0] != '/' {
        let d = s.drop_first();
        lemma_first_segment(d);
        assert forall|j: int| 0 <= j < first_segment_len(s) implies s[j] != '/' by {
            if j >= 1 {
                assert(s[j] == d[j - 1]);
            }
        }
        if first_segment_len(s) < s.len() {
            assert(s[first_segment_len(s)] == d[first_segment_len(d)]);
        }
    }
}

impl BlockchainKind {
    /// The kind's name.
    pub fn as_str(&self) -> (r: &'static str)
        ensures
            r@ == kind_name(*self),
    {
        match self {
            BlockchainKind::Ethereum => "ethereum",
            BlockchainKind::Near => "near",
            BlockchainKind::Substreams => "substreams",
        }
    }

    /// The kind a name denotes; unknown names are rejected.
    pub fn from_str(s: &str) -> (r: Result<BlockchainKind, String>)
        ensures
            match r {
                Ok(k) => kind_from_str(s@) == Some(k),
                Err(_) => kind_from_str(s@) is None,
            },
    {
        if str_eq(s, "ethereum") {
            Ok(BlockchainKind::Ethereum)
        } else if str_eq(s, "near") {
            Ok(BlockchainKind::Near)
        } else if str_eq(s, "substreams") {
            Ok(BlockchainKind::Substreams)
        } else if str_eq(s, "subgraph") {
            Ok(BlockchainKind::Ethereum)
        } else {
            Err(String::from_str("unknown blockchain kind"))
        }
    }

    /// The kind named by the `kind` field of a manifest's first data
    /// source, when the field is present: the part before any `/` names
    /// the chain kind, as in a kind of the form `ethereum/contracts`.
    pub fn from_manifest_kind(kind_field: Option<&str>) -> (r: Result<BlockchainKind, String>)
        ensures
            match kind_field {
                None => r is Err,
                Some(ks) => match r {
                    Ok(k) => kind_from_str(ks@.subrange(0, first_segment_len(ks@))) == Some(k),
                    Err(_) => kind_from_str(ks@.subrange(0, first_segment_len(ks@))) is None,
                },
            },
    {
        let ks = match kind_field {
            Some(ks) => ks,
            None => {
                return Err(String::from_str("invalid manifest"));
            },
        };
        proof {
            lemma_first_segment(ks@);
        }
        let n = ks.unicode_len();
        let mut i: usize = 0;
        while i < n && ks.get_char(i) != '/'
            invariant
                i <= n,
                n == ks@.len(),
                forall|j: int| 0 <= j < i ==> ks@[j] != '/',
            decreases n - i,
        {
            i = i + 1;
        }
        proof {
            lemma_first_segment(ks@);
            if i < n {
                assert(ks@[i as int] == '/');
                assert(first_segment_len(ks@) <= i as int);
                if first_segment_len(ks@) < i as int {
                    assert(ks@[first_segment_len(ks@)] != '/');
                    assert(ks@[first_segment_len(ks@)] == '/');
                }
            } else {
                if first_segment_len(ks@) < n as int {
                    assert(ks@[first_segment_len(ks@)] != '/');
                }
            }
            assert(i as int == first_segment_len(ks@));
        }
        let head = ks.substring_char(0, i);
        BlockchainKind::from_str(head)
    }
}

/// The block record the chain store keeps under its data column: a
/// timestamp (decimal, or hexadecimal with a `0x` prefix) and the
/// chain-specific payload.
#[derive(Debug)]
pub struct ChainStoreBlock {
    timestamp: String,
    data: serde_json::Value,
}

/// The number a stored timestamp text denotes: hexadecimal after a `0x`
/// prefix, decimal otherwise, and zero when it is no number at all.
pub open spec fn timestamp_value(ts: Seq<char>) -> int {
    let parsed = if ts.len() >= 2 && ts[0] == '0' && ts[1] == 'x' {
        from_str_radix_spec(ts.subrange(2, ts.len() as int), 16)
    } else {
        from_str_radix_spec(ts, 10)
    };
    match parsed {
        Some(v) => v,
        None => 0,
    }
}

impl ChainStoreBlock {
    /// The stored timestamp text.
    pub closed spec fn spec_timestamp(&self) -> Seq<char> {
        self.timestamp@
    }

    /// The stored payload.
    pub closed spec fn spec_data(&self) -> serde_json::Value {
        self.data
    }

    pub fn new(unix_timestamp: i64, data: serde_json::Value) -> (r: ChainStoreBlock)
        ensures
            r.spec_timestamp() == dec_str_of_i64(unix_timestamp as int),
            r.spec_data() == data,
    {
        ChainStoreBlock { timestamp: i64_to_dec_string(unix_timestamp), data }
    }

    /// Rebuild the record from its stored form, where the timestamp may
    /// be hexadecimal or decimal text.
    pub fn from_stored(timestamp: String, data: serde_json::Value) -> (r: ChainStoreBlock)
        ensures
            r.spec_timestamp() == timestamp@,
            r.spec_data() == data,
    {
        ChainStoreBlock { timestamp, data }
    }

    /// The timestamp text as stored.
    pub fn timestamp_str(&self) -> (r: &str)
        ensures
            r@ == self.spec_timestamp(),
    {
        self.timestamp.as_str()
    }

    /// The timestamp as a number: read as hexadecimal after a `0x`
    /// prefix, as decimal otherwise, and as zero when the text is no
    /// number.
    pub fn timestamp(&self) -> (r: i64)
        ensures
            r as int == timestamp_value(self.spec_timestamp()),
    {
        let ts = self.timestamp.as_str();
        let n = ts.unicode_len();
        let hex = n >= 2 && ts.get_char(0) == '0' && ts.get_char(1) == 'x';
        let parsed = if hex {
            let rest = ts.substring_char(2, n);
            parse_i64_radix(rest, 16)
        } else {
            parse_i64_radix(ts, 10)
        };
        match parsed {
            Some(v) => v,
            None => 0,
        }
    }
}

/// The root record under the chain store's data column, wrapping the
/// standardized block record.
#[derive(Debug)]
pub struct ChainStoreData {
    pub block: ChainStoreBlock,
}

impl ChainStoreData {
    pub fn new(block: ChainStoreBlock) -> (r: ChainStoreData)
        ensures
            r.block.spec_timestamp() == block.spec_timestamp(),
            r.block.spec_data() == block.spec_data(),
    {
        ChainStoreData { block }
    }
}

/// A freshly written block record reads back the timestamp it was given:
/// writing a number in decimal and reading the stored text agree.
pub proof fn lemma_timestamp_round_trip(t: int)
    requires
        i64::MIN <= t <= i64::MAX,
    ensures
        timestamp_value(dec_str_of_i64(t)) == t,
{
    crate::strutil::lemma_dec_str_of_i64_reads_back(t);
    let ts = dec_str_of_i64(t);
    if ts.len() >= 2 && ts[0] == '0' && ts[1] == 'x' {
        assert(false);
    }
}

/// An entry of the chain registry: a handle for one network of one
/// chain kind.
pub struct BlockchainMapEntry<H> {
    pub kind: BlockchainKind,
    pub network: String,
    pub handle: H,
}

/// The mathematical value of a registry entry.
pub ghost struct BlockchainMapEntryV<H> {
    pub kind: BlockchainKind,
    pub network: Seq<char>,
    pub handle: H,
}

impl<H> View for BlockchainMapEntry<H> {
    type V = BlockchainMapEntryV<H>;

    open spec fn view(&self) -> BlockchainMapEntryV<H> {
        BlockchainMapEntryV { kind: self.kind, network: self.network@, handle: self.handle }
    }
}

/// Index of the first entry keyed by `(kind, network)`, or `-1`.
pub open spec fn entry_index_of<H>(
    s: Seq<BlockchainMapEntryV<H>>,
    kind: BlockchainKind,
    network: Seq<char>,
) -> int
    decreases s.len(),
{
    if s.len() == 0 {
        -1
    } else if s[0].kind == kind && s[0].network == network {
        0
    } else {
        let r = entry_index_of(s.drop_first(), kind, network);
        if r == -1 {
            -1
        } else {
            r + 1
        }
    }
}

/// What `entry_index_of` returns: the first position keyed by the pair,
/// or `-1` when there is none.
pub proof fn lemma_entry_index_of<H>(
    s: Seq<BlockchainMapEntryV<H>>,
    kind: BlockchainKind,
    network: Seq<char>,
)
    ensures
        -1 <= entry_index_of(s, kind, network) < s.len(),
        entry_index_of(s, kind, network) >= 0 ==> s[entry_index_of(s, kind, network)].kind == kind
            && s[entry_index_of(s, kind, network)].network == network,
        forall|j: int|
            0 <= j < s.len() && (#[trigger] s[j]).kind == kind && s[j].network == network ==> 0
                <= entry_index_of(s, kind, network) <= j,
        entry_index_of(s, kind, network) == -1 ==> forall|j: int|
            0 <= j < s.len() ==> !((#[trigger] s[j]).kind == kind && s[j].network == network),
    decreases s.len(),
{
    if s.len() > 0 && !(s[0].kind == kind && s[0].network == network) {
        let d = s.drop_first();
        lemma_entry_index_of(d, kind, network);
        assert forall|j: int| 1 <= j < s.len() implies s[j] == d[j - 1] by {}
    }
}

/// The handles registered under `kind`, in registration order.
pub open spec fn entries_by_kind<H>(
    s: Seq<BlockchainMapEntryV<H>>,
    kind: BlockchainKind,
    n: int,
) -> Seq<H>
    decreases n,
{
    if n <= 0 {
        Seq::empty()
    } else {
        let r = entries_by_kind(s, kind, n - 1);
        if s[n - 1].kind == kind {
            r.push(s[n - 1].handle)
        } else {
            r
        }
    }
}

/// A collection of chain handles, keyed by chain kind and network name.
/// Exactly one handle is registered per key; registering a key again
/// replaces its handle.
pub struct BlockchainMap<H> {
    entries: Vec<BlockchainMapEntry<H>>,
}

impl<H> BlockchainMap<H> {
    /// The entries, as mathematical values, in registration order.
    pub closed spec fn entries_view(&self) -> Seq<BlockchainMapEntryV<H>> {
        self.entries@.map_values(|e: BlockchainMapEntry<H>| e@)
    }

    /// Well-formedness: keys are pairwise distinct.
    pub open spec fn wf(&self) -> bool {
        forall|i: int, j: int|
            0 <= i < self.entries_view().len() && 0 <= j < self.entries_view().len() && i != j
                ==> !((#[trigger] self.entries_view()[i]).kind == (
            #[trigger] self.entries_view()[j]).kind && self.entries_view()[i].network
                == self.entries_view()[j].network)
    }

    /// An empty registry.
    pub fn new() -> (r: BlockchainMap<H>)
        ensures
            r.wf(),
            r.entries_view() == Seq::<BlockchainMapEntryV<H>>::empty(),
    {
        let r = BlockchainMap { entries: Vec::new() };
        proof {
            assert(r.entries_view() =~= Seq::<BlockchainMapEntryV<H>>::empty());
        }
        r
    }

    /// All entries, in registration order.
    pub fn iter(&self) -> (r: &Vec<BlockchainMapEntry<H>>)
        ensures
            r@.map_values(|e: BlockchainMapEntry<H>| e@) == self.entries_view(),
    {
        &self.entries
    }

    /// Position of the entry keyed by `(kind, network)`, if any.
    fn find_entry(&self, kind: BlockchainKind, network: &str) -> (r: Option<usize>)
        ensures
            match r {
                Some(i) => i == entry_index_of(self.entries_view(), kind, network@) && i
                    < self.entries_view().len(),
                None => entry_index_of(self.entries_view(), kind, network@) == -1,
            },
    {
        let ghost s = self.entries_view();
        proof {
            lemma_entry_index_of(s, kind, network@);
        }
        let mut i: usize = 0;
        while i < self.entries.len()
            invariant
                i <= self.entries.len(),
                s == self.entries_view(),
                s.len() == self.entries@.len(),
                forall|j: int|
                    0 <= j < i ==> !((#[trigger] s[j]).kind == kind && s[j].network == network@),
                -1 <= entry_index_of(s, kind, network@) < s.len(),
                entry_index_of(s, kind, network@) >= 0 ==> s[entry_index_of(
                    s,
                    kind,
                    network@,
                )].kind == kind && s[entry_index_of(s, kind, network@)].network == network@,
                forall|j: int|
                    0 <= j < s.len() && (#[trigger] s[j]).kind == kind && s[j].network == network@
                        ==> 0 <= entry_index_of(s, kind, network@) <= j,
                entry_index_of(s, kind, network@) == -1 ==> forall|j: int|
                    0 <= j < s.len() ==> !((#[trigger] s[j]).kind == kind && s[j].network
                        == network@),
            decreases self.entries.len() - i,
        {
            proof {
                assert(s[i as int] == self.entries@[i as int]@);
            }
            let e = &self.entries[i];
            if e.kind == kind && str_eq(e.network.as_str(), network) {
                assert(s[i as int].kind == kind && s[i as int].network == network@);
                assert(entry_index_of(s, kind, network@) == i);
                return Some(i);
            }
            i = i + 1;
        }
        proof {
            if entry_index_of(s, kind, network@) >= 0 {
                assert(s[entry_index_of(s, kind, network@)].kind == kind);
            }
        }
        None
    }

    /// Register `handle` for `(kind, network)`, replacing any handle
    /// already registered under that key.
    pub fn insert(&mut self, kind: BlockchainKind, network: String, handle: H)
        requires
            old(self).wf(),
        ensures
            final(self).wf(),
            ({
                let s0 = old(self).entries_view();
                let e = BlockchainMapEntryV { kind, network: network@, handle };
                let i = entry_index_of(s0, kind, network@);
                final(self).entries_view() == if i == -1 {
                    s0.push(e)
                } else {
                    s0.update(i, e)
                }
            }),
    {
        let ghost s0 = self.entries_view();
        proof {
            lemma_entry_index_of(s0, kind, network@);
        }
        match self.find_entry(kind, network.as_str()) {
            Some(i) => {
                self.entries.set(i, BlockchainMapEntry { kind, network, handle });
                proof {
                    assert(self.entries_view() =~= s0.update(
                        i as int,
                        BlockchainMapEntryV { kind, network: network@, handle },
                    ));
                }
            },
            None => {
                self.entries.push(BlockchainMapEntry { kind, network, handle });
                proof {
                    assert(self.entries_view() =~= s0.push(
                        BlockchainMapEntryV { kind, network: network@, handle },
                    ));
                }
            },
        }
    }

    /// The handle registered for `(kind, network)`, if any.
    pub fn get(&self, kind: BlockchainKind, network: &str) -> (r: Option<&H>)
        ensures
            match r {
                Some(h) => {
                    &&& entry_index_of(self.entries_view(), kind, network@) >= 0
                    &&& *h == self.entries_view()[entry_index_of(
                        self.entries_view(),
                        kind,
                        network@,
                    )].handle
                },
                None => entry_index_of(self.entries_view(), kind, network@) == -1,
            },
    {
        match self.find_entry(kind, network) {
            Some(i) => {
                proof {
                    assert(self.entries_view()[i as int] == self.entries@[i as int]@);
                }
                Some(&self.entries[i].handle)
            },
            None => None,
        }
    }

    /// All handles registered under `kind`, in registration order.
    pub fn get_all_by_kind(&self, kind: BlockchainKind) -> (r: Vec<&H>)
        ensures
            r@.map_values(|h: &H| *h) == entries_by_kind(
                self.entries_view(),
                kind,
                self.entries_view().len() as int,
            ),
    {
        let ghost s = self.entries_view();
        let mut r: Vec<&H> = Vec::new();
        proof {
            assert(r@.map_values(|h: &H| *h) =~= entries_by_kind(s, kind, 0));
        }
        let mut i: usize = 0;
        while i < self.entries.len()
            invariant
                i <= self.entries.len(),
                s == self.entries_view(),
                s.len() == self.entries@.len(),
                r@.map_values(|h: &H| *h) == entries_by_kind(s, kind, i as int),
            decreases self.entries.len() - i,
        {
            proof {
                assert(s[i as int] == self.entries@[i as int]@);
            }
            let ghost rv = r@.map_values(|h: &H| *h);
            if self.entries[i].kind == kind {
                r.push(&self.entries[i].handle);
                proof {
                    assert(r@.map_values(|h: &H| *h) =~= rv.push(s[i as int].handle));
                }
            }
            i = i + 1;
        }
        r
    }
}

/// What a chain's block ingestor exposes to the node: the network it
/// drives and the chain kind it belongs to. Its polling loop runs
/// outside the library.
pub trait BlockIngestor {
    /// The network this ingestor drives.
    spec fn spec_network_name(&self) -> Seq<char>;

    fn network_name(&self) -> (r: String)
        ensures
            r@ == self.spec_network_name(),
    ;

    fn kind(&self) -> BlockchainKind;
}

/// Trigger data as parsed from a chain's triggers adapter, as far as the
/// node core needs it.
pub trait TriggerData {
    /// Context added to errors while processing this trigger.
    fn error_context(&self) -> String;

    /// The only address this trigger can match, when there is one; used
    /// to discard data sources quickly. `None` is always correct.
    fn address_match(&self) -> Option<&[u8]>;
}

/// A decoded trigger, ready for the mapping runtime.
pub trait MappingTriggerTrait {
    /// Context added to errors while processing this trigger.
    fn error_context(&self) -> String;
}

/// A filter for a subgraph-as-data-source: which entities of which
/// deployment, from which block on.
#[derive(Clone, Debug)]
pub struct SubgraphFilter {
    pub subgraph: String,
    pub start_block: crate::block_range::BlockNumber,
    pub entities: Vec<String>,
    pub manifest_idx: u32,
}

/// A decoder hook that passes triggers through untouched.
pub struct NoopDecoderHook;

impl NoopDecoderHook {
    /// Hand back exactly the triggers that came in.
    pub fn after_decode<T>(&self, triggers: Vec<T>) -> (r: Vec<T>)
        ensures
            r == triggers,
    {
        triggers
    }
}

} // verus!
