//! Block identity: hashes, pointers, and the block record kept by the
//! chain cache.

use vstd::prelude::*;

verus! {

/// `serde_json::Value` carries a block's opaque payload through the
/// library; nothing here reads inside it.
#[verifier::external_type_specification]
#[verifier::external_body]
pub struct ExValue(serde_json::Value);

/// Relies on `<serde_json::Value as Clone>::clone`, which duplicates the
/// value.
#[verifier::external_body]
pub(crate) fn clone_value(v: &serde_json::Value) -> (r: serde_json::Value)
    ensures
        r == *v,
{
    v.clone()
}

/// A block hash: the opaque byte string that identifies a block.
#[derive(Debug)]
pub struct BlockHash {
    pub bytes: Vec<u8>,
}

impl View for BlockHash {
    type V = Seq<u8>;

    open spec fn view(&self) -> Seq<u8> {
        self.bytes@
    }
}

impl BlockHash {
    pub fn new(bytes: Vec<u8>) -> (r: BlockHash)
        ensures
            r@ == bytes@,
    {
        BlockHash { bytes }
    }
}

impl Clone for BlockHash {
    fn clone(&self) -> (r: Self)
        ensures
            r@ == self@,
    {
        let mut bytes: Vec<u8> = Vec::new();
        let mut i: usize = 0;
        while i < self.bytes.len()
            invariant
                i <= self.bytes.len(),
                bytes@ == self.bytes@.subrange(0, i as int),
            decreases self.bytes.len() - i,
        {
            bytes.push(self.bytes[i]);
            i = i + 1;
        }
        assert(bytes@ == self.bytes@);
        BlockHash { bytes }
    }
}

impl PartialEq for BlockHash {
    fn eq(&self, other: &Self) -> (r: bool) {
        if self.bytes.len() != other.bytes.len() {
            return false;
        }
        let mut i: usize = 0;
        while i < self.bytes.len()
            invariant
                i <= self.bytes.len(),
                self.bytes.len() == other.bytes.len(),
                forall|j: int| 0 <= j < i ==> self.bytes@[j] == other.bytes@[j],
            decreases self.bytes.len() - i,
        {
            if self.bytes[i] != other.bytes[i] {
                return false;
            }
            i = i + 1;
        }
        assert(self.bytes@ =~= other.bytes@);
        true
    }
}

impl Eq for BlockHash {
}

impl vstd::std_specs::cmp::PartialEqSpecImpl for BlockHash {
    open spec fn obeys_eq_spec() -> bool {
        true
    }

    open spec fn eq_spec(&self, other: &Self) -> bool {
        self@ == other@
    }
}

/// The mathematical value of a block pointer.
pub ghost struct BlockPtrV {
    pub number: int,
    pub hash: Seq<u8>,
}

/// A pointer to a block: its number and its hash. Identity is the hash;
/// the number is kept for ordering and pruning.
#[derive(Debug)]
pub struct BlockPtr {
    pub number: crate::block_range::BlockNumber,
    pub hash: BlockHash,
}

impl View for BlockPtr {
    type V = BlockPtrV;

    open spec fn view(&self) -> BlockPtrV {
        BlockPtrV { number: self.number as int, hash: self.hash@ }
    }
}

impl BlockPtr {
    pub fn new(number: crate::block_range::BlockNumber, hash: BlockHash) -> (r: BlockPtr)
        ensures
            r@ == (BlockPtrV { number: number as int, hash: hash@ }),
    {
        BlockPtr { number, hash }
    }
}

impl Clone for BlockPtr {
    fn clone(&self) -> (r: Self)
        ensures
            r@ == self@,
    {
        BlockPtr { number: self.number, hash: self.hash.clone() }
    }
}

impl PartialEq for BlockPtr {
    fn eq(&self, other: &Self) -> (r: bool) {
        self.number == other.number && self.hash == other.hash
    }
}

impl Eq for BlockPtr {
}

impl vstd::std_specs::cmp::PartialEqSpecImpl for BlockPtr {
    open spec fn obeys_eq_spec() -> bool {
        true
    }

    open spec fn eq_spec(&self, other: &Self) -> bool {
        self@ == other@
    }
}

/// The mathematical value of a stored block.
pub ghost struct BlockV {
    pub ptr: BlockPtrV,
    pub parent_ptr: Option<BlockPtrV>,
    pub timestamp: int,
    pub data: serde_json::Value,
}

/// A block as the chain cache stores it: its pointer, its parent's
/// pointer (absent for genesis), a timestamp, and the opaque payload.
pub struct Block {
    pub ptr: BlockPtr,
    pub parent_ptr: Option<BlockPtr>,
    pub timestamp: i64,
    pub data: serde_json::Value,
}

impl View for Block {
    type V = BlockV;

    open spec fn view(&self) -> BlockV {
        BlockV {
            ptr: self.ptr@,
            parent_ptr: match self.parent_ptr {
                Some(p) => Some(p@),
                None => None,
            },
            timestamp: self.timestamp as int,
            data: self.data,
        }
    }
}

impl Block {
    pub fn new(
        ptr: BlockPtr,
        parent_ptr: Option<BlockPtr>,
        timestamp: i64,
        data: serde_json::Value,
    ) -> (r: Block)
        ensures
            r.ptr@ == ptr@,
            r@.parent_ptr == (match parent_ptr {
                Some(p) => Some(p@),
                None => None::<BlockPtrV>,
            }),
            r.timestamp == timestamp,
            r.data == data,
    {
        Block { ptr, parent_ptr, timestamp, data }
    }

    /// The block's own number.
    pub fn number(&self) -> (r: crate::block_range::BlockNumber)
        ensures
            r as int == self@.ptr.number,
    {
        self.ptr.number
    }
}

impl Clone for Block {
    fn clone(&self) -> (r: Self)
        ensures
            r@ == self@,
    {
        let parent_ptr = match &self.parent_ptr {
            Some(p) => Some(p.clone()),
            None => None,
        };
        Block {
            ptr: self.ptr.clone(),
            parent_ptr,
            timestamp: self.timestamp,
            data: clone_value(&self.data),
        }
    }
}

} // verus!
