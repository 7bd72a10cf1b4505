//! Chain positions and block identities.

use vstd::prelude::*;

verus! {

/// Ordinal naming an epoch; the chain produces epochs in strictly
/// increasing order.
pub type EpochId = u64;

/// A block's chain position: either the epoch's genesis marker or a
/// (epoch, slot) pair. Positions are totally ordered by (epoch, slot),
/// with the genesis marker preceding every normal position of its epoch.
#[derive(Clone, Copy, PartialEq, Eq, Structural, Debug)]
pub enum BlockDate {
    Genesis(EpochId),
    Normal { epoch: EpochId, slot: u32 },
}

impl BlockDate {
    /// The epoch this position belongs to.
    pub open spec fn epoch(self) -> EpochId {
        match self {
            BlockDate::Genesis(e) => e,
            BlockDate::Normal { epoch, .. } => epoch,
        }
    }

    pub open spec fn is_genesis_marker(self) -> bool {
        self is Genesis
    }

    /// Strict chain order on positions.
    pub open spec fn lt(self, other: BlockDate) -> bool {
        self.epoch() < other.epoch() || (self.epoch() == other.epoch() && match (self, other) {
            (BlockDate::Genesis(_), BlockDate::Normal { .. }) => true,
            (BlockDate::Normal { slot: a, .. }, BlockDate::Normal { slot: b, .. }) => a < b,
            _ => false,
        })
    }

    pub fn get_epochid(&self) -> (e: EpochId)
        ensures
            e == self.epoch(),
    {
        match self {
            BlockDate::Genesis(e) => *e,
            BlockDate::Normal { epoch, .. } => *epoch,
        }
    }

    pub fn is_genesis(&self) -> (r: bool)
        ensures
            r == self.is_genesis_marker(),
    {
        match self {
            BlockDate::Genesis(_) => true,
            BlockDate::Normal { .. } => false,
        }
    }
}

/// The chain order is transitive, so the pairwise order of neighbouring
/// stream elements extends to any two positions of the stream.
pub proof fn lemma_date_lt_trans(a: BlockDate, b: BlockDate, c: BlockDate)
    requires
        a.lt(b),
        b.lt(c),
    ensures
        a.lt(c),
{
}

/// A block's identity plus its position; used both for the network tip and
/// for the local resume point.
pub struct BlockRef {
    pub hash: Vec<u8>,
    pub date: BlockDate,
}

/// Mathematical image of a [`BlockRef`].
pub struct BlockRefV {
    pub hash: Seq<u8>,
    pub date: BlockDate,
}

impl View for BlockRef {
    type V = BlockRefV;

    open spec fn view(&self) -> BlockRefV {
        BlockRefV { hash: self.hash@, date: self.date }
    }
}

/// One block as the network collaborator delivers it: its header hash, its
/// decoded position, and its raw encoded bytes.
pub struct Block {
    pub hash: Vec<u8>,
    pub date: BlockDate,
    pub raw: Vec<u8>,
}

/// Mathematical image of a [`Block`].
pub struct BlockV {
    pub hash: Seq<u8>,
    pub date: BlockDate,
    pub raw: Seq<u8>,
}

impl View for Block {
    type V = BlockV;

    open spec fn view(&self) -> BlockV {
        BlockV { hash: self.hash@, date: self.date, raw: self.raw@ }
    }
}

/// The views of a delivered stream, in delivery order.
pub open spec fn stream_view(s: Seq<Block>) -> Seq<BlockV> {
    s.map_values(|b: Block| b@)
}

/// Byte-string copy with an exact contract, used to place block identities
/// and payloads into the storage journal.
pub fn clone_bytes(v: &Vec<u8>) -> (r: Vec<u8>)
    ensures
        r@ == v@,
{
    let mut r: Vec<u8> = Vec::new();
    let mut i: usize = 0;
    while i < v.len()
        invariant
            i <= v.len(),
            r@ == v@.take(i as int),
        decreases v.len() - i,
    {
        r.push(v[i]);
        proof {
            assert(v@.take(i + 1 as int) =~= v@.take(i as int).push(v@[i as int]));
        }
        i = i + 1;
    }
    proof {
        assert(v@.take(v@.len() as int) =~= v@);
    }
    r
}

/// Copy of a delivered block.
pub fn clone_block(b: &Block) -> (r: Block)
    ensures
        r@ == b@,
{
    Block { hash: clone_bytes(&b.hash), date: b.date, raw: clone_bytes(&b.raw) }
}

/// Byte-string equality with an exact contract.
pub fn bytes_eq(a: &Vec<u8>, b: &Vec<u8>) -> (r: bool)
    ensures
        r == (a@ == b@),
{
    if a.len() != b.len() {
        return false;
    }
    let mut i: usize = 0;
    while i < a.len()
        invariant
            i <= a.len(),
            a@.len() == b@.len(),
            forall|j: int| 0 <= j < i ==> a@[j] == b@[j],
        decreases a.len() - i,
    {
        if a[i] != b[i] {
            return false;
        }
        i = i + 1;
    }
    proof {
        assert(a@ =~= b@);
    }
    true
}

} // verus!
