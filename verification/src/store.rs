//! Model of the durable storage collaborator.
//!
//! The physical layer (pack and index files, blob files, tag files) is owned
//! outside this core. What the core is responsible for is *which* writes it
//! performs and in *which order*, so storage is modeled as an append-only
//! journal of write events. Lookups read the journal from its end: the most
//! recent write of a key wins, each write being independently durable.

use vstd::prelude::*;

use crate::chain::{Block, BlockDate, BlockV, EpochId, bytes_eq, clone_block, clone_bytes};

verus! {

/// Key of a named durable pointer. The core uses exactly two families:
/// the local resume point and the published archive location of one epoch.
#[derive(Clone, Copy, PartialEq, Eq, Structural, Debug)]
pub enum TagKey {
    /// The `HEAD` checkpoint: hash of the last block the core has processed.
    Head,
    /// The `EPOCH_<n>` pointer: pack hash of epoch `n`'s finalized archive.
    Epoch(EpochId),
}

/// One write performed against the storage collaborator.
pub enum StoreEvent {
    /// A named pointer was written.
    TagWritten { key: TagKey, value: Vec<u8> },
    /// A block was persisted individually, keyed by its hash.
    LooseWritten { block: Block },
    /// An epoch archive was finalized: its pack and its index were rendered
    /// to their permanent, hash-derived paths.
    PackWritten { epoch: EpochId, pack_hash: Vec<u8>, blocks: Vec<Block> },
    /// The epoch was associated with its pack hash in the storage
    /// configuration.
    EpochRegistered { epoch: EpochId, pack_hash: Vec<u8> },
    /// The epoch's reference index was rebuilt, making the pack queryable.
    RefpackRebuilt { epoch: EpochId },
}

/// Mathematical image of a [`StoreEvent`].
pub enum EventV {
    TagWritten { key: TagKey, value: Seq<u8> },
    LooseWritten { block: BlockV },
    PackWritten { epoch: EpochId, pack_hash: Seq<u8>, blocks: Seq<BlockV> },
    EpochRegistered { epoch: EpochId, pack_hash: Seq<u8> },
    RefpackRebuilt { epoch: EpochId },
}

impl View for StoreEvent {
    type V = EventV;

    open spec fn view(&self) -> EventV {
        match self {
            StoreEvent::TagWritten { key, value } => EventV::TagWritten {
                key: *key,
                value: value@,
            },
            StoreEvent::LooseWritten { block } => EventV::LooseWritten { block: block@ },
            StoreEvent::PackWritten { epoch, pack_hash, blocks } => EventV::PackWritten {
                epoch: *epoch,
                pack_hash: pack_hash@,
                blocks: blocks@.map_values(|b: Block| b@),
            },
            StoreEvent::EpochRegistered { epoch, pack_hash } => EventV::EpochRegistered {
                epoch: *epoch,
                pack_hash: pack_hash@,
            },
            StoreEvent::RefpackRebuilt { epoch } => EventV::RefpackRebuilt { epoch: *epoch },
        }
    }
}

/// The journal of writes, oldest first.
pub struct Store {
    pub events: Vec<StoreEvent>,
}

impl View for Store {
    type V = Seq<EventV>;

    open spec fn view(&self) -> Seq<EventV> {
        self.events@.map_values(|e: StoreEvent| e@)
    }
}

/// The current value of a tag: the value of its most recent write.
pub open spec fn tag_of(log: Seq<EventV>, key: TagKey) -> Option<Seq<u8>>
    decreases log.len(),
{
    if log.len() == 0 {
        None
    } else {
        match log.last() {
            EventV::TagWritten { key: k, value } => if k == key {
                Some(value)
            } else {
                tag_of(log.drop_last(), key)
            },
            _ => tag_of(log.drop_last(), key),
        }
    }
}

/// The position of a block among a pack's contents, scanning from the end.
pub open spec fn date_in_blocks(blocks: Seq<BlockV>, hash: Seq<u8>) -> Option<BlockDate>
    decreases blocks.len(),
{
    if blocks.len() == 0 {
        None
    } else if blocks.last().hash == hash {
        Some(blocks.last().date)
    } else {
        date_in_blocks(blocks.drop_last(), hash)
    }
}

/// The decoded position of a stored block, loose or packed, if the store
/// holds one under this hash.
pub open spec fn block_date_in(log: Seq<EventV>, hash: Seq<u8>) -> Option<BlockDate>
    decreases log.len(),
{
    if log.len() == 0 {
        None
    } else {
        match log.last() {
            EventV::LooseWritten { block } => if block.hash == hash {
                Some(block.date)
            } else {
                block_date_in(log.drop_last(), hash)
            },
            EventV::PackWritten { blocks, .. } => match date_in_blocks(blocks, hash) {
                Some(d) => Some(d),
                None => block_date_in(log.drop_last(), hash),
            },
            _ => block_date_in(log.drop_last(), hash),
        }
    }
}

impl Store {
    /// An empty local store: nothing durable yet.
    pub fn new() -> (s: Store)
        ensures
            s@ == Seq::<EventV>::empty(),
    {
        let s = Store { events: Vec::new() };
        proof {
            assert(s@ =~= Seq::<EventV>::empty());
        }
        s
    }

    /// Write a named pointer; each write is independently durable.
    pub fn write_tag(&mut self, key: TagKey, value: Vec<u8>)
        ensures
            final(self)@ == old(self)@.push(EventV::TagWritten { key, value: value@ }),
    {
        let ghost val: Seq<u8> = value@;
        self.events.push(StoreEvent::TagWritten { key, value });
        proof {
            assert(self@ =~= old(self)@.push(EventV::TagWritten { key, value: val }));
        }
    }

    /// Read the current value of a named pointer.
    pub fn read_tag(&self, key: TagKey) -> (r: Option<Vec<u8>>)
        ensures
            match r {
                Some(v) => tag_of(self@, key) == Some(v@),
                None => tag_of(self@, key) is None,
            },
    {
        let mut i: usize = self.events.len();
        proof {
            assert(self@.take(i as int) =~= self@);
        }
        while i > 0
            invariant
                i <= self.events.len(),
                tag_of(self@, key) == tag_of(self@.take(i as int), key),
            decreases i,
        {
            i = i - 1;
            proof {
                assert(self@.take(i + 1 as int).last() == self@[i as int]);
                assert(self@.take(i + 1 as int).drop_last() =~= self@.take(i as int));
            }
            match &self.events[i] {
                StoreEvent::TagWritten { key: k, value } => {
                    if *k == key {
                        return Some(clone_bytes(value));
                    }
                },
                _ => {},
            }
        }
        proof {
            assert(self@.take(0) =~= Seq::<EventV>::empty());
        }
        None
    }

    /// Persist a block individually, keyed by its hash, because its epoch is
    /// not yet proven stable.
    pub fn write_loose(&mut self, block: &Block)
        ensures
            final(self)@ == old(self)@.push(EventV::LooseWritten { block: block@ }),
    {
        self.events.push(StoreEvent::LooseWritten { block: clone_block(block) });
        proof {
            assert(self@ =~= old(self)@.push(EventV::LooseWritten { block: block@ }));
        }
    }

    /// Render a finalized epoch archive and its index to their permanent,
    /// hash-derived locations.
    pub fn write_pack(&mut self, epoch: EpochId, pack_hash: Vec<u8>, blocks: Vec<Block>)
        ensures
            final(self)@ == old(self)@.push(EventV::PackWritten {
                epoch,
                pack_hash: pack_hash@,
                blocks: blocks@.map_values(|b: Block| b@),
            }),
    {
        let ghost ph: Seq<u8> = pack_hash@;
        let ghost bs: Seq<BlockV> = blocks@.map_values(|b: Block| b@);
        self.events.push(StoreEvent::PackWritten { epoch, pack_hash, blocks });
        proof {
            assert(self@ =~= old(self)@.push(EventV::PackWritten {
                epoch,
                pack_hash: ph,
                blocks: bs,
            }));
        }
    }

    /// Associate an epoch with its finalized pack hash in the storage
    /// configuration.
    pub fn register_epoch(&mut self, epoch: EpochId, pack_hash: Vec<u8>)
        ensures
            final(self)@ == old(self)@.push(EventV::EpochRegistered {
                epoch,
                pack_hash: pack_hash@,
            }),
    {
        let ghost ph: Seq<u8> = pack_hash@;
        self.events.push(StoreEvent::EpochRegistered { epoch, pack_hash });
        proof {
            assert(self@ =~= old(self)@.push(EventV::EpochRegistered { epoch, pack_hash: ph }));
        }
    }

    /// Rebuild the reference index over a finalized epoch's pack.
    pub fn rebuild_refpack(&mut self, epoch: EpochId)
        ensures
            final(self)@ == old(self)@.push(EventV::RefpackRebuilt { epoch }),
    {
        self.events.push(StoreEvent::RefpackRebuilt { epoch });
        proof {
            assert(self@ =~= old(self)@.push(EventV::RefpackRebuilt { epoch }));
        }
    }

    /// Look a stored block up by its hash and hand back its decoded chain
    /// position, searching loose blocks and pack contents alike.
    pub fn find_block_date(&self, hash: &Vec<u8>) -> (r: Option<BlockDate>)
        ensures
            r == block_date_in(self@, hash@),
    {
        let mut i: usize = self.events.len();
        proof {
            assert(self@.take(i as int) =~= self@);
        }
        while i > 0
            invariant
                i <= self.events.len(),
                block_date_in(self@, hash@) == block_date_in(self@.take(i as int), hash@),
            decreases i,
        {
            i = i - 1;
            proof {
                assert(self@.take(i + 1 as int).last() == self@[i as int]);
                assert(self@.take(i + 1 as int).drop_last() =~= self@.take(i as int));
            }
            match &self.events[i] {
                StoreEvent::LooseWritten { block } => {
                    if bytes_eq(&block.hash, hash) {
                        return Some(block.date);
                    }
                },
                StoreEvent::PackWritten { blocks, .. } => {
                    match Self::find_in_blocks(blocks, hash) {
                        Some(d) => {
                            return Some(d);
                        },
                        None => {},
                    }
                },
                _ => {},
            }
        }
        proof {
            assert(self@.take(0) =~= Seq::<EventV>::empty());
        }
        None
    }

    fn find_in_blocks(blocks: &Vec<Block>, hash: &Vec<u8>) -> (r: Option<BlockDate>)
        ensures
            r == date_in_blocks(blocks@.map_values(|b: Block| b@), hash@),
    {
        let ghost bs: Seq<BlockV> = blocks@.map_values(|b: Block| b@);
        let mut i: usize = blocks.len();
        proof {
            assert(bs.take(i as int) =~= bs);
        }
        while i > 0
            invariant
                i <= blocks.len(),
                bs == blocks@.map_values(|b: Block| b@),
                date_in_blocks(bs, hash@) == date_in_blocks(bs.take(i as int), hash@),
            decreases i,
        {
            i = i - 1;
            proof {
                assert(bs.take(i + 1 as int).last() == bs[i as int]);
                assert(bs.take(i + 1 as int).drop_last() =~= bs.take(i as int));
            }
            if bytes_eq(&blocks[i].hash, hash) {
                return Some(blocks[i].date);
            }
        }
        proof {
            assert(bs.take(0) =~= Seq::<BlockV>::empty());
        }
        None
    }
}

} // verus!
