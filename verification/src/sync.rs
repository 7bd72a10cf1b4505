//! The sync core: tip resolution, stability classification, and the epoch
//! packer that consumes the chain-ordered block stream.
//!
//! The network collaborator owns fetching: a session is handed the remote
//! tip and the delivered stream as values. The storage collaborator is the
//! write journal of [`crate::store::Store`]. Everything the session writes,
//! and in which order, is pinned down by [`sync_spec`].

use vstd::prelude::*;

use crate::chain::{Block, BlockDate, BlockRef, BlockV, EpochId, clone_block, clone_bytes,
    lemma_date_lt_trans, stream_view};
use crate::config::{NetConfig, TransportKind};
use crate::digest::{pack_hash, pack_hash_of};
use crate::errors::SyncError;
use crate::peers::{get_http_peer, get_native_peer, has_peer_of};
use crate::store::{EventV, Store, TagKey, block_date_in, tag_of};

verus! {

// ------------------------------------------------------------------
// Stability Classifier
// ------------------------------------------------------------------

/// How many epochs before the tip's own epoch are still unstable. The tip's
/// epoch never has k confirmations from within itself once the tip sits
/// within k slots of the epoch's start (or on its genesis marker), so the
/// previous epoch is then conservatively unstable too.
pub open spec fn stability_offset(d: BlockDate, k: u32) -> int {
    match d {
        BlockDate::Genesis(_) => 1,
        BlockDate::Normal { slot, .. } => if slot <= k { 1 } else { 0 },
    }
}

/// The boundary epoch: everything at or past it may still be rolled back;
/// everything before it is final. Computed once per session from the tip
/// observed at its start.
pub open spec fn first_unstable_of(d: BlockDate, k: u32) -> int {
    d.epoch() - stability_offset(d, k)
}

/// Compute the first unstable epoch from the network tip's position and the
/// stability depth. The chain's starting epoch precedes the tip's, so the
/// boundary never underflows on inputs a real chain produces; that bound is
/// the one assumption asked of the caller.
pub fn first_unstable_epoch(tip_date: &BlockDate, k: u32) -> (e: EpochId)
    requires
        stability_offset(*tip_date, k) <= tip_date.epoch(),
    ensures
        e as int == first_unstable_of(*tip_date, k),
{
    let offset: u64 = match tip_date {
        BlockDate::Genesis(_) => 1,
        BlockDate::Normal { slot, .. } => if *slot <= k {
            1
        } else {
            0
        },
    };
    tip_date.get_epochid() - offset
}

// ------------------------------------------------------------------
// Tip Resolver, local half
// ------------------------------------------------------------------

/// Where a session starts fetching, and how it got there.
pub struct LocalStart {
    /// The bound handed to the network collaborator.
    pub start: BlockRef,
    /// Whether fetching includes `start` itself (fresh or fallback start)
    /// or begins strictly after it (resuming a checkpoint).
    pub from_inclusive: bool,
    /// The recoverable warning: a `HEAD` tag named a block absent from
    /// storage, and the session restarted from the protocol genesis.
    pub stale_head: bool,
}

/// What resolving the local start promises, given the store's journal and
/// the configuration.
pub open spec fn start_ok(r: LocalStart, log: Seq<EventV>, cfg: NetConfig) -> bool {
    match tag_of(log, TagKey::Head) {
        None => {
            &&& r.start.hash@ == cfg.genesis@
            &&& r.start.date == BlockDate::Genesis(cfg.epoch_start)
            &&& r.from_inclusive
            &&& !r.stale_head
        },
        Some(h) => match block_date_in(log, h) {
            None => {
                &&& r.start.hash@ == cfg.genesis@
                &&& r.start.date == BlockDate::Genesis(cfg.epoch_start)
                &&& r.from_inclusive
                &&& r.stale_head
            },
            Some(d) => {
                &&& r.start.hash@ == h
                &&& r.start.date == d
                &&& !r.from_inclusive
                &&& !r.stale_head
            },
        },
    }
}

/// Determine the local sync starting point from the `HEAD` tag: the
/// protocol genesis when no checkpoint exists, the checkpointed block when
/// it is present in storage, and the genesis fallback (with the stale-head
/// warning) when it is not.
pub fn resolve_local_start(storage: &Store, cfg: &NetConfig) -> (r: LocalStart)
    ensures
        start_ok(r, storage@, *cfg),
{
    match storage.read_tag(TagKey::Head) {
        None => LocalStart {
            start: BlockRef {
                hash: clone_bytes(&cfg.genesis),
                date: BlockDate::Genesis(cfg.epoch_start),
            },
            from_inclusive: true,
            stale_head: false,
        },
        Some(head_hash) => match storage.find_block_date(&head_hash) {
            None => LocalStart {
                start: BlockRef {
                    hash: clone_bytes(&cfg.genesis),
                    date: BlockDate::Genesis(cfg.epoch_start),
                },
                from_inclusive: true,
                stale_head: true,
            },
            Some(date) => LocalStart {
                start: BlockRef { hash: head_hash, date },
                from_inclusive: false,
                stale_head: false,
            },
        },
    }
}

// ------------------------------------------------------------------
// Epoch Packer: the stream-consumption state machine
// ------------------------------------------------------------------

/// The in-progress, in-memory archive of exactly one epoch. At most one
/// exists at a time; it is destroyed by finalization or abandoned at
/// stream end.
pub struct EpochAcc {
    pub epoch: EpochId,
    pub blocks: Vec<Block>,
}

/// Mathematical image of an [`EpochAcc`].
pub struct AccV {
    pub epoch: EpochId,
    pub blocks: Seq<BlockV>,
}

impl View for EpochAcc {
    type V = AccV;

    open spec fn view(&self) -> AccV {
        AccV { epoch: self.epoch, blocks: self.blocks@.map_values(|b: Block| b@) }
    }
}

/// The packer's two locals threaded through the consumption loop: the open
/// accumulator, if any, and the hash of the last block seen.
pub struct PackerState {
    pub cur: Option<EpochAcc>,
    pub last: Option<Vec<u8>>,
}

/// Mathematical image of a [`PackerState`].
pub struct PackerV {
    pub cur: Option<AccV>,
    pub last: Option<Seq<u8>>,
}

impl View for PackerState {
    type V = PackerV;

    open spec fn view(&self) -> PackerV {
        PackerV {
            cur: match &self.cur {
                Some(acc) => Some(acc@),
                None => None,
            },
            last: match &self.last {
                Some(h) => Some(h@),
                None => None,
            },
        }
    }
}

/// A session's packer starts idle, with nothing seen.
pub open spec fn init_state() -> PackerV {
    PackerV { cur: None, last: None }
}

/// The writes that finalizing an accumulator performs, in order: render the
/// pack and its index, publish the `EPOCH_<n>` tag, register the epoch,
/// rebuild its reference index, and checkpoint `HEAD` at the last block
/// processed so far — the last block of the epoch just flushed.
pub open spec fn flush_events(acc: AccV, last: Seq<u8>) -> Seq<EventV> {
    let ph = pack_hash_of(acc.blocks);
    seq![
        EventV::PackWritten { epoch: acc.epoch, pack_hash: ph, blocks: acc.blocks },
        EventV::TagWritten { key: TagKey::Epoch(acc.epoch), value: ph },
        EventV::EpochRegistered { epoch: acc.epoch, pack_hash: ph },
        EventV::RefpackRebuilt { epoch: acc.epoch },
        EventV::TagWritten { key: TagKey::Head, value: last },
    ]
}

/// One block's worth of the state machine: flush at an epoch boundary,
/// then route the block by stability, then record it as last seen.
pub open spec fn step_spec(st: PackerV, log: Seq<EventV>, b: BlockV, fue: int) -> (
    PackerV,
    Seq<EventV>,
) {
    let flushed = b.date is Genesis && st.cur is Some;
    let log1 = if flushed {
        log + flush_events(st.cur.unwrap(), st.last.unwrap())
    } else {
        log
    };
    let cur1: Option<AccV> = if flushed {
        None
    } else {
        st.cur
    };
    if b.date.epoch() as int >= fue {
        (PackerV { cur: cur1, last: Some(b.hash) }, log1.push(EventV::LooseWritten { block: b }))
    } else if b.date is Genesis {
        (
            PackerV { cur: Some(AccV { epoch: b.date.epoch(), blocks: seq![b] }), last: Some(b.hash) },
            log1,
        )
    } else {
        (
            PackerV {
                cur: Some(
                    AccV { epoch: cur1.unwrap().epoch, blocks: cur1.unwrap().blocks.push(b) },
                ),
                last: Some(b.hash),
            },
            log1,
        )
    }
}

/// The state machine folded over a delivered stream.
pub open spec fn run_spec(st: PackerV, log: Seq<EventV>, stream: Seq<BlockV>, fue: int) -> (
    PackerV,
    Seq<EventV>,
)
    decreases stream.len(),
{
    if stream.len() == 0 {
        (st, log)
    } else {
        let prev = run_spec(st, log, stream.drop_last(), fue);
        step_spec(prev.0, prev.1, stream.last(), fue)
    }
}

/// Everything one session writes: the fold over the stream, then the final
/// `HEAD` checkpoint — written only when at least one block was delivered.
/// No final flush occurs: a still-open accumulator is abandoned, its epoch
/// re-fetched and re-packed by the next session.
pub open spec fn sync_spec(log: Seq<EventV>, stream: Seq<BlockV>, fue: int) -> Seq<EventV> {
    let r = run_spec(init_state(), log, stream, fue);
    match r.0.last {
        Some(h) => r.1.push(EventV::TagWritten { key: TagKey::Head, value: h }),
        None => r.1,
    }
}

// ------------------------------------------------------------------
// The network collaborator's delivery contract
// ------------------------------------------------------------------

/// Neighbouring deliveries are in strictly increasing chain order.
pub open spec fn chain_ordered(stream: Seq<BlockV>) -> bool {
    forall|i: int| #![trigger stream[i]] 0 <= i && i + 1 < stream.len() ==> stream[i].date.lt(
        stream[i + 1].date,
    )
}

/// A stable epoch's genesis block is delivered before any of that epoch's
/// other blocks. On a chain-ordered delivery from a checkpoint this holds
/// by construction; it is what guarantees the accumulator is open whenever
/// a stable non-genesis block arrives.
pub open spec fn genesis_preceded(stream: Seq<BlockV>, fue: int) -> bool {
    forall|i: int| #![trigger stream[i]]
        0 <= i < stream.len() && (stream[i].date.epoch() as int) < fue && !(stream[i].date
            is Genesis) ==> exists|j: int|
            0 <= j < i && #[trigger] stream[j].date == BlockDate::Genesis(stream[i].date.epoch())
}

/// The delivery contract a session relies on.
pub open spec fn stream_wf(stream: Seq<BlockV>, fue: int) -> bool {
    chain_ordered(stream) && genesis_preceded(stream, fue)
}

/// What the network collaborator delivered for one session: its tip and
/// the chain-ordered blocks between the resolved bounds.
pub struct RemoteChain {
    pub tip: BlockRef,
    pub blocks: Vec<Block>,
}

// ------------------------------------------------------------------
// Facts about the machine's states along a well-formed stream
// ------------------------------------------------------------------

/// Chain order extends from neighbours to any two stream positions.
pub proof fn lemma_chain_ordered_pair(stream: Seq<BlockV>, i: int, j: int)
    requires
        chain_ordered(stream),
        0 <= i < j < stream.len(),
    ensures
        stream[i].date.lt(stream[j].date),
    decreases j - i,
{
    if j > i + 1 {
        lemma_chain_ordered_pair(stream, i, j - 1);
        lemma_date_lt_trans(stream[i].date, stream[j - 1].date, stream[j].date);
    }
}

/// The position of the last genesis marker among the first `i` deliveries.
pub open spec fn last_genesis(stream: Seq<BlockV>, i: int) -> Option<int>
    decreases i,
{
    if i <= 0 {
        None
    } else if stream[i - 1].date is Genesis {
        Some(i - 1)
    } else {
        last_genesis(stream, i - 1)
    }
}

pub proof fn lemma_last_genesis_bounds(stream: Seq<BlockV>, i: int)
    requires
        0 <= i,
    ensures
        match last_genesis(stream, i) {
            None => forall|l: int| 0 <= l < i ==> !(#[trigger] stream[l].date is Genesis),
            Some(g) => {
                &&& 0 <= g < i
                &&& stream[g].date is Genesis
                &&& forall|l: int| g < l < i ==> !(#[trigger] stream[l].date is Genesis)
            },
        },
    decreases i,
{
    if i > 0 {
        lemma_last_genesis_bounds(stream, i - 1);
    }
}

/// The blocks of one epoch among a delivered prefix, in delivery order.
pub open spec fn epoch_blocks(s: Seq<BlockV>, e: EpochId) -> Seq<BlockV>
    decreases s.len(),
{
    if s.len() == 0 {
        Seq::empty()
    } else {
        let r = epoch_blocks(s.drop_last(), e);
        if s.last().date.epoch() == e {
            r.push(s.last())
        } else {
            r
        }
    }
}

pub proof fn lemma_epoch_blocks_empty(s: Seq<BlockV>, e: EpochId)
    requires
        forall|l: int| 0 <= l < s.len() ==> (#[trigger] s[l].date).epoch() != e,
    ensures
        epoch_blocks(s, e) == Seq::<BlockV>::empty(),
    decreases s.len(),
{
    if s.len() > 0 {
        assert(s.drop_last() =~= s.take(s.len() - 1));
        lemma_epoch_blocks_empty(s.drop_last(), e);
    }
}

/// What the packer's state looks like after the first `i` deliveries: the
/// last seen hash is the `i`-th block's, and the open accumulator is
/// dictated by the last genesis marker seen — open, on that marker's
/// epoch, holding exactly that epoch's blocks, when the marker's epoch is
/// stable; closed otherwise.
pub open spec fn state_ok(stream: Seq<BlockV>, fue: int, i: int, st: PackerV) -> bool {
    &&& (st.last is Some <==> i > 0)
    &&& (i > 0 ==> st.last == Some(stream[i - 1].hash))
    &&& (match last_genesis(stream, i) {
        None => st.cur is None,
        Some(g) => if (stream[g].date.epoch() as int) < fue {
            st.cur == Some(
                AccV {
                    epoch: stream[g].date.epoch(),
                    blocks: epoch_blocks(stream.take(i), stream[g].date.epoch()),
                },
            )
        } else {
            st.cur is None
        },
    })
}

/// On a well-formed stream the machine never needs what it does not have:
/// at a boundary flush a last-seen hash exists, and a stable non-genesis
/// block always finds the accumulator open on its own epoch.
pub proof fn lemma_step_safe(stream: Seq<BlockV>, fue: int, i: int, st: PackerV)
    requires
        stream_wf(stream, fue),
        0 <= i < stream.len(),
        state_ok(stream, fue, i, st),
    ensures
        st.cur is Some ==> st.last is Some,
        (stream[i].date.epoch() as int) < fue && !(stream[i].date is Genesis) ==> st.cur is Some
            && st.cur.unwrap().epoch == stream[i].date.epoch(),
{
    lemma_last_genesis_bounds(stream, i);
    if st.cur is Some {
        assert(last_genesis(stream, i) is Some);
        assert(i > 0);
    }
    if (stream[i].date.epoch() as int) < fue && !(stream[i].date is Genesis) {
        let e = stream[i].date.epoch();
        // The stream delivered Genesis(e) somewhere before i.
        assert(exists|j: int|
            0 <= j < i && #[trigger] stream[j].date == BlockDate::Genesis(e));
        let j = choose|j: int| 0 <= j < i && #[trigger] stream[j].date == BlockDate::Genesis(e);
        // The last genesis before i can only be that very marker: a later
        // one would sit strictly between Genesis(e) and a normal position
        // of epoch e, where only normal epoch-e positions fit.
        match last_genesis(stream, i) {
            None => {
                assert(false);
            },
            Some(g) => {
                assert(j <= g);
                if g != j {
                    lemma_chain_ordered_pair(stream, j, g);
                    lemma_chain_ordered_pair(stream, g, i);
                    assert(false);
                }
            },
        }
    }
}

/// One machine step preserves [`state_ok`].
pub proof fn lemma_state_step(stream: Seq<BlockV>, fue: int, i: int, st: PackerV, log: Seq<EventV>)
    requires
        stream_wf(stream, fue),
        0 <= i < stream.len(),
        state_ok(stream, fue, i, st),
    ensures
        state_ok(stream, fue, i + 1, step_spec(st, log, stream[i], fue).0),
{
    lemma_step_safe(stream, fue, i, st);
    lemma_last_genesis_bounds(stream, i);
    let b = stream[i];
    let st1 = step_spec(st, log, b, fue).0;
    assert(stream.take(i + 1).drop_last() =~= stream.take(i));
    assert(stream.take(i + 1).last() == b);
    if b.date is Genesis {
        assert(last_genesis(stream, i + 1) == Some(i));
        let e = b.date.epoch();
        if (e as int) < fue {
            // Every earlier delivery precedes Genesis(e) in chain order,
            // so none of them belongs to epoch e.
            assert forall|l: int| 0 <= l < i implies (#[trigger] stream[l].date).epoch()
                != e by {
                lemma_chain_ordered_pair(stream, l, i);
            }
            assert(forall|l: int|
                0 <= l < i ==> (#[trigger] stream.take(i)[l].date).epoch() != e);
            lemma_epoch_blocks_empty(stream.take(i), e);
            assert(epoch_blocks(stream.take(i + 1), e) =~= seq![b]);
        }
    } else {
        assert(last_genesis(stream, i + 1) == last_genesis(stream, i));
        match last_genesis(stream, i) {
            None => {},
            Some(g) => {
                let e = stream[g].date.epoch();
                if (e as int) < fue {
                    if b.date.epoch() == e {
                        // The stable epoch's own next block: appended.
                        assert((b.date.epoch() as int) < fue);
                        assert(st.cur is Some && st.cur.unwrap().epoch == e);
                        assert(epoch_blocks(stream.take(i + 1), e) == epoch_blocks(
                            stream.take(i),
                            e,
                        ).push(b));
                    } else {
                        // A block of another epoch leaves the accumulator
                        // untouched; it is unstable, since a stable one
                        // would have needed its own genesis after g.
                        assert(epoch_blocks(stream.take(i + 1), e) == epoch_blocks(
                            stream.take(i),
                            e,
                        ));
                        if (b.date.epoch() as int) < fue {
                            assert(st.cur is Some && st.cur.unwrap().epoch == b.date.epoch());
                            assert(false);
                        }
                    }
                } else {
                    if (b.date.epoch() as int) < fue {
                        lemma_step_safe(stream, fue, i, st);
                        assert(false);
                    }
                }
            },
        }
    }
}

/// [`state_ok`] holds of every prefix of a well-formed stream.
pub proof fn lemma_run_state(stream: Seq<BlockV>, log0: Seq<EventV>, fue: int, i: int)
    requires
        stream_wf(stream, fue),
        0 <= i <= stream.len(),
    ensures
        state_ok(stream, fue, i, run_spec(init_state(), log0, stream.take(i), fue).0),
    decreases i,
{
    if i == 0 {
        assert(stream.take(0) =~= Seq::<BlockV>::empty());
    } else {
        lemma_run_state(stream, log0, fue, i - 1);
        assert(stream.take(i).drop_last() =~= stream.take(i - 1));
        assert(stream.take(i).last() == stream[i - 1]);
        let prev = run_spec(init_state(), log0, stream.take(i - 1), fue);
        lemma_state_step(stream, fue, i - 1, prev.0, prev.1);
    }
}

// ------------------------------------------------------------------
// The session
// ------------------------------------------------------------------

/// One block's worth of the packer: flush the open accumulator at an epoch
/// boundary, route the block by stability, record it as last seen. The two
/// preconditions are what [`lemma_step_safe`] grants on any well-formed
/// stream: a boundary flush has a last-seen hash to checkpoint, and a
/// stable non-genesis block finds the accumulator open.
#[verifier::rlimit(30)]
pub fn packer_step(st: &mut PackerState, storage: &mut Store, b: &Block, fue: EpochId)
    requires
        b.date is Genesis && old(st)@.cur is Some ==> old(st)@.last is Some,
        b.date.epoch() < fue && !(b.date is Genesis) ==> old(st)@.cur is Some,
    ensures
        final(st)@ == step_spec(old(st)@, old(storage)@, b@, fue as int).0,
        final(storage)@ == step_spec(old(st)@, old(storage)@, b@, fue as int).1,
{
    let ghost pre_st: PackerV = st@;
    let ghost pre_log: Seq<EventV> = storage@;

    // Boundary flush: finalize the open accumulator, publish its tags,
    // and checkpoint HEAD so an interruption resumes here.
    if b.date.is_genesis() {
        if st.cur.is_some() {
            let acc = st.cur.take().unwrap();
            let ph = pack_hash(&acc.blocks);
            let last_hash = clone_bytes(st.last.as_ref().unwrap());
            let epoch = acc.epoch;
            storage.write_pack(epoch, clone_bytes(&ph), acc.blocks);
            storage.write_tag(TagKey::Epoch(epoch), clone_bytes(&ph));
            storage.register_epoch(epoch, ph);
            storage.rebuild_refpack(epoch);
            storage.write_tag(TagKey::Head, last_hash);
            proof {
                assert(storage@ =~= pre_log + flush_events(
                    pre_st.cur.unwrap(),
                    pre_st.last.unwrap(),
                ));
            }
        }
    }

    // Stability routing: an unstable block is stored individually; a
    // stable one grows its epoch's accumulator, opened at its genesis.
    if b.date.get_epochid() >= fue {
        storage.write_loose(b);
    } else {
        if b.date.is_genesis() {
            let mut blocks: Vec<Block> = Vec::new();
            blocks.push(clone_block(b));
            proof {
                assert(blocks@.map_values(|bl: Block| bl@) =~= seq![b@]);
            }
            st.cur = Some(EpochAcc { epoch: b.date.get_epochid(), blocks });
        } else {
            let mut acc = st.cur.take().unwrap();
            acc.blocks.push(clone_block(b));
            proof {
                assert(acc@.blocks =~= pre_st.cur.unwrap().blocks.push(b@));
            }
            st.cur = Some(acc);
        }
    }

    st.last = Some(clone_bytes(&b.hash));
}

/// Run one sync session: resolve the local start, classify stability from
/// the observed tip, route every delivered block — packing stable epochs,
/// keeping unstable blocks loose, flushing and checkpointing at epoch
/// boundaries — and checkpoint `HEAD` at the last block seen. The returned
/// report is the resolved start, including the recoverable stale-head
/// warning.
#[verifier::loop_isolation(false)]
#[verifier::rlimit(30)]
pub fn net_sync(stream: &Vec<Block>, tip: &BlockRef, cfg: &NetConfig, storage: &mut Store) -> (r:
    LocalStart)
    requires
        stability_offset(tip.date, cfg.k) <= tip.date.epoch(),
        stream_wf(stream_view(stream@), first_unstable_of(tip.date, cfg.k)),
    ensures
        final(storage)@ == sync_spec(
            old(storage)@,
            stream_view(stream@),
            first_unstable_of(tip.date, cfg.k),
        ),
        start_ok(r, old(storage)@, *cfg),
{
    let ghost sv: Seq<BlockV> = stream_view(stream@);
    let ghost fue_i: int = first_unstable_of(tip.date, cfg.k);

    let report = resolve_local_start(storage, cfg);
    let fue: EpochId = first_unstable_epoch(&tip.date, cfg.k);

    let mut st = PackerState { cur: None, last: None };
    let mut i: usize = 0;
    proof {
        assert(sv.take(0) =~= Seq::<BlockV>::empty());
    }
    while i < stream.len()
        invariant
            i <= stream.len(),
            st@ == run_spec(init_state(), old(storage)@, sv.take(i as int), fue_i).0,
            storage@ == run_spec(init_state(), old(storage)@, sv.take(i as int), fue_i).1,
            state_ok(sv, fue_i, i as int, st@),
        decreases stream.len() - i,
    {
        let ghost pre_st: PackerV = st@;
        let ghost pre_log: Seq<EventV> = storage@;
        let b = &stream[i];
        proof {
            assert(sv[i as int] == b@);
            lemma_step_safe(sv, fue_i, i as int, st@);
        }
        packer_step(&mut st, storage, b, fue);
        proof {
            assert(sv.take(i + 1).drop_last() =~= sv.take(i as int));
            assert(sv.take(i + 1).last() == sv[i as int]);
            assert(st@ == step_spec(pre_st, pre_log, sv[i as int], fue_i).0);
            assert(storage@ == step_spec(pre_st, pre_log, sv[i as int], fue_i).1);
            lemma_state_step(sv, fue_i, i as int, pre_st, pre_log);
        }
        i = i + 1;
    }
    proof {
        assert(sv.take(stream.len() as int) =~= sv);
    }

    // Update the HEAD tag to point at the most recent block. A still-open
    // accumulator is deliberately not flushed: its epoch is re-derived by
    // the next session.
    match st.last {
        Some(h) => {
            storage.write_tag(TagKey::Head, h);
        },
        None => {},
    }
    report
}

/// Sync over HTTP: the decisions of the HTTP entry point, taken on what
/// the collaborators produced. A missing configuration is fatal, as is a
/// configuration without an HTTP peer; an unreachable peer — no tip, no
/// stream — is fatal too. With all three in hand the session runs.
pub fn net_sync_http(
    network: String,
    cfg: &Option<NetConfig>,
    fetched: &Option<RemoteChain>,
    storage: &mut Store,
) -> (r: Result<LocalStart, SyncError>)
    requires
        cfg matches Some(c) && fetched matches Some(f) ==> stability_offset(f.tip.date, c.k)
            <= f.tip.date.epoch() && stream_wf(
            stream_view(f.blocks@),
            first_unstable_of(f.tip.date, c.k),
        ),
    ensures
        match r {
            Err(SyncError::ConfigMissing) => cfg is None && final(storage)@ == old(storage)@,
            Err(SyncError::NoSuitablePeer) => cfg matches Some(c) && !has_peer_of(
                c.peers@,
                TransportKind::Http,
            ) && final(storage)@ == old(storage)@,
            Err(SyncError::NetworkUnavailable) => cfg matches Some(c) && has_peer_of(
                c.peers@,
                TransportKind::Http,
            ) && fetched is None && final(storage)@ == old(storage)@,
            Ok(rep) => {
                &&& cfg matches Some(c)
                &&& has_peer_of(c.peers@, TransportKind::Http)
                &&& fetched matches Some(f)
                &&& final(storage)@ == sync_spec(
                    old(storage)@,
                    stream_view(f.blocks@),
                    first_unstable_of(f.tip.date, c.k),
                )
                &&& start_ok(rep, old(storage)@, *c)
            },
        },
{
    match cfg {
        None => Err(SyncError::ConfigMissing),
        Some(c) => match get_http_peer(network, c) {
            Err(e) => Err(SyncError::NoSuitablePeer),
            Ok(_peer) => match fetched {
                None => Err(SyncError::NetworkUnavailable),
                Some(f) => Ok(net_sync(&f.blocks, &f.tip, c, storage)),
            },
        },
    }
}

/// Sync over the native transport: the same decisions as
/// [`net_sync_http`], selecting a native peer instead.
pub fn net_sync_native(
    network: String,
    cfg: &Option<NetConfig>,
    fetched: &Option<RemoteChain>,
    storage: &mut Store,
) -> (r: Result<LocalStart, SyncError>)
    requires
        cfg matches Some(c) && fetched matches Some(f) ==> stability_offset(f.tip.date, c.k)
            <= f.tip.date.epoch() && stream_wf(
            stream_view(f.blocks@),
            first_unstable_of(f.tip.date, c.k),
        ),
    ensures
        match r {
            Err(SyncError::ConfigMissing) => cfg is None && final(storage)@ == old(storage)@,
            Err(SyncError::NoSuitablePeer) => cfg matches Some(c) && !has_peer_of(
                c.peers@,
                TransportKind::Native,
            ) && final(storage)@ == old(storage)@,
            Err(SyncError::NetworkUnavailable) => cfg matches Some(c) && has_peer_of(
                c.peers@,
                TransportKind::Native,
            ) && fetched is None && final(storage)@ == old(storage)@,
            Ok(rep) => {
                &&& cfg matches Some(c)
                &&& has_peer_of(c.peers@, TransportKind::Native)
                &&& fetched matches Some(f)
                &&& final(storage)@ == sync_spec(
                    old(storage)@,
                    stream_view(f.blocks@),
                    first_unstable_of(f.tip.date, c.k),
                )
                &&& start_ok(rep, old(storage)@, *c)
            },
        },
{
    match cfg {
        None => Err(SyncError::ConfigMissing),
        Some(c) => match get_native_peer(network, c) {
            Err(e) => Err(SyncError::NoSuitablePeer),
            Ok(_peer) => match fetched {
                None => Err(SyncError::NetworkUnavailable),
                Some(f) => Ok(net_sync(&f.blocks, &f.tip, c, storage)),
            },
        },
    }
}

} // verus!
