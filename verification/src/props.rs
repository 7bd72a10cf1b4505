//! Session-level laws of the sync core, stated over [`crate::sync::sync_spec`].

use vstd::prelude::*;

use crate::chain::{BlockV, EpochId};
use crate::digest::pack_hash_of;
use crate::store::{EventV, TagKey};
use crate::sync::{PackerV, epoch_blocks, flush_events, init_state, last_genesis,
    lemma_chain_ordered_pair, lemma_last_genesis_bounds, lemma_run_state, lemma_step_safe,
    run_spec, state_ok, step_spec, stream_wf, sync_spec};

verus! {

/// Idempotent resume: a session that is delivered no blocks — as when the
/// previous session ran to completion and the remote chain has not moved —
/// performs no write at all, so every tag, pack and loose block, `HEAD`
/// included, is exactly as it was.
pub proof fn lemma_sync_empty_stream(log: Seq<EventV>, fue: int)
    ensures
        sync_spec(log, Seq::<BlockV>::empty(), fue) == log,
{
}

/// What a session appends does not depend on what the journal already
/// held: the machine only ever appends.
pub proof fn lemma_run_split(
    st: crate::sync::PackerV,
    log0: Seq<EventV>,
    stream: Seq<BlockV>,
    fue: int,
)
    ensures
        run_spec(st, log0, stream, fue).0 == run_spec(st, Seq::<EventV>::empty(), stream, fue).0,
        run_spec(st, log0, stream, fue).1 == log0 + run_spec(
            st,
            Seq::<EventV>::empty(),
            stream,
            fue,
        ).1,
    decreases stream.len(),
{
    if stream.len() == 0 {
        assert(log0 + Seq::<EventV>::empty() =~= log0);
    } else {
        lemma_run_split(st, log0, stream.drop_last(), fue);
        let b = stream.last();
        let p0 = run_spec(st, Seq::<EventV>::empty(), stream.drop_last(), fue);
        let f = flush_events(p0.0.cur.unwrap(), p0.0.last.unwrap());
        assert((log0 + p0.1) + f =~= log0 + (p0.1 + f));
        assert(((log0 + p0.1) + f).push(EventV::LooseWritten { block: b }) =~= log0 + ((p0.1
            + f).push(EventV::LooseWritten { block: b })));
        assert((log0 + p0.1).push(EventV::LooseWritten { block: b }) =~= log0 + (p0.1.push(
            EventV::LooseWritten { block: b },
        )));
    }
}

/// The blocks of one epoch filtered from a prefix: exactly the prefix's
/// members of that epoch, in order.
pub proof fn lemma_epoch_blocks_elems(s: Seq<BlockV>, e: EpochId)
    ensures
        forall|t: BlockV| #[trigger]
            epoch_blocks(s, e).contains(t) ==> t.date.epoch() == e && s.contains(t),
        forall|l: int|
            0 <= l < s.len() && (#[trigger] s[l].date).epoch() == e ==> epoch_blocks(
                s,
                e,
            ).contains(s[l]),
    decreases s.len(),
{
    if s.len() > 0 {
        lemma_epoch_blocks_elems(s.drop_last(), e);
        let r = epoch_blocks(s.drop_last(), e);
        assert forall|t: BlockV| #[trigger]
            epoch_blocks(s, e).contains(t) implies t.date.epoch() == e && s.contains(t) by {
            if s.last().date.epoch() == e {
                let k = choose|k: int|
                    0 <= k < r.push(s.last()).len() && r.push(s.last())[k] == t;
                if k < r.len() {
                    assert(r.contains(t));
                    let m = choose|m: int|
                        0 <= m < s.drop_last().len() && s.drop_last()[m] == t;
                    assert(s[m] == t);
                } else {
                    assert(t == s.last());
                    assert(s[s.len() - 1] == t);
                }
            } else {
                assert(r.contains(t));
                let m = choose|m: int| 0 <= m < s.drop_last().len() && s.drop_last()[m] == t;
                assert(s[m] == t);
            }
        }
        assert forall|l: int|
            0 <= l < s.len() && (#[trigger] s[l].date).epoch() == e implies epoch_blocks(
            s,
            e,
        ).contains(s[l]) by {
            if l == s.len() - 1 {
                assert(epoch_blocks(s, e)[epoch_blocks(s, e).len() - 1] == s[l]);
            } else {
                assert(s.drop_last()[l] == s[l]);
                assert(r.contains(s[l]));
                let k = choose|k: int| 0 <= k < r.len() && r[k] == s[l];
                assert(epoch_blocks(s, e)[k] == s[l]);
            }
        }
    }
}

/// Extending a prefix by a block of another epoch leaves an epoch's
/// filtered blocks unchanged.
pub proof fn lemma_epoch_blocks_skip(stream: Seq<BlockV>, e: EpochId, i: int)
    requires
        0 <= i < stream.len(),
        stream[i].date.epoch() != e,
    ensures
        epoch_blocks(stream.take(i + 1), e) == epoch_blocks(stream.take(i), e),
{
    assert(stream.take(i + 1).drop_last() =~= stream.take(i));
}

/// Extending a prefix by a block of the epoch appends it to the epoch's
/// filtered blocks.
pub proof fn lemma_epoch_blocks_take(stream: Seq<BlockV>, e: EpochId, i: int)
    requires
        0 <= i < stream.len(),
        stream[i].date.epoch() == e,
    ensures
        epoch_blocks(stream.take(i + 1), e) == epoch_blocks(stream.take(i), e).push(stream[i]),
{
    assert(stream.take(i + 1).drop_last() =~= stream.take(i));
}

/// Is one of the journal entries a finalized pack for this epoch?
pub open spec fn has_pack_for(d: Seq<EventV>, e: EpochId) -> bool {
    exists|p: int|
        0 <= p < d.len() && (#[trigger] d[p]) is PackWritten && d[p]->PackWritten_epoch == e
}

/// Each stable block is either already inside a finalized pack of its
/// epoch or still sitting in the open accumulator of its epoch.
pub open spec fn packed_or_open(st: PackerV, d: Seq<EventV>, e: EpochId) -> bool {
    has_pack_for(d, e) || (st.cur matches Some(acc) && acc.epoch == e)
}

/// Every loose write among a session's appended events is one of the
/// unstable deliveries.
pub open spec fn loose_are_unstable(stream: Seq<BlockV>, fue: int, i: int, d: Seq<EventV>) -> bool {
    forall|p: int|
        0 <= p < d.len() ==> ((#[trigger] d[p]) matches EventV::LooseWritten { block } ==> {
            &&& block.date.epoch() as int >= fue
            &&& exists|idx: int| 0 <= idx < i && (#[trigger] stream[idx]) == block
        })
}

/// Every unstable delivery was written loose.
pub open spec fn unstable_are_loose(stream: Seq<BlockV>, fue: int, i: int, d: Seq<EventV>) -> bool {
    forall|idx: int|
        0 <= idx < i && (#[trigger] stream[idx].date).epoch() as int >= fue ==> exists|p: int|
            0 <= p < d.len() && (#[trigger] d[p]) == (EventV::LooseWritten {
                block: stream[idx],
            })
}

/// Every finalized pack belongs to a stable epoch, holds exactly that
/// epoch's deliveries, is named by their content hash, and was flushed by
/// a later epoch's genesis marker.
pub open spec fn packs_exact(stream: Seq<BlockV>, fue: int, i: int, d: Seq<EventV>) -> bool {
    forall|p: int|
        0 <= p < d.len() ==> ((#[trigger] d[p]) matches EventV::PackWritten {
            epoch,
            pack_hash,
            blocks,
        } ==> {
            &&& (epoch as int) < fue
            &&& blocks == epoch_blocks(stream.take(i), epoch)
            &&& pack_hash == pack_hash_of(blocks)
            &&& exists|g2: int|
                0 <= g2 < i && (#[trigger] stream[g2].date) is Genesis
                    && stream[g2].date.epoch() > epoch
        })
}

/// Every stable delivery is packed or still accumulating.
pub open spec fn stable_covered(
    stream: Seq<BlockV>,
    fue: int,
    i: int,
    st: PackerV,
    d: Seq<EventV>,
) -> bool {
    forall|idx: int|
        0 <= idx < i && ((#[trigger] stream[idx].date).epoch() as int) < fue ==> packed_or_open(
            st,
            d,
            stream[idx].date.epoch(),
        )
}

/// Every `EPOCH_<n>` tag write is followed, three events later in the same
/// flush, by the `HEAD` checkpoint that completes it.
pub open spec fn epoch_tag_completed(d: Seq<EventV>) -> bool {
    forall|p: int|
        0 <= p < d.len() ==> ((#[trigger] d[p]) matches EventV::TagWritten {
            key: TagKey::Epoch(..),
            ..
        } ==> p + 3 < d.len() && d[p + 3] matches EventV::TagWritten { key: TagKey::Head, .. })
}

/// What a session's appended events look like after the first `i`
/// deliveries of a well-formed stream.
pub open spec fn log_ok(
    stream: Seq<BlockV>,
    fue: int,
    i: int,
    st: PackerV,
    d: Seq<EventV>,
) -> bool {
    &&& loose_are_unstable(stream, fue, i, d)
    &&& unstable_are_loose(stream, fue, i, d)
    &&& packs_exact(stream, fue, i, d)
    &&& stable_covered(stream, fue, i, st, d)
    &&& epoch_tag_completed(d)
}

/// In a flush, the pack record comes first and the `HEAD` checkpoint last.
proof fn lemma_flush_shape(acc: crate::sync::AccV, last: Seq<u8>)
    ensures
        flush_events(acc, last).len() == 5,
        flush_events(acc, last)[0] == (EventV::PackWritten {
            epoch: acc.epoch,
            pack_hash: pack_hash_of(acc.blocks),
            blocks: acc.blocks,
        }),
        flush_events(acc, last)[1] == (EventV::TagWritten {
            key: TagKey::Epoch(acc.epoch),
            value: pack_hash_of(acc.blocks),
        }),
        flush_events(acc, last)[2] == (EventV::EpochRegistered {
            epoch: acc.epoch,
            pack_hash: pack_hash_of(acc.blocks),
        }),
        flush_events(acc, last)[3] == (EventV::RefpackRebuilt { epoch: acc.epoch }),
        flush_events(acc, last)[4] == (EventV::TagWritten { key: TagKey::Head, value: last }),
{
}

proof fn lemma_log_step_loose(stream: Seq<BlockV>, fue: int, i: int, st: PackerV, d: Seq<EventV>)
    requires
        stream_wf(stream, fue),
        0 <= i < stream.len(),
        state_ok(stream, fue, i, st),
        loose_are_unstable(stream, fue, i, d),
        unstable_are_loose(stream, fue, i, d),
    ensures
        loose_are_unstable(stream, fue, i + 1, step_spec(st, d, stream[i], fue).1),
        unstable_are_loose(stream, fue, i + 1, step_spec(st, d, stream[i], fue).1),
{
    let b = stream[i];
    let d1 = step_spec(st, d, b, fue).1;
    let flushed = b.date is Genesis && st.cur is Some;
    let f = flush_events(st.cur.unwrap(), st.last.unwrap());
    let mid: Seq<EventV> = if flushed {
        d + f
    } else {
        d
    };
    if flushed {
        lemma_flush_shape(st.cur.unwrap(), st.last.unwrap());
    }
    assert forall|p: int|
        0 <= p < d1.len() && (#[trigger] d1[p]) is LooseWritten implies {
        &&& d1[p]->LooseWritten_block.date.epoch() as int >= fue
        &&& exists|idx: int| 0 <= idx < i + 1 && (#[trigger] stream[idx]) == d1[p]->LooseWritten_block
    } by {
        let block = d1[p]->LooseWritten_block;
        if p < d.len() {
            assert(d1[p] == d[p]);
            let idx = choose|idx: int|
                0 <= idx < i && (#[trigger] stream[idx]) == d[p]->LooseWritten_block;
            assert(stream[idx] == block);
        } else if flushed && p < mid.len() {
            assert(d1[p] == f[p - d.len()]);
        } else {
            assert(d1[p] == (EventV::LooseWritten { block: b }));
            assert(stream[i] == block);
        }
    }
    assert forall|idx: int|
        0 <= idx < i + 1 && (#[trigger] stream[idx].date).epoch() as int >= fue implies exists|
        p: int,
    |
        0 <= p < d1.len() && (#[trigger] d1[p]) == (EventV::LooseWritten {
            block: stream[idx],
        }) by {
        if idx < i {
            let p = choose|p: int|
                0 <= p < d.len() && (#[trigger] d[p]) == (EventV::LooseWritten {
                    block: stream[idx],
                });
            assert(d1[p] == (EventV::LooseWritten { block: stream[idx] }));
        } else {
            assert(d1[mid.len() as int] == (EventV::LooseWritten { block: stream[idx] }));
        }
    }
}

#[verifier::rlimit(100)]
proof fn lemma_log_step_packs(stream: Seq<BlockV>, fue: int, i: int, st: PackerV, d: Seq<EventV>)
    requires
        stream_wf(stream, fue),
        0 <= i < stream.len(),
        state_ok(stream, fue, i, st),
        packs_exact(stream, fue, i, d),
    ensures
        packs_exact(stream, fue, i + 1, step_spec(st, d, stream[i], fue).1),
{
    lemma_step_safe(stream, fue, i, st);
    lemma_last_genesis_bounds(stream, i);
    let b = stream[i];
    let d1 = step_spec(st, d, b, fue).1;
    let flushed = b.date is Genesis && st.cur is Some;
    let f = flush_events(st.cur.unwrap(), st.last.unwrap());
    let mid: Seq<EventV> = if flushed {
        d + f
    } else {
        d
    };
    if flushed {
        lemma_flush_shape(st.cur.unwrap(), st.last.unwrap());
        let g = last_genesis(stream, i).unwrap();
        lemma_chain_ordered_pair(stream, g, i);
        assert(b.date.epoch() > st.cur.unwrap().epoch);
    }
    assert forall|p: int|
        0 <= p < d1.len() && (#[trigger] d1[p]) is PackWritten implies {
        &&& (d1[p]->PackWritten_epoch as int) < fue
        &&& d1[p]->PackWritten_blocks == epoch_blocks(stream.take(i + 1), d1[p]->PackWritten_epoch)
        &&& d1[p]->PackWritten_pack_hash == pack_hash_of(d1[p]->PackWritten_blocks)
        &&& exists|g2: int|
            0 <= g2 < i + 1 && (#[trigger] stream[g2].date) is Genesis
                && stream[g2].date.epoch() > d1[p]->PackWritten_epoch
    } by {
        if p < d.len() {
            assert(d1[p] == d[p]);
            let e_p = d[p]->PackWritten_epoch;
            let g2 = choose|g2: int|
                0 <= g2 < i && (#[trigger] stream[g2].date) is Genesis && stream[g2].date.epoch()
                    > e_p;
            lemma_chain_ordered_pair(stream, g2, i);
            assert(b.date.epoch() >= stream[g2].date.epoch());
            lemma_epoch_blocks_skip(stream, e_p, i);
        } else if flushed && p == d.len() {
            let e_acc = st.cur.unwrap().epoch;
            assert(d1[p] == f[0]);
            assert((e_acc as int) < fue);
            lemma_epoch_blocks_skip(stream, e_acc, i);
            assert(stream[i as int].date is Genesis && stream[i as int].date.epoch() > e_acc);
        } else if flushed && p < mid.len() {
            assert(d1[p] == f[p - d.len()]);
            assert(!(d1[p] is PackWritten));
        } else {
            assert(d1[p] == (EventV::LooseWritten { block: b }));
        }
    }
}

proof fn lemma_log_step_covered(stream: Seq<BlockV>, fue: int, i: int, st: PackerV, d: Seq<EventV>)
    requires
        stream_wf(stream, fue),
        0 <= i < stream.len(),
        state_ok(stream, fue, i, st),
        stable_covered(stream, fue, i, st, d),
    ensures
        stable_covered(
            stream,
            fue,
            i + 1,
            step_spec(st, d, stream[i], fue).0,
            step_spec(st, d, stream[i], fue).1,
        ),
{
    lemma_step_safe(stream, fue, i, st);
    let b = stream[i];
    let st1 = step_spec(st, d, b, fue).0;
    let d1 = step_spec(st, d, b, fue).1;
    let flushed = b.date is Genesis && st.cur is Some;
    let f = flush_events(st.cur.unwrap(), st.last.unwrap());
    if flushed {
        lemma_flush_shape(st.cur.unwrap(), st.last.unwrap());
    }
    assert forall|idx: int|
        0 <= idx < i + 1 && ((#[trigger] stream[idx].date).epoch() as int)
            < fue implies packed_or_open(st1, d1, stream[idx].date.epoch()) by {
        let e_idx = stream[idx].date.epoch();
        if idx < i {
            if has_pack_for(d, e_idx) {
                let p = choose|p: int|
                    0 <= p < d.len() && (#[trigger] d[p]) is PackWritten
                        && d[p]->PackWritten_epoch == e_idx;
                assert(d1[p] == d[p]);
                assert(has_pack_for(d1, e_idx));
            } else {
                assert(st.cur matches Some(acc) && acc.epoch == e_idx);
                if flushed {
                    assert(d1[d.len() as int] == f[0]);
                    assert(has_pack_for(d1, e_idx));
                } else {
                    assert(st1.cur matches Some(acc) && acc.epoch == e_idx);
                }
            }
        } else {
            if b.date is Genesis {
                assert(st1.cur matches Some(acc) && acc.epoch == e_idx);
            } else {
                assert(st.cur.unwrap().epoch == e_idx);
                assert(st1.cur matches Some(acc) && acc.epoch == e_idx);
            }
        }
    }
}

proof fn lemma_log_step_tags(stream: Seq<BlockV>, fue: int, i: int, st: PackerV, d: Seq<EventV>)
    requires
        0 <= i < stream.len(),
        epoch_tag_completed(d),
    ensures
        epoch_tag_completed(step_spec(st, d, stream[i], fue).1),
{
    let b = stream[i];
    let d1 = step_spec(st, d, b, fue).1;
    let flushed = b.date is Genesis && st.cur is Some;
    let f = flush_events(st.cur.unwrap(), st.last.unwrap());
    if flushed {
        lemma_flush_shape(st.cur.unwrap(), st.last.unwrap());
    }
    assert forall|p: int|
        0 <= p < d1.len() && (#[trigger] d1[p]) matches EventV::TagWritten {
            key: TagKey::Epoch(..),
            ..
        } implies p + 3 < d1.len() && d1[p + 3] matches EventV::TagWritten {
        key: TagKey::Head,
        ..
    } by {
        if p < d.len() {
            assert(d1[p] == d[p]);
            assert(d1[p + 3] == d[p + 3]);
        } else {
            assert(flushed && p == d.len() + 1);
            assert(d1[p + 3] == f[4]);
        }
    }
}

/// One machine step preserves [`log_ok`].
pub proof fn lemma_log_step(
    stream: Seq<BlockV>,
    fue: int,
    i: int,
    st: PackerV,
    d: Seq<EventV>,
)
    requires
        stream_wf(stream, fue),
        0 <= i < stream.len(),
        state_ok(stream, fue, i, st),
        log_ok(stream, fue, i, st, d),
    ensures
        log_ok(
            stream,
            fue,
            i + 1,
            step_spec(st, d, stream[i], fue).0,
            step_spec(st, d, stream[i], fue).1,
        ),
{
    lemma_log_step_loose(stream, fue, i, st, d);
    lemma_log_step_packs(stream, fue, i, st, d);
    lemma_log_step_covered(stream, fue, i, st, d);
    lemma_log_step_tags(stream, fue, i, st, d);
}

/// [`log_ok`] holds of every prefix of a well-formed stream.
pub proof fn lemma_run_log(stream: Seq<BlockV>, fue: int, i: int)
    requires
        stream_wf(stream, fue),
        0 <= i <= stream.len(),
    ensures
        log_ok(
            stream,
            fue,
            i,
            run_spec(init_state(), Seq::<EventV>::empty(), stream.take(i), fue).0,
            run_spec(init_state(), Seq::<EventV>::empty(), stream.take(i), fue).1,
        ),
    decreases i,
{
    if i == 0 {
        assert(stream.take(0) =~= Seq::<BlockV>::empty());
    } else {
        lemma_run_log(stream, fue, i - 1);
        lemma_run_state(stream, Seq::<EventV>::empty(), fue, i - 1);
        assert(stream.take(i).drop_last() =~= stream.take(i - 1));
        assert(stream.take(i).last() == stream[i - 1]);
        let prev = run_spec(init_state(), Seq::<EventV>::empty(), stream.take(i - 1), fue);
        lemma_log_step(stream, fue, i - 1, prev.0, prev.1);
    }
}

/// The events one session appends, before the final `HEAD` checkpoint.
pub open spec fn session_events(stream: Seq<BlockV>, fue: int) -> Seq<EventV> {
    run_spec(init_state(), Seq::<EventV>::empty(), stream, fue).1
}

/// A session's result is the journal it started from, then its own
/// appended events, then — when at least one block was delivered — the
/// final `HEAD` checkpoint.
pub proof fn lemma_sync_decompose(log0: Seq<EventV>, stream: Seq<BlockV>, fue: int)
    ensures
        ({
            let st = run_spec(init_state(), Seq::<EventV>::empty(), stream, fue).0;
            let d = session_events(stream, fue);
            match st.last {
                Some(h) => sync_spec(log0, stream, fue) == log0 + d.push(
                    EventV::TagWritten { key: TagKey::Head, value: h },
                ),
                None => sync_spec(log0, stream, fue) == log0 + d,
            }
        }),
{
    lemma_run_split(init_state(), log0, stream, fue);
    let st = run_spec(init_state(), Seq::<EventV>::empty(), stream, fue).0;
    let d = session_events(stream, fue);
    match st.last {
        Some(h) => {
            assert((log0 + d).push(EventV::TagWritten { key: TagKey::Head, value: h }) =~= log0
                + d.push(EventV::TagWritten { key: TagKey::Head, value: h }));
        },
        None => {},
    }
}

/// Stability partition, unstable half: a delivered block of an epoch at or
/// past the boundary is written loose by the session and appears inside
/// none of the packs the session finalizes.
#[verifier::spinoff_prover]
pub proof fn lemma_unstable_block_stays_loose(
    log0: Seq<EventV>,
    stream: Seq<BlockV>,
    fue: int,
    idx: int,
)
    requires
        stream_wf(stream, fue),
        0 <= idx < stream.len(),
        stream[idx].date.epoch() as int >= fue,
    ensures
        ({
            let out = sync_spec(log0, stream, fue);
            &&& exists|p: int|
                log0.len() <= p < out.len() && (#[trigger] out[p]) == (EventV::LooseWritten {
                    block: stream[idx],
                })
            &&& forall|p: int|
                log0.len() <= p < out.len() && (#[trigger] out[p]) is PackWritten
                    ==> !out[p]->PackWritten_blocks.contains(stream[idx])
        }),
{
    let out = sync_spec(log0, stream, fue);
    let d = session_events(stream, fue);
    let n = stream.len() as int;
    assert(stream.take(n) =~= stream);
    lemma_run_log(stream, fue, n);
    lemma_sync_decompose(log0, stream, fue);

    let p0 = choose|p0: int|
        0 <= p0 < d.len() && (#[trigger] d[p0]) == (EventV::LooseWritten { block: stream[idx] });
    assert(out[log0.len() + p0] == d[p0]);
    assert(exists|p: int|
        log0.len() <= p < out.len() && (#[trigger] out[p]) == (EventV::LooseWritten {
            block: stream[idx],
        }));

    assert forall|p: int|
        log0.len() <= p < out.len() && (#[trigger] out[p])
            is PackWritten implies !out[p]->PackWritten_blocks.contains(stream[idx]) by {
        assert(p - log0.len() < d.len());
        assert(out[p] == d[p - log0.len()]);
        let e_p = out[p]->PackWritten_epoch;
        assert((e_p as int) < fue);
        assert(out[p]->PackWritten_blocks == epoch_blocks(stream, e_p));
        lemma_epoch_blocks_elems(stream, e_p);
        if epoch_blocks(stream, e_p).contains(stream[idx]) {
            assert(stream[idx].date.epoch() == e_p);
            assert(false);
        }
    }
}

/// Stability partition, stable half of the negative claim: a delivered
/// block of a stable epoch is never written loose.
#[verifier::spinoff_prover]
pub proof fn lemma_stable_block_never_loose(
    log0: Seq<EventV>,
    stream: Seq<BlockV>,
    fue: int,
    idx: int,
)
    requires
        stream_wf(stream, fue),
        0 <= idx < stream.len(),
        (stream[idx].date.epoch() as int) < fue,
    ensures
        forall|p: int|
            log0.len() <= p < sync_spec(log0, stream, fue).len() && (#[trigger] sync_spec(
                log0,
                stream,
                fue,
            )[p]) is LooseWritten ==> sync_spec(log0, stream, fue)[p]->LooseWritten_block
                != stream[idx],
{
    let out = sync_spec(log0, stream, fue);
    let d = session_events(stream, fue);
    let n = stream.len() as int;
    assert(stream.take(n) =~= stream);
    lemma_run_log(stream, fue, n);
    lemma_sync_decompose(log0, stream, fue);
    assert forall|p: int|
        log0.len() <= p < out.len() && (#[trigger] out[p])
            is LooseWritten implies out[p]->LooseWritten_block != stream[idx] by {
        assert(p - log0.len() < d.len());
        assert(out[p] == d[p - log0.len()]);
        assert(out[p]->LooseWritten_block.date.epoch() as int >= fue);
    }
}

/// A completed session's events and final state, characterized over the
/// whole stream.
proof fn lemma_session_shape(stream: Seq<BlockV>, fue: int)
    requires
        stream_wf(stream, fue),
    ensures
        state_ok(
            stream,
            fue,
            stream.len() as int,
            run_spec(init_state(), Seq::<EventV>::empty(), stream, fue).0,
        ),
        log_ok(
            stream,
            fue,
            stream.len() as int,
            run_spec(init_state(), Seq::<EventV>::empty(), stream, fue).0,
            session_events(stream, fue),
        ),
{
    let n = stream.len() as int;
    assert(stream.take(n) =~= stream);
    lemma_run_log(stream, fue, n);
    lemma_run_state(stream, Seq::<EventV>::empty(), fue, n);
}

/// A completed session's own events satisfy the flush ordering.
proof fn lemma_session_tags_completed(stream: Seq<BlockV>, fue: int)
    requires
        stream_wf(stream, fue),
    ensures
        epoch_tag_completed(session_events(stream, fue)),
{
    let n = stream.len() as int;
    assert(stream.take(n) =~= stream);
    lemma_run_log(stream, fue, n);
}

#[verifier::spinoff_prover]
pub proof fn lemma_flush_precedes_head(
    log0: Seq<EventV>,
    stream: Seq<BlockV>,
    fue: int,
    p: int,
) -> (q: int)
    requires
        stream_wf(stream, fue),
        log0.len() <= p < sync_spec(log0, stream, fue).len(),
        sync_spec(log0, stream, fue)[p] matches EventV::TagWritten { key: TagKey::Epoch(..), .. },
    ensures
        p < q < sync_spec(log0, stream, fue).len(),
        sync_spec(log0, stream, fue)[q] matches EventV::TagWritten { key: TagKey::Head, .. },
{
    let out = sync_spec(log0, stream, fue);
    let d = session_events(stream, fue);
    lemma_session_tags_completed(stream, fue);
    lemma_sync_decompose(log0, stream, fue);
    assert(p - log0.len() < d.len());
    assert(out[p] == d[p - log0.len()]);
    assert(d[p - log0.len() + 3] matches EventV::TagWritten { key: TagKey::Head, .. });
    assert(out[p + 3] == d[p - log0.len() + 3]);
    p + 3
}

/// Abandonment on interruption: a pack is a function of its epoch's
/// delivered blocks alone. Two sessions — whatever else they deliver,
/// whatever their journals already held, wherever their boundaries lie —
/// that are delivered the same blocks for an epoch publish identical pack
/// records for it: the same blocks in the same order under the same pack
/// hash. Re-running after an interruption therefore reconstructs the
/// abandoned epoch's pack byte for byte.
#[verifier::spinoff_prover]
pub proof fn lemma_pack_reconstruction(
    log_a: Seq<EventV>,
    stream_a: Seq<BlockV>,
    fue_a: int,
    p_a: int,
    log_b: Seq<EventV>,
    stream_b: Seq<BlockV>,
    fue_b: int,
    p_b: int,
)
    requires
        stream_wf(stream_a, fue_a),
        stream_wf(stream_b, fue_b),
        log_a.len() <= p_a < sync_spec(log_a, stream_a, fue_a).len(),
        sync_spec(log_a, stream_a, fue_a)[p_a] is PackWritten,
        log_b.len() <= p_b < sync_spec(log_b, stream_b, fue_b).len(),
        sync_spec(log_b, stream_b, fue_b)[p_b] is PackWritten,
        sync_spec(log_a, stream_a, fue_a)[p_a]->PackWritten_epoch == sync_spec(
            log_b,
            stream_b,
            fue_b,
        )[p_b]->PackWritten_epoch,
        epoch_blocks(stream_a, sync_spec(log_a, stream_a, fue_a)[p_a]->PackWritten_epoch)
            == epoch_blocks(
            stream_b,
            sync_spec(log_a, stream_a, fue_a)[p_a]->PackWritten_epoch,
        ),
    ensures
        sync_spec(log_a, stream_a, fue_a)[p_a] == sync_spec(log_b, stream_b, fue_b)[p_b],
{
    let out_a = sync_spec(log_a, stream_a, fue_a);
    let out_b = sync_spec(log_b, stream_b, fue_b);
    let d_a = session_events(stream_a, fue_a);
    let d_b = session_events(stream_b, fue_b);
    assert(stream_a.take(stream_a.len() as int) =~= stream_a);
    assert(stream_b.take(stream_b.len() as int) =~= stream_b);
    lemma_run_log(stream_a, fue_a, stream_a.len() as int);
    lemma_run_log(stream_b, fue_b, stream_b.len() as int);
    lemma_sync_decompose(log_a, stream_a, fue_a);
    lemma_sync_decompose(log_b, stream_b, fue_b);
    assert(p_a - log_a.len() < d_a.len());
    assert(out_a[p_a] == d_a[p_a - log_a.len()]);
    assert(p_b - log_b.len() < d_b.len());
    assert(out_b[p_b] == d_b[p_b - log_b.len()]);
    let e = out_a[p_a]->PackWritten_epoch;
    assert(out_a[p_a]->PackWritten_blocks == epoch_blocks(stream_a, e));
    assert(out_b[p_b]->PackWritten_blocks == epoch_blocks(stream_b, e));
    assert(out_a[p_a]->PackWritten_pack_hash == out_b[p_b]->PackWritten_pack_hash);
}

} // verus!
