//! Content digest of a finalized epoch archive.
//!
//! A finalized pack is published under a hash derived from its contents
//! alone, so that re-packing the same blocks after an interruption names
//! the same archive. The digest is a 64-bit FNV-1a style fold over every
//! block's header hash and raw bytes, rendered as eight big-endian bytes.

use vstd::prelude::*;

use crate::chain::{Block, BlockV};

verus! {

pub const DIGEST_SEED: u64 = 0xcbf29ce484222325;

pub const DIGEST_PRIME: u64 = 0x100000001b3;

/// Fold one byte into the running digest.
pub open spec fn digest_step(h: u64, b: u8) -> u64 {
    (h ^ (b as u64)).wrapping_mul(DIGEST_PRIME)
}

/// Fold a byte string into the running digest, first byte first.
pub open spec fn digest_bytes_spec(h: u64, s: Seq<u8>) -> u64
    decreases s.len(),
{
    if s.len() == 0 {
        h
    } else {
        digest_step(digest_bytes_spec(h, s.drop_last()), s.last())
    }
}

/// Fold one block into the running digest: its identity, then its payload.
pub open spec fn digest_block_spec(h: u64, b: BlockV) -> u64 {
    digest_bytes_spec(digest_bytes_spec(h, b.hash), b.raw)
}

/// Fold a sequence of blocks into the running digest, in pack order.
pub open spec fn digest_blocks_spec(h: u64, bs: Seq<BlockV>) -> u64
    decreases bs.len(),
{
    if bs.len() == 0 {
        h
    } else {
        digest_block_spec(digest_blocks_spec(h, bs.drop_last()), bs.last())
    }
}

/// The eight big-endian bytes of a 64-bit value.
pub open spec fn be_bytes(x: u64) -> Seq<u8> {
    seq![
        ((x >> 56) & 0xff) as u8,
        ((x >> 48) & 0xff) as u8,
        ((x >> 40) & 0xff) as u8,
        ((x >> 32) & 0xff) as u8,
        ((x >> 24) & 0xff) as u8,
        ((x >> 16) & 0xff) as u8,
        ((x >> 8) & 0xff) as u8,
        (x & 0xff) as u8,
    ]
}

/// The hash a finalized pack is published under: a pure function of the
/// packed blocks, identical across sessions that pack the same blocks.
pub open spec fn pack_hash_of(blocks: Seq<BlockV>) -> Seq<u8> {
    be_bytes(digest_blocks_spec(DIGEST_SEED, blocks))
}

fn digest_bytes(h: u64, s: &Vec<u8>) -> (r: u64)
    ensures
        r == digest_bytes_spec(h, s@),
{
    let mut acc: u64 = h;
    let mut i: usize = 0;
    while i < s.len()
        invariant
            i <= s.len(),
            acc == digest_bytes_spec(h, s@.take(i as int)),
        decreases s.len() - i,
    {
        proof {
            assert(s@.take(i + 1 as int).last() == s@[i as int]);
            assert(s@.take(i + 1 as int).drop_last() =~= s@.take(i as int));
        }
        acc = (acc ^ (s[i] as u64)).wrapping_mul(DIGEST_PRIME);
        i = i + 1;
    }
    proof {
        assert(s@.take(s@.len() as int) =~= s@);
    }
    acc
}

fn digest_blocks(blocks: &Vec<Block>) -> (r: u64)
    ensures
        r == digest_blocks_spec(DIGEST_SEED, blocks@.map_values(|b: Block| b@)),
{
    let ghost bs: Seq<BlockV> = blocks@.map_values(|b: Block| b@);
    let mut acc: u64 = DIGEST_SEED;
    let mut i: usize = 0;
    while i < blocks.len()
        invariant
            i <= blocks.len(),
            bs == blocks@.map_values(|b: Block| b@),
            acc == digest_blocks_spec(DIGEST_SEED, bs.take(i as int)),
        decreases blocks.len() - i,
    {
        proof {
            assert(bs.take(i + 1 as int).last() == bs[i as int]);
            assert(bs.take(i + 1 as int).drop_last() =~= bs.take(i as int));
        }
        acc = digest_bytes(acc, &blocks[i].hash);
        acc = digest_bytes(acc, &blocks[i].raw);
        i = i + 1;
    }
    proof {
        assert(bs.take(bs.len() as int) =~= bs);
    }
    acc
}

/// Compute the hash under which an archive of these blocks is published.
pub fn pack_hash(blocks: &Vec<Block>) -> (r: Vec<u8>)
    ensures
        r@ == pack_hash_of(blocks@.map_values(|b: Block| b@)),
{
    let x = digest_blocks(blocks);
    let mut r: Vec<u8> = Vec::new();
    r.push(((x >> 56) & 0xff) as u8);
    r.push(((x >> 48) & 0xff) as u8);
    r.push(((x >> 40) & 0xff) as u8);
    r.push(((x >> 32) & 0xff) as u8);
    r.push(((x >> 24) & 0xff) as u8);
    r.push(((x >> 16) & 0xff) as u8);
    r.push(((x >> 8) & 0xff) as u8);
    r.push((x & 0xff) as u8);
    proof {
        assert(r@ =~= be_bytes(x));
    }
    r
}

} // verus!
