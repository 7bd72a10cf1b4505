use chain_sync::chain::{Block, BlockDate, BlockRef};
use chain_sync::config::{NetConfig, PeerCfg, TransportKind};
use chain_sync::errors::SyncError;
use chain_sync::store::{Store, StoreEvent, TagKey};
use chain_sync::sync::{net_sync, net_sync_http, net_sync_native, resolve_local_start, RemoteChain};

fn blk(tag: u8, date: BlockDate) -> Block {
    Block { hash: vec![tag, 0xBB], date, raw: vec![tag, tag, 1] }
}

fn cfg(k: u32) -> NetConfig {
    NetConfig {
        genesis: vec![0xAB; 4],
        genesis_prev: vec![0xAA; 4],
        epoch_start: 0,
        k,
        protocol_magic: 764824073,
        peers: vec![
            PeerCfg {
                name: "h1".to_owned(),
                kind: TransportKind::Http,
                address: "http://relay1".to_owned(),
            },
            PeerCfg {
                name: "n1".to_owned(),
                kind: TransportKind::Native,
                address: "relay1:3000".to_owned(),
            },
        ],
    }
}

/// Epochs 0, 1, 2 fully formed (genesis marker plus two slots each), plus
/// three blocks into epoch 3.
fn chain_to_epoch3() -> Vec<Block> {
    vec![
        blk(0, BlockDate::Genesis(0)),
        blk(1, BlockDate::Normal { epoch: 0, slot: 0 }),
        blk(2, BlockDate::Normal { epoch: 0, slot: 1 }),
        blk(3, BlockDate::Genesis(1)),
        blk(4, BlockDate::Normal { epoch: 1, slot: 0 }),
        blk(5, BlockDate::Normal { epoch: 1, slot: 1 }),
        blk(6, BlockDate::Genesis(2)),
        blk(7, BlockDate::Normal { epoch: 2, slot: 0 }),
        blk(8, BlockDate::Normal { epoch: 2, slot: 1 }),
        blk(9, BlockDate::Genesis(3)),
        blk(10, BlockDate::Normal { epoch: 3, slot: 2 }),
        blk(11, BlockDate::Normal { epoch: 3, slot: 3 }),
    ]
}

fn tip_at_3_3() -> BlockRef {
    BlockRef { hash: vec![11, 0xBB], date: BlockDate::Normal { epoch: 3, slot: 3 } }
}

fn pack_epochs(store: &Store) -> Vec<u64> {
    let mut out = Vec::new();
    for ev in store.events.iter() {
        if let StoreEvent::PackWritten { epoch, .. } = ev {
            out.push(*epoch);
        }
    }
    out
}

fn pack_record(store: &Store, e: u64) -> Option<(Vec<u8>, Vec<Vec<u8>>)> {
    for ev in store.events.iter() {
        if let StoreEvent::PackWritten { epoch, pack_hash, blocks } = ev {
            if *epoch == e {
                let hashes = blocks.iter().map(|b| b.hash.clone()).collect();
                return Some((pack_hash.clone(), hashes));
            }
        }
    }
    None
}

fn loose_hashes(store: &Store) -> Vec<Vec<u8>> {
    let mut out = Vec::new();
    for ev in store.events.iter() {
        if let StoreEvent::LooseWritten { block } = ev {
            out.push(block.hash.clone());
        }
    }
    out
}

#[test]
fn end_to_end_packs_stable_epochs_and_keeps_tip_epoch_loose() {
    // k below the tip's slot: the tip's own epoch alone is unstable.
    let c = cfg(2);
    let mut store = Store::new();
    let stream = chain_to_epoch3();
    let report = net_sync(&stream, &tip_at_3_3(), &c, &mut store);

    assert!(report.from_inclusive);
    assert!(!report.stale_head);
    assert_eq!(pack_epochs(&store), vec![0, 1, 2]);
    for e in 0..3u64 {
        let (ph, hashes) = pack_record(&store, e).unwrap();
        assert_eq!(store.read_tag(TagKey::Epoch(e)).unwrap(), ph);
        assert_eq!(hashes.len(), 3);
    }
    let (_, hashes2) = pack_record(&store, 2).unwrap();
    assert_eq!(hashes2, vec![vec![6, 0xBB], vec![7, 0xBB], vec![8, 0xBB]]);
    assert_eq!(
        loose_hashes(&store),
        vec![vec![9, 0xBB], vec![10, 0xBB], vec![11, 0xBB]]
    );
    assert_eq!(store.read_tag(TagKey::Head).unwrap(), vec![11, 0xBB]);
}

#[test]
fn end_to_end_tip_within_k_leaves_previous_epoch_loose_too() {
    // The tip sits within k slots of its epoch's start, so epoch 2 is
    // conservatively unstable as well: only epochs 0 and 1 are packed.
    let c = cfg(10);
    let mut store = Store::new();
    let stream = chain_to_epoch3();
    net_sync(&stream, &tip_at_3_3(), &c, &mut store);

    assert_eq!(pack_epochs(&store), vec![0, 1]);
    assert!(store.read_tag(TagKey::Epoch(0)).is_some());
    assert!(store.read_tag(TagKey::Epoch(1)).is_some());
    assert!(store.read_tag(TagKey::Epoch(2)).is_none());
    assert_eq!(
        loose_hashes(&store),
        vec![
            vec![6, 0xBB],
            vec![7, 0xBB],
            vec![8, 0xBB],
            vec![9, 0xBB],
            vec![10, 0xBB],
            vec![11, 0xBB]
        ]
    );
    assert_eq!(store.read_tag(TagKey::Head).unwrap(), vec![11, 0xBB]);
}

#[test]
fn resume_with_no_new_blocks_writes_nothing() {
    let c = cfg(2);
    let mut store = Store::new();
    let stream = chain_to_epoch3();
    net_sync(&stream, &tip_at_3_3(), &c, &mut store);

    let events_before = store.events.len();
    let head_before = store.read_tag(TagKey::Head).unwrap();
    let report = net_sync(&Vec::new(), &tip_at_3_3(), &c, &mut store);

    assert_eq!(store.events.len(), events_before);
    assert_eq!(store.read_tag(TagKey::Head).unwrap(), head_before);
    // The second session resumes strictly after the checkpointed block.
    assert!(!report.from_inclusive);
    assert!(!report.stale_head);
    assert_eq!(report.start.hash, vec![11, 0xBB]);
    assert_eq!(report.start.date, BlockDate::Normal { epoch: 3, slot: 3 });
}

#[test]
fn epoch_tag_writes_precede_the_next_head_checkpoint() {
    let c = cfg(2);
    let mut store = Store::new();
    net_sync(&chain_to_epoch3(), &tip_at_3_3(), &c, &mut store);

    for e in 0..3u64 {
        let tag_pos = store
            .events
            .iter()
            .position(|ev| matches!(ev, StoreEvent::TagWritten { key: TagKey::Epoch(n), .. } if *n == e))
            .unwrap();
        let head_after = store.events[tag_pos + 1..]
            .iter()
            .position(|ev| matches!(ev, StoreEvent::TagWritten { key: TagKey::Head, .. }));
        assert!(head_after.is_some());
    }
    // The checkpoint completing epoch 0's flush names epoch 0's last block.
    let tag0 = store
        .events
        .iter()
        .position(|ev| matches!(ev, StoreEvent::TagWritten { key: TagKey::Epoch(0), .. }))
        .unwrap();
    match &store.events[tag0 + 3] {
        StoreEvent::TagWritten { key: TagKey::Head, value } => {
            assert_eq!(value, &vec![2, 0xBB]);
        }
        _ => panic!("expected a HEAD checkpoint"),
    }
}

#[test]
fn interrupted_session_reconstructs_the_same_pack() {
    // Session A sees epochs 0 and 1 and the boundary into epoch 2.
    let c = cfg(2);
    let tip = BlockRef { hash: vec![6, 0xBB], date: BlockDate::Normal { epoch: 2, slot: 9 } };
    let mut store_a = Store::new();
    let full = vec![
        blk(0, BlockDate::Genesis(0)),
        blk(1, BlockDate::Normal { epoch: 0, slot: 0 }),
        blk(2, BlockDate::Normal { epoch: 0, slot: 1 }),
        blk(3, BlockDate::Genesis(1)),
        blk(4, BlockDate::Normal { epoch: 1, slot: 0 }),
        blk(5, BlockDate::Normal { epoch: 1, slot: 1 }),
        blk(6, BlockDate::Genesis(2)),
    ];
    net_sync(&full, &tip, &c, &mut store_a);

    // Session B re-fetches from the checkpoint taken when epoch 0 was
    // flushed — as after an interruption that abandoned epoch 1's
    // accumulator — and re-packs epoch 1 from the same blocks.
    let mut store_b = Store::new();
    let refetched = vec![
        blk(3, BlockDate::Genesis(1)),
        blk(4, BlockDate::Normal { epoch: 1, slot: 0 }),
        blk(5, BlockDate::Normal { epoch: 1, slot: 1 }),
        blk(6, BlockDate::Genesis(2)),
    ];
    net_sync(&refetched, &tip, &c, &mut store_b);

    let (ph_a, blocks_a) = pack_record(&store_a, 1).unwrap();
    let (ph_b, blocks_b) = pack_record(&store_b, 1).unwrap();
    assert_eq!(ph_a, ph_b);
    assert_eq!(blocks_a, blocks_b);
    assert_eq!(store_a.read_tag(TagKey::Epoch(1)), store_b.read_tag(TagKey::Epoch(1)));
}

#[test]
fn empty_store_starts_at_genesis_inclusive() {
    let c = cfg(10);
    let store = Store::new();
    let start = resolve_local_start(&store, &c);
    assert_eq!(start.start.hash, c.genesis);
    assert_eq!(start.start.date, BlockDate::Genesis(0));
    assert!(start.from_inclusive);
    assert!(!start.stale_head);
}

#[test]
fn stale_head_falls_back_to_genesis_with_a_warning() {
    let c = cfg(10);
    let mut store = Store::new();
    store.write_tag(TagKey::Head, vec![0xDE, 0xAD]);

    let start = resolve_local_start(&store, &c);
    assert!(start.stale_head);
    assert!(start.from_inclusive);
    assert_eq!(start.start.hash, c.genesis);
    assert_eq!(start.start.date, BlockDate::Genesis(0));

    // The session proceeds from genesis instead of failing.
    let report = net_sync(&chain_to_epoch3(), &tip_at_3_3(), &c, &mut store);
    assert!(report.stale_head);
    assert_eq!(store.read_tag(TagKey::Head).unwrap(), vec![11, 0xBB]);
}

#[test]
fn head_found_in_a_pack_resumes_strictly_after_it() {
    let c = cfg(10);
    let mut store = Store::new();
    let packed = vec![
        blk(0, BlockDate::Genesis(0)),
        blk(1, BlockDate::Normal { epoch: 0, slot: 0 }),
    ];
    let ph = chain_sync::digest::pack_hash(&packed);
    store.write_pack(0, ph.clone(), packed);
    store.write_tag(TagKey::Head, vec![1, 0xBB]);

    let start = resolve_local_start(&store, &c);
    assert!(!start.from_inclusive);
    assert!(!start.stale_head);
    assert_eq!(start.start.hash, vec![1, 0xBB]);
    assert_eq!(start.start.date, BlockDate::Normal { epoch: 0, slot: 0 });
}

#[test]
fn sync_http_without_config_is_fatal() {
    let mut store = Store::new();
    let r = net_sync_http("mainnet".to_owned(), &None, &None, &mut store);
    assert!(matches!(r, Err(SyncError::ConfigMissing)));
    assert_eq!(store.events.len(), 0);
}

#[test]
fn sync_http_with_unreachable_peer_is_fatal() {
    let mut store = Store::new();
    let r = net_sync_http("mainnet".to_owned(), &Some(cfg(2)), &None, &mut store);
    assert!(matches!(r, Err(SyncError::NetworkUnavailable)));
    assert_eq!(store.events.len(), 0);
}

#[test]
fn sync_http_without_http_peer_is_fatal() {
    let mut c = cfg(2);
    c.peers.retain(|p| matches!(p.kind, TransportKind::Native));
    let mut store = Store::new();
    let r = net_sync_http("mainnet".to_owned(), &Some(c), &None, &mut store);
    assert!(matches!(r, Err(SyncError::NoSuitablePeer)));
}

#[test]
fn sync_native_runs_the_session() {
    let mut store = Store::new();
    let fetched = RemoteChain { tip: tip_at_3_3(), blocks: chain_to_epoch3() };
    let r = net_sync_native("mainnet".to_owned(), &Some(cfg(2)), &Some(fetched), &mut store);
    assert!(r.is_ok());
    assert_eq!(pack_epochs(&store), vec![0, 1, 2]);
    assert_eq!(store.read_tag(TagKey::Head).unwrap(), vec![11, 0xBB]);
}

#[test]
fn loose_block_is_found_by_lookup() {
    let c = cfg(2);
    let mut store = Store::new();
    net_sync(&chain_to_epoch3(), &tip_at_3_3(), &c, &mut store);
    assert_eq!(
        store.find_block_date(&vec![10, 0xBB]),
        Some(BlockDate::Normal { epoch: 3, slot: 2 })
    );
    assert_eq!(
        store.find_block_date(&vec![7, 0xBB]),
        Some(BlockDate::Normal { epoch: 2, slot: 0 })
    );
    assert_eq!(store.find_block_date(&vec![0xEE]), None);
}
