use chain_sync::chain::BlockDate;
use chain_sync::chain::Block;
use chain_sync::config::{NetConfig, PeerCfg, TransportKind};
use chain_sync::digest::pack_hash;
use chain_sync::errors::SyncError;
use chain_sync::peers::{get_http_peer, get_native_peer};
use chain_sync::sync::first_unstable_epoch;
use chain_sync::timefmt::{dec_string, duration_print};

fn cfg_with_peers(peers: Vec<PeerCfg>) -> NetConfig {
    NetConfig {
        genesis: vec![0xAB; 4],
        genesis_prev: vec![0xAA; 4],
        epoch_start: 0,
        k: 10,
        protocol_magic: 764824073,
        peers,
    }
}

fn peer(name: &str, kind: TransportKind, address: &str) -> PeerCfg {
    PeerCfg { name: name.to_owned(), kind, address: address.to_owned() }
}

#[test]
fn boundary_formula_slot_within_k() {
    let tip = BlockDate::Normal { epoch: 5, slot: 3 };
    assert_eq!(first_unstable_epoch(&tip, 10), 4);
}

#[test]
fn boundary_formula_slot_beyond_k() {
    let tip = BlockDate::Normal { epoch: 5, slot: 50 };
    assert_eq!(first_unstable_epoch(&tip, 10), 5);
}

#[test]
fn boundary_formula_genesis_tip() {
    let tip = BlockDate::Genesis(5);
    assert_eq!(first_unstable_epoch(&tip, 10), 4);
}

#[test]
fn boundary_formula_slot_equal_k() {
    let tip = BlockDate::Normal { epoch: 7, slot: 10 };
    assert_eq!(first_unstable_epoch(&tip, 10), 6);
}

#[test]
fn http_peer_takes_first_http() {
    let cfg = cfg_with_peers(vec![
        peer("n0", TransportKind::Native, "relay0:3000"),
        peer("h1", TransportKind::Http, "http://relay1"),
        peer("h2", TransportKind::Http, "http://relay2"),
    ]);
    let p = get_http_peer("mainnet".to_owned(), &cfg).unwrap();
    assert_eq!(p.blockchain, "mainnet");
    assert_eq!(p.name, "h1");
    assert_eq!(p.address, "http://relay1");
    assert_eq!(p.protocol_magic, 764824073);
}

#[test]
fn native_peer_takes_first_native() {
    let cfg = cfg_with_peers(vec![
        peer("h1", TransportKind::Http, "http://relay1"),
        peer("n0", TransportKind::Native, "relay0:3000"),
    ]);
    let p = get_native_peer("mainnet".to_owned(), &cfg).unwrap();
    assert_eq!(p.name, "n0");
    assert_eq!(p.address, "relay0:3000");
}

#[test]
fn no_http_peer_is_a_configuration_error() {
    let cfg = cfg_with_peers(vec![peer("n0", TransportKind::Native, "relay0:3000")]);
    assert!(matches!(
        get_http_peer("mainnet".to_owned(), &cfg),
        Err(SyncError::NoSuitablePeer)
    ));
}

#[test]
fn no_native_peer_is_a_configuration_error() {
    let cfg = cfg_with_peers(vec![peer("h1", TransportKind::Http, "http://relay1")]);
    assert!(matches!(
        get_native_peer("mainnet".to_owned(), &cfg),
        Err(SyncError::NoSuitablePeer)
    ));
}

#[test]
fn duration_print_seconds_and_millis() {
    assert_eq!(duration_print(12, 345), "12.345 seconds");
}

#[test]
fn duration_print_pads_millis_to_three_digits() {
    assert_eq!(duration_print(0, 7), "0.007 seconds");
    assert_eq!(duration_print(3, 40), "3.040 seconds");
    assert_eq!(duration_print(1, 0), "1.000 seconds");
}

#[test]
fn dec_string_renders_decimal() {
    assert_eq!(dec_string(0), "0");
    assert_eq!(dec_string(907), "907");
    assert_eq!(dec_string(18446744073709551615), "18446744073709551615");
}

#[test]
fn pack_hash_depends_on_contents() {
    let a = vec![Block { hash: vec![1], date: BlockDate::Genesis(0), raw: vec![9, 9] }];
    let b = vec![Block { hash: vec![1], date: BlockDate::Genesis(0), raw: vec![9, 8] }];
    let ha = pack_hash(&a);
    let hb = pack_hash(&b);
    assert_eq!(ha.len(), 8);
    assert_ne!(ha, hb);
    assert_eq!(ha, pack_hash(&a));
}
