//! Peer selection: filter the configured endpoints by transport capability.

use vstd::prelude::*;

use crate::config::{NetConfig, PeerCfg, TransportKind};
use crate::errors::SyncError;

verus! {

/// Whether some configured peer speaks the given transport.
pub open spec fn has_peer_of(peers: Seq<PeerCfg>, kind: TransportKind) -> bool {
    exists|i: int| 0 <= i < peers.len() && peers[i].kind == kind
}

/// The selection the entry points hand to the transport: everything needed
/// to open a connection, taken from the first matching configured peer.
pub struct SelectedPeer {
    pub blockchain: String,
    pub name: String,
    pub address: String,
    pub protocol_magic: u32,
}

/// What a successful selection promises: the fields of the first
/// configured peer of the requested transport.
pub open spec fn selects_first(
    p: SelectedPeer,
    blockchain: Seq<char>,
    cfg: NetConfig,
    kind: TransportKind,
) -> bool {
    &&& p.blockchain@ == blockchain
    &&& p.protocol_magic == cfg.protocol_magic
    &&& exists|i: int|
        {
            &&& 0 <= i < cfg.peers@.len()
            &&& #[trigger] cfg.peers@[i].kind == kind
            &&& forall|j: int| 0 <= j < i ==> #[trigger] cfg.peers@[j].kind != kind
            &&& p.name@ == cfg.peers@[i].name@
            &&& p.address@ == cfg.peers@[i].address@
        }
}

fn get_peer(blockchain: String, cfg: &NetConfig, kind: TransportKind) -> (r: Result<
    SelectedPeer,
    SyncError,
>)
    ensures
        r is Ok <==> has_peer_of(cfg.peers@, kind),
        r matches Ok(p) ==> selects_first(p, blockchain@, *cfg, kind),
        r matches Err(e) ==> e == SyncError::NoSuitablePeer,
{
    let mut i: usize = 0;
    while i < cfg.peers.len()
        invariant
            i <= cfg.peers.len(),
            forall|j: int| 0 <= j < i ==> #[trigger] cfg.peers@[j].kind != kind,
        decreases cfg.peers.len() - i,
    {
        let p = &cfg.peers[i];
        let matched = match (p.kind, kind) {
            (TransportKind::Http, TransportKind::Http) => true,
            (TransportKind::Native, TransportKind::Native) => true,
            _ => false,
        };
        if matched {
            return Ok(
                SelectedPeer {
                    blockchain,
                    name: p.name.clone(),
                    address: p.address.clone(),
                    protocol_magic: cfg.protocol_magic,
                },
            );
        }
        i = i + 1;
    }
    Err(SyncError::NoSuitablePeer)
}

/// Select the first configured peer that speaks HTTP. With none configured
/// this is the fatal `NoSuitablePeer` configuration error.
pub fn get_http_peer(blockchain: String, cfg: &NetConfig) -> (r: Result<SelectedPeer, SyncError>)
    ensures
        r is Ok <==> has_peer_of(cfg.peers@, TransportKind::Http),
        r matches Ok(p) ==> selects_first(p, blockchain@, *cfg, TransportKind::Http),
        r matches Err(e) ==> e == SyncError::NoSuitablePeer,
{
    get_peer(blockchain, cfg, TransportKind::Http)
}

/// Select the first configured peer that speaks the native protocol. With
/// none configured this is the fatal `NoSuitablePeer` configuration error.
pub fn get_native_peer(blockchain: String, cfg: &NetConfig) -> (r: Result<SelectedPeer, SyncError>)
    ensures
        r is Ok <==> has_peer_of(cfg.peers@, TransportKind::Native),
        r matches Ok(p) ==> selects_first(p, blockchain@, *cfg, TransportKind::Native),
        r matches Err(e) ==> e == SyncError::NoSuitablePeer,
{
    get_peer(blockchain, cfg, TransportKind::Native)
}

} // verus!
