//! Per-installation network configuration, read-only input to a session.

use vstd::prelude::*;

use crate::chain::EpochId;

verus! {

/// The transport a configured peer speaks.
#[derive(Clone, Copy, PartialEq, Eq, Structural, Debug)]
pub enum TransportKind {
    Http,
    Native,
}

/// One configured remote endpoint.
pub struct PeerCfg {
    pub name: String,
    pub kind: TransportKind,
    pub address: String,
}

impl PeerCfg {
    pub fn is_http(&self) -> (r: bool)
        ensures
            r == (self.kind is Http),
    {
        match self.kind {
            TransportKind::Http => true,
            TransportKind::Native => false,
        }
    }

    pub fn is_native(&self) -> (r: bool)
        ensures
            r == (self.kind is Native),
    {
        match self.kind {
            TransportKind::Http => false,
            TransportKind::Native => true,
        }
    }
}

/// The blockchain's configured parameters. Loading this from its
/// installation file is the caller's concern; its absence is the
/// `ConfigMissing` failure.
pub struct NetConfig {
    /// Hash of the protocol's genesis block.
    pub genesis: Vec<u8>,
    /// Hash preceding the genesis block.
    pub genesis_prev: Vec<u8>,
    /// Epoch ordinal the chain starts at.
    pub epoch_start: EpochId,
    /// Stability depth: confirmation count after which a block is treated
    /// as irreversible. Assumed smaller than the number of slots per epoch.
    pub k: u32,
    /// Protocol magic number, handed to the transport.
    pub protocol_magic: u32,
    /// Configured remote endpoints, in preference order.
    pub peers: Vec<PeerCfg>,
}

} // verus!
