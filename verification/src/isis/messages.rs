//! What an IS-IS instance is told, and what it asks for.

use bytes::Bytes;
use vstd::prelude::*;

use crate::isis::packet::error::DecodeResult;
use crate::isis::packet::id::{LevelNumber, LevelType, LspId};
use crate::isis::packet::pdu::Pdu;

verus! {

/// Why an instance is not up.
#[derive(Clone, Copy, Debug, PartialEq, Eq, Structural)]
pub enum InstanceInactiveReason {
    AdminDown,
    Resetting,
}

/// Why an interface is not up.
#[derive(Clone, Copy, Debug, PartialEq, Eq, Structural)]
pub enum InterfaceInactiveReason {
    InstanceDown,
}

/// Why an LSP is purged.
#[derive(Clone, Copy, Debug, PartialEq, Eq, Structural)]
pub enum LspPurgeReason {
    Expired,
    Removed,
    Confusion,
}

/// The ID of an entry of the link state database.
#[derive(Clone, Copy, Debug, PartialEq, Eq, Structural)]
pub struct LspEntryId {
    pub id: u32,
}

/// How an entry of the link state database is found.
#[derive(Clone, Copy, Debug, PartialEq, Eq)]
pub enum LspEntryKey {
    Id(LspEntryId),
    Value(LspId),
}

/// How an interface is found.
#[derive(Clone, Copy, Debug, PartialEq, Eq, Structural)]
pub struct InterfaceKey {
    pub id: u32,
}

/// How an adjacency is found.
#[derive(Clone, Copy, Debug, PartialEq, Eq, Structural)]
pub struct AdjacencyKey {
    pub id: u32,
}

/// A received PDU.
#[derive(Debug, PartialEq, Eq)]
pub struct NetRxPduMsg {
    pub iface_key: InterfaceKey,
    pub src: [u8; 6],
    pub bytes: Bytes,
    pub pdu: DecodeResult<Pdu>,
}

/// The hold timer of an adjacency has expired.
#[derive(Clone, Copy, Debug, PartialEq, Eq, Structural)]
pub enum AdjHoldTimerMsg {
    Broadcast { iface_key: InterfaceKey, adj_key: AdjacencyKey, level: LevelNumber },
    PointToPoint { iface_key: InterfaceKey },
}

/// A DIS is to be elected.
#[derive(Clone, Copy, Debug, PartialEq, Eq, Structural)]
pub struct DisElectionMsg {
    pub iface_key: InterfaceKey,
    pub level: LevelNumber,
}

/// PSNPs are to be sent.
#[derive(Clone, Copy, Debug, PartialEq, Eq, Structural)]
pub struct SendPsnpMsg {
    pub iface_key: InterfaceKey,
    pub level: LevelNumber,
}

/// CSNPs are to be sent.
#[derive(Clone, Copy, Debug, PartialEq, Eq, Structural)]
pub struct SendCsnpMsg {
    pub iface_key: InterfaceKey,
    pub level: LevelNumber,
}

/// LSPs are to be originated.
#[derive(Clone, Copy, Debug, PartialEq, Eq, Structural)]
pub struct LspOriginateMsg {}

/// An LSP is to be purged.
#[derive(Clone, Copy, Debug, PartialEq, Eq)]
pub struct LspPurgeMsg {
    pub level: LevelNumber,
    pub lse_key: LspEntryKey,
    pub reason: LspPurgeReason,
}

/// An LSP is to be deleted.
#[derive(Clone, Copy, Debug, PartialEq, Eq)]
pub struct LspDeleteMsg {
    pub level: LevelNumber,
    pub lse_key: LspEntryKey,
}

/// An LSP is to be refreshed.
#[derive(Clone, Copy, Debug, PartialEq, Eq)]
pub struct LspRefreshMsg {
    pub level: LevelNumber,
    pub lse_key: LspEntryKey,
}

/// What the tasks of an instance tell it.
#[derive(Debug, PartialEq, Eq)]
pub enum ProtocolInputMsg {
    NetRxPdu(NetRxPduMsg),
    AdjHoldTimer(AdjHoldTimerMsg),
    DisElection(DisElectionMsg),
    SendPsnp(SendPsnpMsg),
    SendCsnp(SendCsnpMsg),
    LspOriginate(LspOriginateMsg),
    LspPurge(LspPurgeMsg),
    LspDelete(LspDeleteMsg),
    LspRefresh(LspRefreshMsg),
}

/// What an instance that is up has to deal with.
#[derive(Debug, PartialEq, Eq)]
pub enum Event {
    Pdu { iface_key: InterfaceKey, src: [u8; 6], bytes: Bytes, pdu: DecodeResult<Pdu> },
    LanAdjHoldTimerExpiry { iface_key: InterfaceKey, adj_key: AdjacencyKey, level: LevelNumber },
    P2pAdjHoldTimerExpiry { iface_key: InterfaceKey },
    DisElection { iface_key: InterfaceKey, level: LevelNumber },
    SendPsnp { iface_key: InterfaceKey, level: LevelNumber },
    SendCsnp { iface_key: InterfaceKey, level: LevelNumber },
    LspOriginate,
    LspPurge { level: LevelNumber, lse_key: LspEntryKey, reason: LspPurgeReason },
    LspDelete { level: LevelNumber, lse_key: LspEntryKey },
    LspRefresh { level: LevelNumber, lse_key: LspEntryKey },
}

/// What an instance asks for. Interfaces are told apart by their place.
#[derive(Clone, Copy, Debug, PartialEq, Eq, Structural)]
pub enum Action {
    /// Ask for the Router ID of the system.
    QueryRouterId,
    /// Ask what the system knows of an interface.
    QuerySouthbound { iface: usize },
    /// Check if an interface needs to be activated or deactivated.
    UpdateInterface { iface: usize },
    /// Stop what runs on an interface.
    StopInterface { iface: usize, reason: InterfaceInactiveReason },
    /// Start to send hellos on an interface, or start over.
    StartHelloTx { iface: usize, level_type: LevelType },
    /// Start the timer that ends with the origination of LSPs.
    StartLspOriginateTimer,
    /// Stop that timer.
    StopLspOriginateTimer,
    /// Originate LSPs.
    OriginateLsps,
}

impl LspPurgeMsg {
    /// The message that asks to purge an LSP of the database.
    pub fn new(level: LevelNumber, lse_id: LspEntryId, reason: LspPurgeReason) -> (r: LspPurgeMsg)
        ensures
            r == (LspPurgeMsg { level, lse_key: LspEntryKey::Id(lse_id), reason }),
    {
        LspPurgeMsg { level, lse_key: LspEntryKey::Id(lse_id), reason }
    }
}

impl LspRefreshMsg {
    /// The message that asks to refresh an LSP of the database.
    pub fn new(level: LevelNumber, lse_id: LspEntryId) -> (r: LspRefreshMsg)
        ensures
            r == (LspRefreshMsg { level, lse_key: LspEntryKey::Id(lse_id) }),
    {
        LspRefreshMsg { level, lse_key: LspEntryKey::Id(lse_id) }
    }
}

/// What a purge or a refresh is asked for comes with the request: the level,
/// the LSP, by its ID, and the reason.
pub proof fn lemma_requests(
    level: LevelNumber,
    lse_id: LspEntryId,
    reason: LspPurgeReason,
    purge: LspPurgeMsg,
    refresh: LspRefreshMsg,
)
    requires
        call_ensures(LspPurgeMsg::new, (level, lse_id, reason), purge),
        call_ensures(LspRefreshMsg::new, (level, lse_id), refresh),
    ensures
        purge.level == level && refresh.level == level,
        purge.lse_key == LspEntryKey::Id(lse_id) && refresh.lse_key == LspEntryKey::Id(lse_id),
        purge.reason == reason,
{
}

} // verus!
