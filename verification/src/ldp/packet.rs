//! The hello messages of LDP.

use vstd::prelude::*;

use crate::utils::net::{Ipv4Addr, Ipv6Addr};

verus! {

/// The flags of a hello.
#[derive(Clone, Copy, Debug, PartialEq, Eq, Structural)]
pub struct HelloFlags {
    pub targeted: bool,
    pub req_targ: bool,
    pub gtsm: bool,
}

/// Common Hello Parameters TLV.
#[derive(Clone, Copy, Debug, PartialEq, Eq, Structural)]
pub struct TlvCommonHelloParams {
    pub holdtime: u16,
    pub flags: HelloFlags,
}

/// IPv4 Transport Address TLV.
#[derive(Clone, Copy, Debug, PartialEq, Eq, Structural)]
pub struct TlvIpv4TransAddr(pub Ipv4Addr);

/// IPv6 Transport Address TLV.
#[derive(Clone, Copy, Debug, PartialEq, Eq, Structural)]
pub struct TlvIpv6TransAddr(pub Ipv6Addr);

/// Configuration Sequence Number TLV.
#[derive(Clone, Copy, Debug, PartialEq, Eq, Structural)]
pub struct TlvConfigSeqNo(pub u32);

/// Which family a dual-stack speaker prefers.
#[derive(Clone, Copy, Debug, PartialEq, Eq, Structural)]
pub struct TlvDualStack(pub u16);

/// A hello message.
#[derive(Clone, Copy, Debug, PartialEq, Eq, Structural)]
pub struct HelloMsg {
    pub msg_id: u32,
    pub params: TlvCommonHelloParams,
    pub ipv4_addr: Option<TlvIpv4TransAddr>,
    pub ipv6_addr: Option<TlvIpv6TransAddr>,
    pub cfg_seqno: Option<TlvConfigSeqNo>,
    pub dual_stack: Option<TlvDualStack>,
}

/// A PDU with hellos.
#[derive(Clone, Debug, PartialEq, Eq)]
pub struct Pdu {
    pub lsr_id: Ipv4Addr,
    pub lspace_id: u16,
    pub messages: Vec<HelloMsg>,
}

impl Pdu {
    /// A PDU without messages.
    pub fn new(lsr_id: Ipv4Addr, lspace_id: u16) -> (r: Pdu)
        ensures
            r.lsr_id == lsr_id,
            r.lspace_id == lspace_id,
            r.messages@ == Seq::<HelloMsg>::empty(),
    {
        Pdu { lsr_id, lspace_id, messages: Vec::new() }
    }
}

/// A new PDU is from the router, of the label space, and without messages.
pub proof fn lemma_new_pdu(lsr_id: Ipv4Addr, lspace_id: u16, r: Pdu)
    requires
        call_ensures(Pdu::new, (lsr_id, lspace_id), r),
    ensures
        r.lsr_id == lsr_id,
        r.lspace_id == lspace_id,
        r.messages@.len() == 0,
{
}

} // verus!
