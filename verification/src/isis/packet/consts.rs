//! Protocol constants.

use vstd::prelude::*;

verus! {

/// Intradomain routeing protocol discriminator.
pub const IDRP_DISCRIMINATOR: u8 = 0x83;

/// Version/protocol ID extension.
pub const VERSION_PROTO_EXT: u8 = 1;

/// Protocol version.
pub const VERSION: u8 = 1;

/// Length of a system ID.
pub const SYSTEM_ID_LEN: u8 = 6;

/// IS-IS PDU types.
#[derive(Clone, Copy, Debug, PartialEq, Eq, Structural)]
pub enum PduType {
    HelloLanL1,
    HelloLanL2,
    HelloP2P,
    LspL1,
    LspL2,
    CsnpL1,
    CsnpL2,
    PsnpL1,
    PsnpL2,
}

impl PduType {
    /// The code point of the type.
    pub open spec fn code(self) -> u8 {
        match self {
            PduType::HelloLanL1 => 0x0F,
            PduType::HelloLanL2 => 0x10,
            PduType::HelloP2P => 0x11,
            PduType::LspL1 => 0x12,
            PduType::LspL2 => 0x14,
            PduType::CsnpL1 => 0x18,
            PduType::CsnpL2 => 0x19,
            PduType::PsnpL1 => 0x1A,
            PduType::PsnpL2 => 0x1B,
        }
    }

    /// The type that a code point stands for, if any.
    pub open spec fn spec_from_u8(n: u8) -> Option<PduType> {
        match n {
            0x0F => Some(PduType::HelloLanL1),
            0x10 => Some(PduType::HelloLanL2),
            0x11 => Some(PduType::HelloP2P),
            0x12 => Some(PduType::LspL1),
            0x14 => Some(PduType::LspL2),
            0x18 => Some(PduType::CsnpL1),
            0x19 => Some(PduType::CsnpL2),
            0x1A => Some(PduType::PsnpL1),
            0x1B => Some(PduType::PsnpL2),
            _ => None,
        }
    }

    /// The type that a code point stands for, if any.
    pub fn from_u8(n: u8) -> (r: Option<PduType>)
        ensures
            r == PduType::spec_from_u8(n),
            match r {
                Some(t) => t.code() == n,
                None => forall|t: PduType| t.code() != n,
            },
    {
        match n {
            0x0F => Some(PduType::HelloLanL1),
            0x10 => Some(PduType::HelloLanL2),
            0x11 => Some(PduType::HelloP2P),
            0x12 => Some(PduType::LspL1),
            0x14 => Some(PduType::LspL2),
            0x18 => Some(PduType::CsnpL1),
            0x19 => Some(PduType::CsnpL2),
            0x1A => Some(PduType::PsnpL1),
            0x1B => Some(PduType::PsnpL2),
            _ => None,
        }
    }

    /// The code point of the type.
    pub fn as_u8(self) -> (n: u8)
        ensures
            n == self.code(),
    {
        match self {
            PduType::HelloLanL1 => 0x0F,
            PduType::HelloLanL2 => 0x10,
            PduType::HelloP2P => 0x11,
            PduType::LspL1 => 0x12,
            PduType::LspL2 => 0x14,
            PduType::CsnpL1 => 0x18,
            PduType::CsnpL2 => 0x19,
            PduType::PsnpL1 => 0x1A,
            PduType::PsnpL2 => 0x1B,
        }
    }
}

/// The types of the top-level TLVs that are understood.
#[derive(Clone, Copy, Debug, PartialEq, Eq, Structural)]
pub enum TlvType {
    AreaAddresses,
    IsReach,
    Neighbors,
    Padding,
    LspEntries,
    LspBufferSize,
    ExtIsReach,
    Ipv4InternalReach,
    ProtocolsSupported,
    Ipv4ExternalReach,
    Ipv4Addresses,
    ExtIpv4Reach,
    Ipv6Addresses,
    Ipv6Reach,
}

impl TlvType {
    /// The code point of the type.
    pub open spec fn code(self) -> u8 {
        match self {
            TlvType::AreaAddresses => 1,
            TlvType::IsReach => 2,
            TlvType::Neighbors => 6,
            TlvType::Padding => 8,
            TlvType::LspEntries => 9,
            TlvType::LspBufferSize => 14,
            TlvType::ExtIsReach => 22,
            TlvType::Ipv4InternalReach => 128,
            TlvType::ProtocolsSupported => 129,
            TlvType::Ipv4ExternalReach => 130,
            TlvType::Ipv4Addresses => 132,
            TlvType::ExtIpv4Reach => 135,
            TlvType::Ipv6Addresses => 232,
            TlvType::Ipv6Reach => 236,
        }
    }

    /// The type that a code point stands for, if any.
    pub open spec fn spec_from_u8(n: u8) -> Option<TlvType> {
        match n {
            1 => Some(TlvType::AreaAddresses),
            2 => Some(TlvType::IsReach),
            6 => Some(TlvType::Neighbors),
            8 => Some(TlvType::Padding),
            9 => Some(TlvType::LspEntries),
            14 => Some(TlvType::LspBufferSize),
            22 => Some(TlvType::ExtIsReach),
            128 => Some(TlvType::Ipv4InternalReach),
            129 => Some(TlvType::ProtocolsSupported),
            130 => Some(TlvType::Ipv4ExternalReach),
            132 => Some(TlvType::Ipv4Addresses),
            135 => Some(TlvType::ExtIpv4Reach),
            232 => Some(TlvType::Ipv6Addresses),
            236 => Some(TlvType::Ipv6Reach),
            _ => None,
        }
    }

    /// The type that a code point stands for, if any.
    pub fn from_u8(n: u8) -> (r: Option<TlvType>)
        ensures
            r == TlvType::spec_from_u8(n),
            match r {
                Some(t) => t.code() == n,
                None => forall|t: TlvType| t.code() != n,
            },
    {
        match n {
            1 => Some(TlvType::AreaAddresses),
            2 => Some(TlvType::IsReach),
            6 => Some(TlvType::Neighbors),
            8 => Some(TlvType::Padding),
            9 => Some(TlvType::LspEntries),
            14 => Some(TlvType::LspBufferSize),
            22 => Some(TlvType::ExtIsReach),
            128 => Some(TlvType::Ipv4InternalReach),
            129 => Some(TlvType::ProtocolsSupported),
            130 => Some(TlvType::Ipv4ExternalReach),
            132 => Some(TlvType::Ipv4Addresses),
            135 => Some(TlvType::ExtIpv4Reach),
            232 => Some(TlvType::Ipv6Addresses),
            236 => Some(TlvType::Ipv6Reach),
            _ => None,
        }
    }

    /// The code point of the type.
    pub fn as_u8(self) -> (n: u8)
        ensures
            n == self.code(),
    {
        match self {
            TlvType::AreaAddresses => 1,
            TlvType::IsReach => 2,
            TlvType::Neighbors => 6,
            TlvType::Padding => 8,
            TlvType::LspEntries => 9,
            TlvType::LspBufferSize => 14,
            TlvType::ExtIsReach => 22,
            TlvType::Ipv4InternalReach => 128,
            TlvType::ProtocolsSupported => 129,
            TlvType::Ipv4ExternalReach => 130,
            TlvType::Ipv4Addresses => 132,
            TlvType::ExtIpv4Reach => 135,
            TlvType::Ipv6Addresses => 232,
            TlvType::Ipv6Reach => 236,
        }
    }
}

/// The octet of an LSP with the partition repair bit, the four attached bits,
/// the overload bit and the two bits of the IS type. Every bit has a meaning.
#[derive(Clone, Copy, Debug, PartialEq, Eq, Structural)]
pub struct LspFlags {
    pub bits: u8,
}

impl LspFlags {
    /// The flags that an octet stands for.
    pub fn from_bits_truncate(bits: u8) -> (r: LspFlags)
        ensures
            r == (LspFlags { bits }),
    {
        LspFlags { bits }
    }

    /// The octet that stands for the flags.
    pub fn bits(&self) -> (r: u8)
        ensures
            r == self.bits,
    {
        self.bits
    }
}

/// The code points of the TLVs.
pub proof fn lemma_tlv_codes(t: TlvType, n: u8, from: Option<TlvType>)
    requires
        call_ensures(TlvType::as_u8, (t,), n),
        call_ensures(TlvType::from_u8, (n,), from),
    ensures
        from == Some(t),
        n == t.code(),
        TlvType::AreaAddresses.code() == 1,
        TlvType::IsReach.code() == 2,
        TlvType::Neighbors.code() == 6,
        TlvType::Padding.code() == 8,
        TlvType::LspEntries.code() == 9,
        TlvType::LspBufferSize.code() == 14,
        TlvType::ExtIsReach.code() == 22,
        TlvType::Ipv4InternalReach.code() == 128,
        TlvType::ProtocolsSupported.code() == 129,
        TlvType::Ipv4ExternalReach.code() == 130,
        TlvType::Ipv4Addresses.code() == 132,
        TlvType::ExtIpv4Reach.code() == 135,
        TlvType::Ipv6Addresses.code() == 232,
        TlvType::Ipv6Reach.code() == 236,
{
}

/// A code point stands for a type only if it is the code of that type.
pub proof fn lemma_tlv_types(n: u8, r: Option<TlvType>, t: TlvType)
    requires
        call_ensures(TlvType::from_u8, (n,), r),
    ensures
        r == Some(t) <==> t.code() == n,
{
}

/// Flags keep all their bits.
pub proof fn lemma_flags(bits: u8, flags: LspFlags, r: u8)
    requires
        call_ensures(LspFlags::from_bits_truncate, (bits,), flags),
        call_ensures(LspFlags::bits, (&flags,), r),
    ensures
        r == bits,
{
}

} // verus!
