//! Hello PDUs.

use bytes::{Bytes, BytesMut};
use vstd::prelude::*;

use crate::isis::packet::consts::{PduType, TlvType};
use crate::isis::packet::entries::{
    lemma_protocols_valid, AreaAddr, AreaAddressesTlv, Ipv4AddressesTlv, Ipv6AddressesTlv,
    NeighborsTlv, ProtocolsSupportedTlv,
};
use crate::isis::packet::error::{DecodeError, DecodeResult};
use crate::isis::packet::header::{
    fixed_len, header_wire, pdu_encode_end, pdu_encode_start, with_length, Header,
    HELLO_HEADER_LEN_LAN, HELLO_HEADER_LEN_P2P,
};
use crate::isis::packet::id::{lan_id_at, system_id_at, LanId, LevelType, SystemId};
use crate::isis::packet::tlv::{
    all_entries, decode_tlvs, encode_group, encode_opt, entries_fit, flatten, grew, group_wire,
    lemma_accepted_whole, lemma_first_refused, lemma_grew_from_none, lemma_grew_not,
    lemma_grew_step, lemma_others_of, lemma_parse_values, lemma_split, lemma_split_valid,
    lemma_tlvs_parse_group,
    lemma_tlvs_parse_opt, lemma_values_of, lists, opt_view, opt_wire, others_of, raw_tlvs, refused,
    split, stand_for, take_group, take_opt, tlv_entries_split, tlvs_left, tlvs_parse, tlvs_rest,
    values_of, views, whole_tlvs, EntriesTlv, PaddingTlv, RawTlv, Tlv, TlvEntry, TlvSet, UnknownTlv,
    TLV_MAX_LEN,
};
use crate::utils::be::{
    be_bytes, be_field, lemma_be_bytes_len, lemma_be_uint_of_bytes, lemma_pow256_values,
};
use crate::utils::buf::{bytes_content, bytes_mut_content, get_u16, get_u8, put_u16, put_u8};
use crate::utils::net::{Ipv4Addr, Ipv6Addr};

verus! {

/// IS-IS Hello PDU.
#[derive(Clone, Debug, PartialEq, Eq)]
pub struct Hello {
    pub hdr: Header,
    pub circuit_type: LevelType,
    pub source: SystemId,
    pub holdtime: u16,
    pub variant: HelloVariant,
    pub tlvs: HelloTlvs,
}

/// What depends on the kind of the circuit.
#[derive(Clone, Copy, Debug, PartialEq, Eq)]
pub enum HelloVariant {
    Lan { priority: u8, lan_id: LanId },
    P2P { local_circuit_id: u8 },
}

/// The TLVs of a hello.
#[derive(Clone, Debug, PartialEq, Eq)]
pub struct HelloTlvs {
    pub protocols_supported: Option<ProtocolsSupportedTlv>,
    pub area_addrs: Vec<AreaAddressesTlv>,
    pub neighbors: Vec<NeighborsTlv>,
    pub ipv4_addrs: Vec<Ipv4AddressesTlv>,
    pub ipv6_addrs: Vec<Ipv6AddressesTlv>,
    pub padding: Vec<PaddingTlv>,
    pub unknown: Vec<UnknownTlv>,
}

/// What a `Hello` stands for.
#[verifier::ext_equal]
pub struct HelloView {
    pub hdr: Header,
    pub circuit_type: LevelType,
    pub source: SystemId,
    pub holdtime: u16,
    pub variant: HelloVariant,
    pub tlvs: HelloTlvsView,
}

/// What a `HelloTlvs` stands for.
#[verifier::ext_equal]
pub struct HelloTlvsView {
    pub protocols_supported: Option<Seq<u8>>,
    pub area_addrs: Seq<Seq<Seq<u8>>>,
    pub neighbors: Seq<Seq<Seq<u8>>>,
    pub ipv4_addrs: Seq<Seq<Ipv4Addr>>,
    pub ipv6_addrs: Seq<Seq<Ipv6Addr>>,
    pub padding: Seq<PaddingTlv>,
    pub unknown: Seq<RawTlv>,
}

impl View for Hello {
    type V = HelloView;

    open spec fn view(&self) -> HelloView {
        HelloView {
            hdr: self.hdr,
            circuit_type: self.circuit_type,
            source: self.source,
            holdtime: self.holdtime,
            variant: self.variant,
            tlvs: self.tlvs@,
        }
    }
}

impl View for HelloTlvs {
    type V = HelloTlvsView;

    open spec fn view(&self) -> HelloTlvsView {
        HelloTlvsView {
            protocols_supported: opt_view(self.protocols_supported),
            area_addrs: views(self.area_addrs@),
            neighbors: views(self.neighbors@),
            ipv4_addrs: views(self.ipv4_addrs@),
            ipv6_addrs: views(self.ipv6_addrs@),
            padding: views(self.padding@),
            unknown: views(self.unknown@),
        }
    }
}

/// Whether a PDU type is that of a hello.
pub open spec fn is_hello(pdu_type: PduType) -> bool {
    pdu_type == PduType::HelloLanL1 || pdu_type == PduType::HelloLanL2 || pdu_type
        == PduType::HelloP2P
}

/// TLVs with the given contents, split as necessary.
pub open spec fn hello_tlvs(
    protocols_supported: Seq<u8>,
    area_addrs: Seq<Seq<u8>>,
    neighbors: Seq<Seq<u8>>,
    ipv4_addrs: Seq<Ipv4Addr>,
    ipv6_addrs: Seq<Ipv6Addr>,
) -> HelloTlvsView {
    HelloTlvsView {
        protocols_supported: Some(protocols_supported),
        area_addrs: split::<AreaAddr>(area_addrs),
        neighbors: split::<[u8; 6]>(neighbors),
        ipv4_addrs: split::<Ipv4Addr>(ipv4_addrs),
        ipv6_addrs: split::<Ipv6Addr>(ipv6_addrs),
        padding: Seq::empty(),
        unknown: Seq::empty(),
    }
}

impl HelloTlvsView {
    /// No TLVs.
    pub open spec fn none() -> HelloTlvsView {
        HelloTlvsView {
            protocols_supported: None,
            area_addrs: Seq::empty(),
            neighbors: Seq::empty(),
            ipv4_addrs: Seq::empty(),
            ipv6_addrs: Seq::empty(),
            padding: Seq::empty(),
            unknown: Seq::empty(),
        }
    }

    /// How the TLVs stand on the wire. Unknown ones are not sent.
    pub open spec fn wire(self) -> Seq<u8> {
        opt_wire::<ProtocolsSupportedTlv>(TlvType::ProtocolsSupported, self.protocols_supported)
            + (group_wire::<AreaAddressesTlv>(TlvType::AreaAddresses, self.area_addrs) + (
        group_wire::<NeighborsTlv>(TlvType::Neighbors, self.neighbors) + (group_wire::<
            Ipv4AddressesTlv,
        >(TlvType::Ipv4Addresses, self.ipv4_addrs) + (group_wire::<Ipv6AddressesTlv>(
            TlvType::Ipv6Addresses,
            self.ipv6_addrs,
        ) + group_wire::<PaddingTlv>(TlvType::Padding, self.padding)))))
    }

    /// Whether what is sent tells all there is: every TLV is valid, none is
    /// unknown, and no LAN addresses go to a point-to-point circuit.
    pub open spec fn valid(self, pdu_type: PduType) -> bool {
        &&& self.protocols_supported matches Some(t) ==> ProtocolsSupportedTlv::valid(t)
        &&& forall|i: int|
            0 <= i < self.area_addrs.len() ==> AreaAddressesTlv::valid(#[trigger] self.area_addrs[i])
        &&& forall|i: int|
            0 <= i < self.neighbors.len() ==> NeighborsTlv::valid(#[trigger] self.neighbors[i])
        &&& forall|i: int|
            0 <= i < self.ipv4_addrs.len() ==> Ipv4AddressesTlv::valid(#[trigger] self.ipv4_addrs[i])
        &&& forall|i: int|
            0 <= i < self.ipv6_addrs.len() ==> Ipv6AddressesTlv::valid(#[trigger] self.ipv6_addrs[i])
        &&& self.unknown.len() == 0
        &&& pdu_type == PduType::HelloP2P ==> self.neighbors.len() == 0
    }
}

/// The code of a circuit type.
pub open spec fn circuit_type_octet(t: LevelType) -> u8 {
    match t {
        LevelType::L1 => 1,
        LevelType::L2 => 2,
        LevelType::All => 3,
    }
}

/// The circuit type that an octet stands for, in its two least significant
/// bits: on a LAN one level must be that of the PDU.
pub open spec fn circuit_type_at(octet: u8, pdu_type: PduType) -> Option<LevelType> {
    if octet % 4 == 1 && pdu_type != PduType::HelloLanL2 {
        Some(LevelType::L1)
    } else if octet % 4 == 2 && pdu_type != PduType::HelloLanL1 {
        Some(LevelType::L2)
    } else if octet % 4 == 3 {
        Some(LevelType::All)
    } else {
        None
    }
}

impl HelloVariant {
    /// How the fields stand on the wire.
    pub open spec fn wire(self) -> Seq<u8> {
        match self {
            HelloVariant::Lan { priority, lan_id } => seq![priority] + lan_id.wire(),
            HelloVariant::P2P { local_circuit_id } => seq![local_circuit_id],
        }
    }

    /// The length of the fixed part of a hello with these fields.
    pub open spec fn fixed_len(self) -> u8 {
        match self {
            HelloVariant::Lan { priority, lan_id } => HELLO_HEADER_LEN_LAN,
            HelloVariant::P2P { local_circuit_id } => HELLO_HEADER_LEN_P2P,
        }
    }
}

impl HelloView {
    /// What precedes the length field.
    pub open spec fn head(self) -> Seq<u8> {
        header_wire(self.hdr) + seq![circuit_type_octet(self.circuit_type)] + self.source.wire()
            + be_bytes(self.holdtime as nat, 2)
    }

    /// What follows the length field.
    pub open spec fn tail(self) -> Seq<u8> {
        self.variant.wire() + self.tlvs.wire()
    }

    /// How the PDU stands on the wire.
    pub open spec fn wire(self) -> Seq<u8> {
        with_length(self.head(), self.tail())
    }

    /// Whether what is sent tells all there is, and would be accepted: type,
    /// circuit type and variant go together, the fields are in range, the
    /// length fits its field, and the TLVs are valid.
    pub open spec fn valid(self) -> bool {
        &&& is_hello(self.hdr.pdu_type)
        &&& circuit_type_at(circuit_type_octet(self.circuit_type), self.hdr.pdu_type) is Some
        &&& self.holdtime != 0
        &&& match self.variant {
            HelloVariant::Lan { priority, lan_id } => self.hdr.pdu_type != PduType::HelloP2P
                && priority < 0x80,
            HelloVariant::P2P { local_circuit_id } => self.hdr.pdu_type == PduType::HelloP2P,
        }
        &&& self.wire().len() < 0x1_0000
        &&& self.tlvs.valid(self.hdr.pdu_type)
    }
}

/// The PDU that `s` stands for, which is what follows the header in a packet
/// of the given length.
pub open spec fn hello_parse(hdr: Header, packet_len: nat, s: Seq<u8>) -> DecodeResult<HelloView> {
    let holdtime = be_field(s, 7, 2);
    let pdu_len = be_field(s, 9, 2);
    match circuit_type_at(s[0], hdr.pdu_type) {
        None => Err(DecodeError::InvalidHelloCircuitType((s[0] % 4) as u8)),
        Some(circuit_type) => if holdtime == 0 {
            Err(DecodeError::InvalidHelloHoldtime(0))
        } else if pdu_len != packet_len % 0x1_0000 {
            Err(DecodeError::InvalidPduLength(pdu_len as u16))
        } else {
            let p2p = hdr.pdu_type == PduType::HelloP2P;
            let variant = if p2p {
                HelloVariant::P2P { local_circuit_id: s[11] }
            } else {
                HelloVariant::Lan { priority: (s[11] % 0x80) as u8, lan_id: lan_id_at(s.skip(12)) }
            };
            match tlvs_parse::<HelloTlvs>(
                HelloTlvsView::none(),
                hdr.pdu_type,
                s.skip(
                    if p2p {
                        12
                    } else {
                        19
                    },
                ),
            ) {
                Ok(tlvs) => Ok(
                    HelloView {
                        hdr,
                        circuit_type,
                        source: system_id_at(s.skip(1)),
                        holdtime: holdtime as u16,
                        variant,
                        tlvs,
                    },
                ),
                Err(e) => Err(e),
            }
        },
    }
}

/// What decoding `s`, which is what follows the header in a packet of the given
/// length, leaves of it.
pub open spec fn hello_left(hdr: Header, packet_len: nat, s: Seq<u8>) -> Seq<u8> {
    if circuit_type_at(s[0], hdr.pdu_type) is None {
        s.skip(1)
    } else if be_field(s, 7, 2) == 0 {
        s.skip(9)
    } else if be_field(s, 9, 2) != packet_len % 0x1_0000 {
        s.skip(11)
    } else {
        tlvs_left::<HelloTlvs>(
            HelloTlvsView::none(),
            hdr.pdu_type,
            s.skip(fixed_len(hdr.pdu_type) - 8),
        )
    }
}

impl TlvSet for HelloTlvs {
    /// Of several TLVs of protocols the first one counts, and the others are
    /// not even looked at.
    open spec fn with(
        v: HelloTlvsView,
        pdu_type: PduType,
        tlv_type: u8,
        value: Seq<u8>,
    ) -> DecodeResult<HelloTlvsView> {
        let unknown = HelloTlvsView {
            unknown: v.unknown.push(RawTlv { tlv_type, length: value.len() as u8, value }),
            ..v
        };
        match TlvType::spec_from_u8(tlv_type) {
            Some(TlvType::AreaAddresses) => match AreaAddressesTlv::parse_value(value) {
                Ok(t) => Ok(HelloTlvsView { area_addrs: v.area_addrs.push(t), ..v }),
                Err(e) => Err(e),
            },
            Some(TlvType::Neighbors) => if pdu_type == PduType::HelloP2P {
                Ok(unknown)
            } else {
                match NeighborsTlv::parse_value(value) {
                    Ok(t) => Ok(HelloTlvsView { neighbors: v.neighbors.push(t), ..v }),
                    Err(e) => Err(e),
                }
            },
            Some(TlvType::Padding) => match PaddingTlv::parse_value(value) {
                Ok(t) => Ok(HelloTlvsView { padding: v.padding.push(t), ..v }),
                Err(e) => Err(e),
            },
            Some(TlvType::ProtocolsSupported) => if v.protocols_supported is Some {
                Ok(v)
            } else {
                match ProtocolsSupportedTlv::parse_value(value) {
                    Ok(t) => Ok(HelloTlvsView { protocols_supported: Some(t), ..v }),
                    Err(e) => Err(e),
                }
            },
            Some(TlvType::Ipv4Addresses) => match Ipv4AddressesTlv::parse_value(value) {
                Ok(t) => Ok(HelloTlvsView { ipv4_addrs: v.ipv4_addrs.push(t), ..v }),
                Err(e) => Err(e),
            },
            Some(TlvType::Ipv6Addresses) => match Ipv6AddressesTlv::parse_value(value) {
                Ok(t) => Ok(HelloTlvsView { ipv6_addrs: v.ipv6_addrs.push(t), ..v }),
                Err(e) => Err(e),
            },
            _ => Ok(unknown),
        }
    }

    fn add(&mut self, pdu_type: PduType, tlv_type: u8, tlv_len: u8, buf: &mut Bytes) -> (r:
        DecodeResult<()>) {
        let ghost v = self@;
        match TlvType::from_u8(tlv_type) {
            Some(TlvType::AreaAddresses) => {
                let tlv = match AreaAddressesTlv::decode(tlv_len, buf) {
                    Ok(tlv) => tlv,
                    Err(e) => return Err(e),
                };
                self.area_addrs.push(tlv);
                assert(self@.area_addrs =~= v.area_addrs.push(tlv@));
            },
            Some(TlvType::Neighbors) if pdu_type != PduType::HelloP2P => {
                let tlv = match NeighborsTlv::decode(tlv_len, buf) {
                    Ok(tlv) => tlv,
                    Err(e) => return Err(e),
                };
                self.neighbors.push(tlv);
                assert(self@.neighbors =~= v.neighbors.push(tlv@));
            },
            Some(TlvType::Padding) => {
                let tlv = match PaddingTlv::decode(tlv_len, buf) {
                    Ok(tlv) => tlv,
                    Err(e) => return Err(e),
                };
                self.padding.push(tlv);
                assert(self@.padding =~= v.padding.push(tlv@));
            },
            Some(TlvType::ProtocolsSupported) => {
                if self.protocols_supported.is_some() {
                    return Ok(());
                }
                let tlv = match ProtocolsSupportedTlv::decode(tlv_len, buf) {
                    Ok(tlv) => tlv,
                    Err(e) => return Err(e),
                };
                self.protocols_supported = Some(tlv);
            },
            Some(TlvType::Ipv4Addresses) => {
                let tlv = match Ipv4AddressesTlv::decode(tlv_len, buf) {
                    Ok(tlv) => tlv,
                    Err(e) => return Err(e),
                };
                self.ipv4_addrs.push(tlv);
                assert(self@.ipv4_addrs =~= v.ipv4_addrs.push(tlv@));
            },
            Some(TlvType::Ipv6Addresses) => {
                let tlv = match Ipv6AddressesTlv::decode(tlv_len, buf) {
                    Ok(tlv) => tlv,
                    Err(e) => return Err(e),
                };
                self.ipv6_addrs.push(tlv);
                assert(self@.ipv6_addrs =~= v.ipv6_addrs.push(tlv@));
            },
            _ => {
                // Save unknown top-level TLV.
                let tlv = UnknownTlv::new(tlv_type, tlv_len, buf.clone());
                self.unknown.push(tlv);
                assert(self@.unknown =~= v.unknown.push(tlv@));
            },
        }
        Ok(())
    }
}

/// How long a hello is.
proof fn lemma_hello_len(v: HelloView)
    ensures
        v.wire().len() == v.variant.fixed_len() + v.tlvs.wire().len(),
{
    v.source.lemma_wire(Seq::empty());
    if let HelloVariant::Lan { priority, lan_id } = v.variant {
        lan_id.lemma_wire(Seq::empty());
    }
    lemma_be_bytes_len(v.holdtime as nat, 2);
    lemma_be_bytes_len((v.head().len() + 2 + v.tail().len()) as nat % 0x1_0000, 2);
}

impl Hello {
    /// A hello for one level of a LAN, or for both levels of a point-to-point
    /// circuit.
    pub fn new(
        level_type: LevelType,
        circuit_type: LevelType,
        source: SystemId,
        holdtime: u16,
        variant: HelloVariant,
        tlvs: HelloTlvs,
    ) -> (r: Hello)
        ensures
            r@ == (HelloView {
                hdr: Header {
                    pdu_type: match level_type {
                        LevelType::L1 => PduType::HelloLanL1,
                        LevelType::L2 => PduType::HelloLanL2,
                        LevelType::All => PduType::HelloP2P,
                    },
                    max_area_addrs: 0,
                },
                circuit_type,
                source,
                holdtime,
                variant,
                tlvs: tlvs@,
            }),
            r@.wire().len() == variant.fixed_len() + tlvs@.wire().len(),
    {
        let pdu_type = match level_type {
            LevelType::L1 => PduType::HelloLanL1,
            LevelType::L2 => PduType::HelloLanL2,
            LevelType::All => PduType::HelloP2P,
        };
        let r = Hello { hdr: Header::new(pdu_type), circuit_type, source, holdtime, variant, tlvs };
        proof {
            lemma_hello_len(r@);
        }
        r
    }

    /// Decodes what follows the header of a hello.
    pub(crate) fn decode(hdr: Header, packet_len: usize, buf: &mut Bytes) -> (r: DecodeResult<
        Hello,
    >)
        requires
            is_hello(hdr.pdu_type),
            bytes_content(*old(buf)).len() + 8 >= fixed_len(hdr.pdu_type),
        ensures
            match r {
                Ok(hello) => hello_parse(hdr, packet_len as nat, bytes_content(*old(buf)))
                    == Ok::<HelloView, DecodeError>(hello@),
                Err(e) => hello_parse(hdr, packet_len as nat, bytes_content(*old(buf))) == Err::<
                    HelloView,
                    DecodeError,
                >(e),
            },
            bytes_content(*final(buf)) == hello_left(
                hdr,
                packet_len as nat,
                bytes_content(*old(buf)),
            ),
            r is Ok ==> bytes_content(*final(buf)) == tlvs_rest(
                bytes_content(*old(buf)).skip(fixed_len(hdr.pdu_type) - 8),
            ),
    {
        let ghost s = bytes_content(*buf);
        // Parse circuit type.
        let circuit_type = get_u8(buf) % 4;
        let circuit_type = match circuit_type {
            1 if hdr.pdu_type != PduType::HelloLanL2 => LevelType::L1,
            2 if hdr.pdu_type != PduType::HelloLanL1 => LevelType::L2,
            3 => LevelType::All,
            _ => return Err(DecodeError::InvalidHelloCircuitType(circuit_type)),
        };
        // Parse source ID.
        let source = SystemId::decode(buf);
        assert(bytes_content(*buf).take(2) =~= s.subrange(7, 9));
        // Parse holding time.
        let holdtime = get_u16(buf);
        assert(bytes_content(*buf) =~= s.skip(9));
        if holdtime == 0 {
            return Err(DecodeError::InvalidHelloHoldtime(holdtime));
        }
        assert(bytes_content(*buf).take(2) =~= s.subrange(9, 11));
        // Parse PDU length.
        let pdu_len = get_u16(buf);
        assert(bytes_content(*buf) =~= s.skip(11));
        if pdu_len != (packet_len % 0x1_0000) as u16 {
            return Err(DecodeError::InvalidPduLength(pdu_len));
        }

        // Parse custom fields.
        let variant = if hdr.pdu_type == PduType::HelloP2P {
            // Parse local circuit ID.
            let local_circuit_id = get_u8(buf);
            assert(bytes_content(*buf) =~= s.skip(12));
            HelloVariant::P2P { local_circuit_id }
        } else {
            // Parse priority.
            let priority = get_u8(buf) % 0x80;
            assert(bytes_content(*buf) =~= s.skip(12));
            // Parse LAN ID.
            let lan_id = LanId::decode(buf);
            assert(bytes_content(*buf) =~= s.skip(19));
            HelloVariant::Lan { priority, lan_id }
        };
        // Parse top-level TLVs.
        let mut tlvs = HelloTlvs::default();
        match decode_tlvs(&mut tlvs, hdr.pdu_type, buf) {
            Ok(_) => {},
            Err(e) => return Err(e),
        }
        Ok(Hello { hdr, circuit_type, source, holdtime, variant, tlvs })
    }

    /// How many octets the PDU takes on the wire, if they fit in the room.
    pub fn len_within(&self, room: usize) -> (r: Option<usize>)
        ensures
            r == (if self@.wire().len() <= room {
                Some(self@.wire().len() as usize)
            } else {
                None
            }),
    {
        proof {
            lemma_hello_len(self@);
        }
        let fixed: usize = match &self.variant {
            HelloVariant::Lan { .. } => HELLO_HEADER_LEN_LAN as usize,
            HelloVariant::P2P { .. } => HELLO_HEADER_LEN_P2P as usize,
        };
        if room < fixed {
            return None;
        }
        match self.tlvs.len_within(room - fixed) {
            Some(len) => Some(fixed + len),
            None => None,
        }
    }

    /// Encodes the PDU.
    pub(crate) fn encode(&self) -> (r: Bytes)
        requires
            self@.wire().len() <= isize::MAX,
        ensures
            bytes_content(r) == self@.wire(),
    {
        let ghost v = self@.tlvs;
        proof {
            self.source.lemma_wire(Seq::empty());
            lemma_be_bytes_len(self.holdtime as nat, 2);
            lemma_be_bytes_len((self@.head().len() + 2 + self@.tail().len()) as nat % 0x1_0000, 2);
            lemma_be_bytes_len(0, 2);
        }
        let mut buf = pdu_encode_start(&self.hdr);
        let circuit_type: u8 = match self.circuit_type {
            LevelType::L1 => 1,
            LevelType::L2 => 2,
            LevelType::All => 3,
        };
        put_u8(&mut buf, circuit_type);
        self.source.encode(&mut buf);
        put_u16(&mut buf, self.holdtime);
        assert(bytes_mut_content(buf) =~= self@.head());
        // The PDU length will be initialized later.
        let len_pos: usize = buf.len();
        put_u16(&mut buf, 0);
        let ghost start = bytes_mut_content(buf);
        match self.variant {
            HelloVariant::Lan { priority, lan_id } => {
                proof {
                    lan_id.lemma_wire(Seq::empty());
                }
                put_u8(&mut buf, priority);
                lan_id.encode(&mut buf);
            },
            HelloVariant::P2P { local_circuit_id } => {
                put_u8(&mut buf, local_circuit_id);
            },
        }
        let ghost body = bytes_mut_content(buf);
        assert(body =~= start + self.variant.wire());
        // Encode TLVs.
        self.tlvs.encode(&mut buf);
        proof {
            assert(bytes_mut_content(buf).take(len_pos as int) =~= self@.head());
            assert(bytes_mut_content(buf).skip(len_pos + 2) =~= self@.tail());
        }
        pdu_encode_end(buf, len_pos)
    }
}

impl Default for HelloTlvs {
    fn default() -> (r: HelloTlvs)
        ensures
            r@ == HelloTlvsView::none(),
            r@.wire().len() == 0,
    {
        let r = HelloTlvs {
            protocols_supported: None,
            area_addrs: Vec::new(),
            neighbors: Vec::new(),
            ipv4_addrs: Vec::new(),
            ipv6_addrs: Vec::new(),
            padding: Vec::new(),
            unknown: Vec::new(),
        };
        assert(r@ =~= HelloTlvsView::none());
        reveal(group_wire);
        r
    }
}

impl HelloTlvs {
    /// TLVs with the given contents, split as necessary.
    pub fn new(
        protocols_supported: Vec<u8>,
        area_addrs: Vec<AreaAddr>,
        neighbors: Vec<[u8; 6]>,
        ipv4_addrs: Vec<Ipv4Addr>,
        ipv6_addrs: Vec<Ipv6Addr>,
    ) -> (r: HelloTlvs)
        ensures
            r@ == hello_tlvs(
                protocols_supported@,
                views(area_addrs@),
                views(neighbors@),
                ipv4_addrs@,
                ipv6_addrs@,
            ),
    {
        proof {
            assert(views(protocols_supported@) =~= protocols_supported@);
            assert(views(ipv4_addrs@) =~= ipv4_addrs@);
            assert(views(ipv6_addrs@) =~= ipv6_addrs@);
        }
        HelloTlvs {
            protocols_supported: Some(EntriesTlv { list: protocols_supported }),
            area_addrs: tlv_entries_split(area_addrs),
            neighbors: tlv_entries_split(neighbors),
            ipv4_addrs: tlv_entries_split(ipv4_addrs),
            ipv6_addrs: tlv_entries_split(ipv6_addrs),
            ..HelloTlvs::default()
        }
    }

    /// How many octets the TLVs take on the wire, if they fit in the room.
    pub fn len_within(&self, room: usize) -> (r: Option<usize>)
        ensures
            r == (if self@.wire().len() <= room {
                Some(self@.wire().len() as usize)
            } else {
                None
            }),
    {
        let left: usize = room;
        let left: usize = match take_opt(TlvType::ProtocolsSupported, &self.protocols_supported, left) {
            Some(left) => left,
            None => return None,
        };
        let left: usize = match take_group(TlvType::AreaAddresses, &self.area_addrs, left) {
            Some(left) => left,
            None => return None,
        };
        let left: usize = match take_group(TlvType::Neighbors, &self.neighbors, left) {
            Some(left) => left,
            None => return None,
        };
        let left: usize = match take_group(TlvType::Ipv4Addresses, &self.ipv4_addrs, left) {
            Some(left) => left,
            None => return None,
        };
        let left: usize = match take_group(TlvType::Ipv6Addresses, &self.ipv6_addrs, left) {
            Some(left) => left,
            None => return None,
        };
        let left: usize = match take_group(TlvType::Padding, &self.padding, left) {
            Some(left) => left,
            None => return None,
        };
        Some(room - left)
    }

    /// Appends the TLVs to the buffer.
    fn encode(&self, buf: &mut BytesMut)
        requires
            bytes_mut_content(*old(buf)).len() + self@.wire().len() <= isize::MAX,
        ensures
            bytes_mut_content(*final(buf)) == bytes_mut_content(*old(buf)) + self@.wire(),
    {
        let ghost before = bytes_mut_content(*buf);
        encode_opt(TlvType::ProtocolsSupported, &self.protocols_supported, buf);
        encode_group(TlvType::AreaAddresses, &self.area_addrs, buf);
        encode_group(TlvType::Neighbors, &self.neighbors, buf);
        encode_group(TlvType::Ipv4Addresses, &self.ipv4_addrs, buf);
        encode_group(TlvType::Ipv6Addresses, &self.ipv6_addrs, buf);
        encode_group(TlvType::Padding, &self.padding, buf);
        assert(bytes_mut_content(*buf) =~= before + self@.wire());
    }

    /// Returns all area addresses from TLVs of type 1.
    pub fn area_addrs(&self) -> (r: Vec<&AreaAddr>)
        ensures
            r@.unref() == flatten(lists(self.area_addrs@)),
            views(r@.unref()) == flatten(self@.area_addrs),
    {
        all_entries(&self.area_addrs)
    }

    /// Returns all IS neighbors from TLVs of type 6.
    pub fn neighbors(&self) -> (r: Vec<&[u8; 6]>)
        ensures
            r@.unref() == flatten(lists(self.neighbors@)),
            views(r@.unref()) == flatten(self@.neighbors),
    {
        all_entries(&self.neighbors)
    }

    /// Returns all IPv4 addresses from TLVs of type 132.
    pub fn ipv4_addrs(&self) -> (r: Vec<&Ipv4Addr>)
        ensures
            r@.unref() == flatten(lists(self.ipv4_addrs@)),
            views(r@.unref()) == flatten(self@.ipv4_addrs),
    {
        all_entries(&self.ipv4_addrs)
    }

    /// Returns all IPv6 addresses from TLVs of type 232.
    pub fn ipv6_addrs(&self) -> (r: Vec<&Ipv6Addr>)
        ensures
            r@.unref() == flatten(lists(self.ipv6_addrs@)),
            views(r@.unref()) == flatten(self@.ipv6_addrs),
    {
        all_entries(&self.ipv6_addrs)
    }
}

/// Where the fields of a hello are found behind the header.
proof fn lemma_hello_layout(
    hdr: Seq<u8>,
    circuit_type: Seq<u8>,
    source: Seq<u8>,
    holdtime: Seq<u8>,
    len: Seq<u8>,
    tail: Seq<u8>,
)
    requires
        hdr.len() == 8,
        circuit_type.len() == 1,
        source.len() == 6,
        holdtime.len() == 2,
        len.len() == 2,
    ensures
        ({
            let s = ((hdr + circuit_type + source + holdtime) + len + tail).skip(8);
            &&& s.len() == 11 + tail.len()
            &&& s[0] == circuit_type[0]
            &&& s.skip(1) == source + s.skip(7)
            &&& s.subrange(7, 9) == holdtime
            &&& s.subrange(9, 11) == len
            &&& s.skip(11) == tail
        }),
{
    let s = ((hdr + circuit_type + source + holdtime) + len + tail).skip(8);
    assert(s.skip(1) =~= source + s.skip(7));
    assert(s.subrange(7, 9) =~= holdtime);
    assert(s.subrange(9, 11) =~= len);
    assert(s.skip(11) =~= tail);
}

/// A hello is read back from what follows its header.
pub proof fn lemma_hello_parse_wire(v: HelloView)
    requires
        v.valid(),
    ensures
        hello_parse(v.hdr, v.wire().len(), v.wire().skip(8)) == Ok::<HelloView, DecodeError>(v),
        v.wire().len() >= fixed_len(v.hdr.pdu_type),
{
    let s = v.wire().skip(8);
    let len = v.wire().len();
    let tail = v.tail();
    let tlvs = v.tlvs.wire();
    let len_octets = be_bytes((v.head().len() + 2 + v.tail().len()) as nat % 0x1_0000, 2);
    v.source.lemma_wire(s.skip(7));
    lemma_be_bytes_len(v.holdtime as nat, 2);
    lemma_be_bytes_len((v.head().len() + 2 + v.tail().len()) as nat % 0x1_0000, 2);
    lemma_pow256_values();
    lemma_be_uint_of_bytes(v.holdtime as nat, 2);
    lemma_be_uint_of_bytes(len, 2);
    lemma_hello_layout(
        header_wire(v.hdr),
        seq![circuit_type_octet(v.circuit_type)],
        v.source.wire(),
        be_bytes(v.holdtime as nat, 2),
        len_octets,
        tail,
    );
    assert(s[11] == s.skip(11)[0]);
    match v.variant {
        HelloVariant::Lan { priority, lan_id } => {
            lan_id.lemma_wire(s.skip(19));
            assert(s.skip(12) =~= tail.skip(1));
            assert(s.skip(19) =~= tail.skip(8));
            assert(tail.skip(8) =~= tlvs);
            assert(tail.skip(1) =~= lan_id.wire() + tail.skip(8));
        },
        HelloVariant::P2P { local_circuit_id } => {
            assert(s.skip(12) =~= tail.skip(1));
            assert(tail.skip(1) =~= tlvs);
        },
    }
    lemma_hello_tlvs_parse_wire(v.tlvs, v.hdr.pdu_type);
}

/// The TLVs of a hello are read back.
pub proof fn lemma_hello_tlvs_parse_wire(v: HelloTlvsView, pdu_type: PduType)
    requires
        v.valid(pdu_type),
    ensures
        tlvs_parse::<HelloTlvs>(HelloTlvsView::none(), pdu_type, v.wire()) == Ok::<
            HelloTlvsView,
            DecodeError,
        >(v),
{
    reveal(tlvs_parse);
    let w5 = group_wire::<PaddingTlv>(TlvType::Padding, v.padding) + Seq::empty();
    let w4 = group_wire::<Ipv6AddressesTlv>(TlvType::Ipv6Addresses, v.ipv6_addrs) + w5;
    let w3 = group_wire::<Ipv4AddressesTlv>(TlvType::Ipv4Addresses, v.ipv4_addrs) + w4;
    let w2 = group_wire::<NeighborsTlv>(TlvType::Neighbors, v.neighbors) + w3;
    let w1 = group_wire::<AreaAddressesTlv>(TlvType::AreaAddresses, v.area_addrs) + w2;
    assert(w5 =~= group_wire::<PaddingTlv>(TlvType::Padding, v.padding));
    let v0 = HelloTlvsView::none();
    let v1 = HelloTlvsView { protocols_supported: v.protocols_supported, ..v0 };
    let v2 = HelloTlvsView { area_addrs: v.area_addrs, ..v1 };
    let v3 = HelloTlvsView { neighbors: v.neighbors, ..v2 };
    let v4 = HelloTlvsView { ipv4_addrs: v.ipv4_addrs, ..v3 };
    let v5 = HelloTlvsView { ipv6_addrs: v.ipv6_addrs, ..v4 };
    lemma_parse_values::<ProtocolsSupportedTlv>();
    lemma_tlvs_parse_opt::<HelloTlvs, ProtocolsSupportedTlv>(
        pdu_type,
        TlvType::ProtocolsSupported,
        v.protocols_supported,
        w1,
        |o: Option<Seq<u8>>| HelloTlvsView { protocols_supported: o, ..v0 },
    );
    lemma_parse_values::<AreaAddressesTlv>();
    lemma_tlvs_parse_group::<HelloTlvs, AreaAddressesTlv>(
        pdu_type,
        TlvType::AreaAddresses,
        v.area_addrs,
        w2,
        |l: Seq<Seq<Seq<u8>>>| HelloTlvsView { area_addrs: l, ..v1 },
    );
    if pdu_type == PduType::HelloP2P {
        reveal(group_wire);
        assert(v.neighbors =~= Seq::empty());
        assert(w2 =~= w3);
    } else {
        lemma_parse_values::<NeighborsTlv>();
        lemma_tlvs_parse_group::<HelloTlvs, NeighborsTlv>(
            pdu_type,
            TlvType::Neighbors,
            v.neighbors,
            w3,
            |l: Seq<Seq<Seq<u8>>>| HelloTlvsView { neighbors: l, ..v2 },
        );
    }
    lemma_parse_values::<Ipv4AddressesTlv>();
    lemma_tlvs_parse_group::<HelloTlvs, Ipv4AddressesTlv>(
        pdu_type,
        TlvType::Ipv4Addresses,
        v.ipv4_addrs,
        w4,
        |l: Seq<Seq<Ipv4Addr>>| HelloTlvsView { ipv4_addrs: l, ..v3 },
    );
    lemma_parse_values::<Ipv6AddressesTlv>();
    lemma_tlvs_parse_group::<HelloTlvs, Ipv6AddressesTlv>(
        pdu_type,
        TlvType::Ipv6Addresses,
        v.ipv6_addrs,
        w5,
        |l: Seq<Seq<Ipv6Addr>>| HelloTlvsView { ipv6_addrs: l, ..v4 },
    );
    lemma_parse_values::<PaddingTlv>();
    lemma_tlvs_parse_group::<HelloTlvs, PaddingTlv>(
        pdu_type,
        TlvType::Padding,
        v.padding,
        Seq::empty(),
        |l: Seq<PaddingTlv>| HelloTlvsView { padding: l, ..v5 },
    );
    assert(HelloTlvsView { padding: v.padding, ..v5 } =~= v);
}

/// TLVs that were built from valid contents are valid: all of it is sent.
pub proof fn lemma_hello_tlvs_valid(
    protocols_supported: Seq<u8>,
    area_addrs: Seq<Seq<u8>>,
    neighbors: Seq<Seq<u8>>,
    ipv4_addrs: Seq<Ipv4Addr>,
    ipv6_addrs: Seq<Ipv6Addr>,
    pdu_type: PduType,
)
    requires
        protocols_supported.len() <= TLV_MAX_LEN,
        entries_fit::<AreaAddr>(area_addrs),
        entries_fit::<[u8; 6]>(neighbors),
        pdu_type == PduType::HelloP2P ==> neighbors.len() == 0,
    ensures
        hello_tlvs(protocols_supported, area_addrs, neighbors, ipv4_addrs, ipv6_addrs).valid(
            pdu_type,
        ),
{
    lemma_protocols_valid(protocols_supported);
    lemma_split_valid::<AreaAddr>(area_addrs);
    lemma_split_valid::<[u8; 6]>(neighbors);
    assert forall|i: int| 0 <= i < ipv4_addrs.len() implies Ipv4Addr::wire(
        #[trigger] ipv4_addrs[i],
    ).len() == 4 by {
        lemma_be_bytes_len(ipv4_addrs[i].bits as nat, 4);
    }
    lemma_split_valid::<Ipv4Addr>(ipv4_addrs);
    assert forall|i: int| 0 <= i < ipv6_addrs.len() implies Ipv6Addr::wire(
        #[trigger] ipv6_addrs[i],
    ).len() == 16 by {
        lemma_be_bytes_len(ipv6_addrs[i].bits as nat, 16);
    }
    lemma_split_valid::<Ipv6Addr>(ipv6_addrs);
}

/// The types of the TLVs that are understood in a hello. Neighbors are LAN
/// addresses, and are not understood on a point-to-point circuit.
pub open spec fn hello_tlv_types(p2p: bool) -> Set<u8> {
    if p2p {
        set![1, 8, 129, 132, 232]
    } else {
        set![1, 6, 8, 129, 132, 232]
    }
}

/// What decoding adds to the TLVs `v`.
#[verifier::rlimit(60)]
proof fn lemma_hello_tlvs_added(v: HelloTlvsView, pdu_type: PduType, s: Seq<u8>, w: HelloTlvsView)
    requires
        tlvs_parse::<HelloTlvs>(v, pdu_type, s) == Ok::<HelloTlvsView, DecodeError>(w),
    ensures
        grew::<AreaAddressesTlv>(v.area_addrs, w.area_addrs, values_of(raw_tlvs(s), 1)),
        grew::<Ipv4AddressesTlv>(v.ipv4_addrs, w.ipv4_addrs, values_of(raw_tlvs(s), 132)),
        grew::<Ipv6AddressesTlv>(v.ipv6_addrs, w.ipv6_addrs, values_of(raw_tlvs(s), 232)),
        grew::<PaddingTlv>(v.padding, w.padding, values_of(raw_tlvs(s), 8)),
        if pdu_type == PduType::HelloP2P {
            w.neighbors == v.neighbors
        } else {
            grew::<NeighborsTlv>(v.neighbors, w.neighbors, values_of(raw_tlvs(s), 6))
        },
        ({
            let values = values_of(raw_tlvs(s), 129);
            if v.protocols_supported is Some || values.len() == 0 {
                w.protocols_supported == v.protocols_supported
            } else {
                &&& ProtocolsSupportedTlv::parse_value(values[0]) is Ok
                &&& w.protocols_supported == Some(
                    ProtocolsSupportedTlv::parse_value(values[0]).unwrap(),
                )
            }
        }),
        w.unknown == v.unknown + others_of(
            raw_tlvs(s),
            hello_tlv_types(pdu_type == PduType::HelloP2P),
        ),
    decreases s.len(),
{
    reveal(tlvs_parse);
    let types = hello_tlv_types(pdu_type == PduType::HelloP2P);
    if s.len() < 2 {
        lemma_grew_not::<AreaAddressesTlv>(v.area_addrs);
        lemma_grew_not::<Ipv4AddressesTlv>(v.ipv4_addrs);
        lemma_grew_not::<Ipv6AddressesTlv>(v.ipv6_addrs);
        lemma_grew_not::<PaddingTlv>(v.padding);
        lemma_grew_not::<NeighborsTlv>(v.neighbors);
        assert(v.unknown + Seq::<RawTlv>::empty() =~= v.unknown);
    } else {
        let n = 2 + s[1];
        let value = s.subrange(2, n);
        let rest = s.skip(n);
        let t = RawTlv { tlv_type: s[0], length: s[1], value };
        let u = HelloTlvs::with(v, pdu_type, s[0], value).unwrap();
        lemma_hello_tlvs_added(u, pdu_type, rest, w);
        lemma_grew_step::<AreaAddressesTlv>(
            v.area_addrs,
            u.area_addrs,
            w.area_addrs,
            1,
            t,
            raw_tlvs(rest),
        );
        lemma_grew_step::<Ipv4AddressesTlv>(
            v.ipv4_addrs,
            u.ipv4_addrs,
            w.ipv4_addrs,
            132,
            t,
            raw_tlvs(rest),
        );
        lemma_grew_step::<Ipv6AddressesTlv>(
            v.ipv6_addrs,
            u.ipv6_addrs,
            w.ipv6_addrs,
            232,
            t,
            raw_tlvs(rest),
        );
        lemma_grew_step::<PaddingTlv>(v.padding, u.padding, w.padding, 8, t, raw_tlvs(rest));
        if pdu_type != PduType::HelloP2P {
            lemma_grew_step::<NeighborsTlv>(
                v.neighbors,
                u.neighbors,
                w.neighbors,
                6,
                t,
                raw_tlvs(rest),
            );
        }
        lemma_values_of(t, raw_tlvs(rest), 129);
        lemma_others_of(t, raw_tlvs(rest), types);
        if !types.contains(s[0]) {
            assert(u.unknown == v.unknown.push(t));
            assert(v.unknown.push(t) + others_of(raw_tlvs(rest), types) =~= v.unknown + (seq![t]
                + others_of(raw_tlvs(rest), types)));
        }
    }
}

/// Whatever the order of the TLVs, and whatever unknown ones are among them: if
/// decoding succeeds, each group holds the TLVs of its type, all of them and in
/// order of appearance; of the protocols the first TLV counts; and all other
/// TLVs are kept as they came. It fails only at a TLV that is cut off, or whose
/// value its type refuses, and at the first such TLV.
pub proof fn lemma_hello_tlvs_sorted(pdu_type: PduType, s: Seq<u8>)
    ensures
        match tlvs_parse::<HelloTlvs>(HelloTlvsView::none(), pdu_type, s) {
            Ok(v) => {
                let l = raw_tlvs(s);
                &&& whole_tlvs(s)
                &&& stand_for::<AreaAddressesTlv>(v.area_addrs, values_of(l, 1))
                &&& stand_for::<Ipv4AddressesTlv>(v.ipv4_addrs, values_of(l, 132))
                &&& stand_for::<Ipv6AddressesTlv>(v.ipv6_addrs, values_of(l, 232))
                &&& stand_for::<PaddingTlv>(v.padding, values_of(l, 8))
                &&& if pdu_type == PduType::HelloP2P {
                    v.neighbors.len() == 0
                } else {
                    stand_for::<NeighborsTlv>(v.neighbors, values_of(l, 6))
                }
                &&& match v.protocols_supported {
                    Some(protocols) => values_of(l, 129).len() > 0
                        && ProtocolsSupportedTlv::parse_value(values_of(l, 129)[0]) == Ok::<
                        Seq<u8>,
                        DecodeError,
                    >(protocols),
                    None => values_of(l, 129).len() == 0,
                }
                &&& v.unknown == others_of(l, hello_tlv_types(pdu_type == PduType::HelloP2P))
            },
            Err(e) => exists|n: int|
                {
                    let value = s.subrange(n + 2, n + 2 + s[n + 1]);
                    &&& 0 <= n <= s.len() - 2
                    &&& #[trigger] whole_tlvs(s.take(n))
                    &&& tlvs_rest(s.take(n)).len() == 0
                    &&& tlvs_parse::<HelloTlvs>(HelloTlvsView::none(), pdu_type, s.take(n)) is Ok
                    &&& if s.len() - n < 2 + s[n + 1] {
                        e == DecodeError::InvalidTlvLength(s[n + 1])
                    } else {
                        ||| s[n] == 1 && refused::<AreaAddressesTlv>(value, e)
                        ||| s[n] == 132 && refused::<Ipv4AddressesTlv>(value, e)
                        ||| s[n] == 232 && refused::<Ipv6AddressesTlv>(value, e)
                        ||| s[n] == 8 && refused::<PaddingTlv>(value, e)
                        ||| s[n] == 6 && pdu_type != PduType::HelloP2P && refused::<NeighborsTlv>(
                            value,
                            e,
                        )
                        ||| s[n] == 129 && values_of(raw_tlvs(s.take(n)), 129).len() == 0
                            && refused::<ProtocolsSupportedTlv>(value, e)
                    }
                },
        },
{
    let l = raw_tlvs(s);
    let types = hello_tlv_types(pdu_type == PduType::HelloP2P);
    match tlvs_parse::<HelloTlvs>(HelloTlvsView::none(), pdu_type, s) {
        Ok(v) => {
            lemma_accepted_whole::<HelloTlvs>(HelloTlvsView::none(), pdu_type, s);
            lemma_hello_tlvs_added(HelloTlvsView::none(), pdu_type, s, v);
            lemma_grew_from_none::<AreaAddressesTlv>(v.area_addrs, values_of(l, 1));
            lemma_grew_from_none::<Ipv4AddressesTlv>(v.ipv4_addrs, values_of(l, 132));
            lemma_grew_from_none::<Ipv6AddressesTlv>(v.ipv6_addrs, values_of(l, 232));
            lemma_grew_from_none::<PaddingTlv>(v.padding, values_of(l, 8));
            if pdu_type != PduType::HelloP2P {
                lemma_grew_from_none::<NeighborsTlv>(v.neighbors, values_of(l, 6));
            }
            assert(Seq::<RawTlv>::empty() + others_of(l, types) =~= others_of(l, types));
        },
        Err(e) => {
            let n = lemma_first_refused::<HelloTlvs>(HelloTlvsView::none(), pdu_type, s, e);
            let w = tlvs_parse::<HelloTlvs>(HelloTlvsView::none(), pdu_type, s.take(n)).unwrap();
            lemma_hello_tlvs_added(HelloTlvsView::none(), pdu_type, s.take(n), w);
            assert(whole_tlvs(s.take(n)));
        },
    }
}

/// All entries of a kind are those of all its TLVs, in order.
pub proof fn lemma_hello_contents(
    tlvs: HelloTlvs,
    area_addrs: Vec<&AreaAddr>,
    neighbors: Vec<&[u8; 6]>,
    ipv4_addrs: Vec<&Ipv4Addr>,
    ipv6_addrs: Vec<&Ipv6Addr>,
)
    requires
        call_ensures(HelloTlvs::area_addrs, (&tlvs,), area_addrs),
        call_ensures(HelloTlvs::neighbors, (&tlvs,), neighbors),
        call_ensures(HelloTlvs::ipv4_addrs, (&tlvs,), ipv4_addrs),
        call_ensures(HelloTlvs::ipv6_addrs, (&tlvs,), ipv6_addrs),
    ensures
        area_addrs@.unref() == flatten(lists(tlvs.area_addrs@)),
        neighbors@.unref() == flatten(lists(tlvs.neighbors@)),
        ipv4_addrs@.unref() == flatten(lists(tlvs.ipv4_addrs@)),
        ipv6_addrs@.unref() == flatten(lists(tlvs.ipv6_addrs@)),
{
}

/// What TLVs stand for is what their lists hold, one by one.
pub proof fn lemma_hello_tlvs_view(tlvs: HelloTlvs)
    ensures
        tlvs@.protocols_supported is Some <==> tlvs.protocols_supported is Some,
        tlvs.protocols_supported matches Some(tlv) ==> tlvs@.protocols_supported == Some(tlv@),
        tlvs@.area_addrs.len() == tlvs.area_addrs@.len(),
        forall|i: int|
            0 <= i < tlvs.area_addrs@.len() ==> #[trigger] tlvs@.area_addrs[i]
                == tlvs.area_addrs@[i]@,
        tlvs@.neighbors.len() == tlvs.neighbors@.len(),
        forall|i: int|
            0 <= i < tlvs.neighbors@.len() ==> #[trigger] tlvs@.neighbors[i] == tlvs.neighbors@[i]@,
        tlvs@.ipv4_addrs.len() == tlvs.ipv4_addrs@.len(),
        forall|i: int|
            0 <= i < tlvs.ipv4_addrs@.len() ==> #[trigger] tlvs@.ipv4_addrs[i]
                == tlvs.ipv4_addrs@[i]@,
        tlvs@.ipv6_addrs.len() == tlvs.ipv6_addrs@.len(),
        forall|i: int|
            0 <= i < tlvs.ipv6_addrs@.len() ==> #[trigger] tlvs@.ipv6_addrs[i]
                == tlvs.ipv6_addrs@[i]@,
        tlvs@.padding.len() == tlvs.padding@.len(),
        forall|i: int|
            0 <= i < tlvs.padding@.len() ==> #[trigger] tlvs@.padding[i] == tlvs.padding@[i]@,
        tlvs@.unknown.len() == tlvs.unknown@.len(),
        forall|i: int|
            0 <= i < tlvs.unknown@.len() ==> #[trigger] tlvs@.unknown[i] == tlvs.unknown@[i]@,
{
}

/// New TLVs hold exactly what they were made from, each kind by itself and in
/// order, split in as few TLVs as that takes. The TLV of protocols is always
/// there; there is no padding, and nothing is unknown.
pub proof fn lemma_new_hello_tlvs(
    protocols_supported: Vec<u8>,
    area_addrs: Vec<AreaAddr>,
    neighbors: Vec<[u8; 6]>,
    ipv4_addrs: Vec<Ipv4Addr>,
    ipv6_addrs: Vec<Ipv6Addr>,
    r: HelloTlvs,
)
    requires
        call_ensures(
            HelloTlvs::new,
            (protocols_supported, area_addrs, neighbors, ipv4_addrs, ipv6_addrs),
            r,
        ),
    ensures
        r@.protocols_supported == Some(protocols_supported@),
        r@.area_addrs == split::<AreaAddr>(views(area_addrs@)),
        flatten(r@.area_addrs) == views(area_addrs@),
        r@.neighbors == split::<[u8; 6]>(views(neighbors@)),
        flatten(r@.neighbors) == views(neighbors@),
        r@.ipv4_addrs == split::<Ipv4Addr>(views(ipv4_addrs@)),
        flatten(r@.ipv4_addrs) == views(ipv4_addrs@),
        r@.ipv6_addrs == split::<Ipv6Addr>(views(ipv6_addrs@)),
        flatten(r@.ipv6_addrs) == views(ipv6_addrs@),
        r@.padding.len() == 0,
        r@.unknown.len() == 0,
{
    assert(views(ipv4_addrs@) =~= ipv4_addrs@);
    assert(views(ipv6_addrs@) =~= ipv6_addrs@);
    lemma_split::<AreaAddr>(views(area_addrs@));
    lemma_split::<[u8; 6]>(views(neighbors@));
    lemma_split::<Ipv4Addr>(views(ipv4_addrs@));
    lemma_split::<Ipv6Addr>(views(ipv6_addrs@));
}

} // verus!
