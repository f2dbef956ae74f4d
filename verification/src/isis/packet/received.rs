//! What a received packet tells, octet by octet.

use bytes::Bytes;
use vstd::prelude::*;

use crate::isis::packet::consts::PduType;
use crate::isis::packet::entries::{
    AreaAddr, AreaAddressesTlv, Ipv4AddressesTlv, Ipv6AddressesTlv, LspEntriesTlv, LspEntry,
    NeighborsTlv, ProtocolsSupportedTlv,
};
use crate::isis::packet::error::{DecodeError, DecodeResult};
use crate::isis::packet::header::Header;
use crate::isis::packet::hello::{
    lemma_hello_tlvs_sorted, Hello, HelloTlvs, HelloTlvsView, HelloVariant,
};
use crate::isis::packet::id::{lan_id_at, lsp_id_at, system_id_at, LevelNumber};
use crate::isis::packet::lsp::Lsp;
use crate::isis::packet::lsp_tlvs::{lemma_lsp_tlvs_sorted, LspTlvs, LspTlvsView};
use crate::isis::packet::pdu::Pdu;
use crate::isis::packet::reach::{
    ExtIpv4Reach, ExtIpv4ReachTlv, ExtIsReach, ExtIsReachTlv, Ipv4Reach, Ipv4ReachTlv, Ipv6Reach,
    Ipv6ReachTlv, IsReach, IsReachTlv,
};
use crate::isis::packet::snp::{lemma_snp_tlvs_sorted, Snp, SnpTlvs, SnpTlvsView};
use crate::isis::packet::tlv::{
    list_parse, refused, tlvs_parse, whole_tlvs, LspBufferSizeTlv, PaddingTlv, TlvEntry,
};
use crate::utils::be::{lemma_be_fields, lemma_octet_bits};
use crate::utils::buf::bytes_content;
use crate::utils::clock::clock_reading;
use crate::utils::net::{Ipv4Addr, Ipv6Addr};

verus! {

/// The PDU type that an octet stands for, and the length of the fixed part of
/// such a PDU.
pub open spec fn type_and_len(octet: u8) -> Option<(PduType, int)> {
    if octet == 15 {
        Some((PduType::HelloLanL1, 27))
    } else if octet == 16 {
        Some((PduType::HelloLanL2, 27))
    } else if octet == 17 {
        Some((PduType::HelloP2P, 20))
    } else if octet == 18 {
        Some((PduType::LspL1, 27))
    } else if octet == 20 {
        Some((PduType::LspL2, 27))
    } else if octet == 24 {
        Some((PduType::CsnpL1, 33))
    } else if octet == 25 {
        Some((PduType::CsnpL2, 33))
    } else if octet == 26 {
        Some((PduType::PsnpL1, 17))
    } else if octet == 27 {
        Some((PduType::PsnpL2, 17))
    } else {
        None
    }
}

/// Whether the octets up to the ID length are in order.
pub open spec fn front_ok(s: Seq<u8>) -> bool {
    &&& s.len() >= 8
    &&& s[0] == 0x83
    &&& s[2] == 1
    &&& s[3] == 0 || s[3] == 6
}

/// Whether the header is in order, and the fixed part is all there.
pub open spec fn header_ok(s: Seq<u8>) -> bool {
    &&& front_ok(s)
    &&& type_and_len(s[4]) matches Some((pdu_type, len))
    &&& s[1] == len
    &&& s.len() >= len
    &&& s[5] == 1
}

/// Whether the packet is marked as a hello.
pub open spec fn hello_octet(octet: u8) -> bool {
    octet == 15 || octet == 16 || octet == 17
}

/// Whether the circuit type of a hello is one level or both, and not just the
/// other level of a LAN.
pub open spec fn circuit_ok(s: Seq<u8>) -> bool {
    &&& s[8] & 3 != 0
    &&& s[4] == 15 ==> s[8] & 3 != 2
    &&& s[4] == 16 ==> s[8] & 3 != 1
}

/// The length that a packet claims to have: its field stands behind the holding
/// time in a hello, and behind the header in all others.
pub open spec fn claimed_len(s: Seq<u8>) -> int {
    if hello_octet(s[4]) {
        0x100 * s[17] + s[18]
    } else {
        0x100 * s[8] + s[9]
    }
}

/// What is wrong with the TLVs of a packet, if anything: they follow the fixed
/// part.
pub open spec fn tlvs_refused(s: Seq<u8>) -> Option<DecodeError> {
    let (pdu_type, len) = type_and_len(s[4]).unwrap();
    if hello_octet(s[4]) {
        match tlvs_parse::<HelloTlvs>(HelloTlvsView::none(), pdu_type, s.skip(len)) {
            Ok(_) => None,
            Err(e) => Some(e),
        }
    } else if s[4] == 18 || s[4] == 20 {
        match tlvs_parse::<LspTlvs>(LspTlvsView::none(), pdu_type, s.skip(len)) {
            Ok(_) => None,
            Err(e) => Some(e),
        }
    } else {
        match tlvs_parse::<SnpTlvs>(SnpTlvsView::none(), pdu_type, s.skip(len)) {
            Ok(_) => None,
            Err(e) => Some(e),
        }
    }
}

/// Whether the fixed part of a packet is in order, and as long as it claims.
pub open spec fn fixed_ok(s: Seq<u8>) -> bool {
    &&& header_ok(s)
    &&& hello_octet(s[4]) ==> circuit_ok(s) && (s[15] != 0 || s[16] != 0)
    &&& claimed_len(s) == s.len() % 0x1_0000
}

proof fn lemma_packet_fields(s: Seq<u8>)
    requires
        header_ok(s),
    ensures
        ({
            let t = s.skip(8);
            let len = type_and_len(s[4]).unwrap().1;
            &&& t.len() == s.len() - 8
            &&& t.skip(len - 8) == s.skip(len)
        }),
{
    let len = type_and_len(s[4]).unwrap().1;
    assert(s.skip(8).skip(len - 8) =~= s.skip(len));
}

/// A packet is accepted exactly if its header is in order, its fixed part is all
/// there and in range, its length is the one it claims, and its TLVs are
/// accepted. If it is refused, the error names what is wrong with it, and
/// nothing in front of that is wrong.
#[verifier::rlimit(60)]
pub proof fn lemma_accepted_or_refused(buf: Bytes, r: DecodeResult<Pdu>)
    requires
        call_ensures(Pdu::decode, (buf,), r),
    ensures
        ({
            let s = bytes_content(buf);
            &&& r is Ok <==> fixed_ok(s) && tlvs_refused(s) is None
            &&& r matches Err(e) ==> match e {
                DecodeError::IncompletePdu => s.len() < 8 || {
                    &&& front_ok(s)
                    &&& type_and_len(s[4]) matches Some((pdu_type, len))
                    &&& s[1] == len
                    &&& s.len() < len
                },
                DecodeError::InvalidIrdpDiscriminator(x) => s.len() >= 8 && x == s[0] && x != 0x83,
                DecodeError::InvalidVersion(x) => s.len() >= 8 && s[0] == 0x83 && x != 1 && (x
                    == s[2] || (front_ok(s) && header_ok(s.update(5, 1)) && x == s[5])),
                DecodeError::InvalidIdLength(x) => s.len() >= 8 && s[0] == 0x83 && s[2] == 1 && x
                    == s[3] && x != 0 && x != 6,
                DecodeError::UnknownPduType(x) => front_ok(s) && x == s[4] && type_and_len(
                    x,
                ) is None,
                DecodeError::InvalidHeaderLength(x) => {
                    &&& front_ok(s)
                    &&& type_and_len(s[4]) matches Some((pdu_type, len))
                    &&& x == s[1]
                    &&& x != len
                },
                DecodeError::InvalidHelloCircuitType(x) => header_ok(s) && hello_octet(s[4]) && x
                    == s[8] & 3 && !circuit_ok(s),
                DecodeError::InvalidHelloHoldtime(x) => header_ok(s) && hello_octet(s[4])
                    && circuit_ok(s) && x == 0 && s[15] == 0 && s[16] == 0,
                DecodeError::InvalidPduLength(x) => header_ok(s) && x == claimed_len(s) && x
                    != s.len() % 0x1_0000 && (hello_octet(s[4]) ==> circuit_ok(s) && (s[15] != 0
                    || s[16] != 0)),
                _ => fixed_ok(s) && tlvs_refused(s) == Some(e),
            }
        }),
{
    let s = bytes_content(buf);
    if s.len() >= 8 {
        let t = s.skip(8);
        if front_ok(s) && type_and_len(s[4]) is Some {
            let u = s.update(5, 1);
            assert(u[0] == s[0] && u[1] == s[1] && u[2] == s[2] && u[3] == s[3] && u[4] == s[4]);
        }
        if header_ok(s) {
            lemma_packet_fields(s);
            lemma_octet_bits(s[8]);
            lemma_be_fields(t, 0);
            lemma_be_fields(t, 7);
            lemma_be_fields(t, 9);
            lemma_tlv_errors(s);
        }
    }
}

/// Whether an error is about a TLV.
pub open spec fn about_tlv(e: DecodeError) -> bool {
    e is InvalidTlvLength || e is InvalidAreaAddrLen || e is InvalidPrefixLen
}

proof fn lemma_list_errors<E: TlvEntry>(s: Seq<u8>, tlv_len: u8)
    requires
        forall|t: Seq<u8>|
            t.len() > 0 ==> (#[trigger] E::parse(t, tlv_len) matches Err(e) ==> about_tlv(e)),
    ensures
        list_parse::<E>(s, tlv_len) matches Err(e) ==> about_tlv(e),
    decreases s.len(),
{
    if s.len() > 0 {
        if let Ok((v, n)) = E::parse(s, tlv_len) {
            if 0 < n <= s.len() {
                lemma_list_errors::<E>(s.skip(n as int), tlv_len);
            }
        }
    }
}

/// Whether one of the types of TLVs refuses the value, for the given reason.
spec fn refused_by_some(value: Seq<u8>, e: DecodeError) -> bool {
    ||| refused::<ProtocolsSupportedTlv>(value, e)
    ||| refused::<AreaAddressesTlv>(value, e)
    ||| refused::<NeighborsTlv>(value, e)
    ||| refused::<Ipv4AddressesTlv>(value, e)
    ||| refused::<Ipv6AddressesTlv>(value, e)
    ||| refused::<LspEntriesTlv>(value, e)
    ||| refused::<IsReachTlv>(value, e)
    ||| refused::<ExtIsReachTlv>(value, e)
    ||| refused::<Ipv4ReachTlv>(value, e)
    ||| refused::<ExtIpv4ReachTlv>(value, e)
    ||| refused::<Ipv6ReachTlv>(value, e)
    ||| refused::<LspBufferSizeTlv>(value, e)
    ||| refused::<PaddingTlv>(value, e)
}

proof fn lemma_value_errors(value: Seq<u8>)
    ensures
        forall|e: DecodeError| #[trigger] refused_by_some(value, e) ==> about_tlv(e),
{
    let n = value.len() as u8;
    lemma_list_errors::<u8>(value.skip(0), n);
    lemma_list_errors::<AreaAddr>(value.skip(0), n);
    lemma_list_errors::<[u8; 6]>(value.skip(0), n);
    lemma_list_errors::<Ipv4Addr>(value.skip(0), n);
    lemma_list_errors::<Ipv6Addr>(value.skip(0), n);
    lemma_list_errors::<LspEntry>(value.skip(0), n);
    lemma_list_errors::<IsReach>(value.skip(1), n);
    lemma_list_errors::<ExtIsReach>(value.skip(0), n);
    lemma_list_errors::<Ipv4Reach>(value.skip(0), n);
    lemma_list_errors::<ExtIpv4Reach>(value.skip(0), n);
    lemma_list_errors::<Ipv6Reach>(value.skip(0), n);
}

proof fn lemma_tlv_errors(s: Seq<u8>)
    requires
        header_ok(s),
    ensures
        tlvs_refused(s) matches Some(e) ==> about_tlv(e),
{
    let (pdu_type, len) = type_and_len(s[4]).unwrap();
    let t = s.skip(len);
    if let Some(e) = tlvs_refused(s) {
        lemma_hello_tlvs_sorted(pdu_type, t);
        lemma_lsp_tlvs_sorted(pdu_type, t);
        lemma_snp_tlvs_sorted(pdu_type, t);
        let n = choose|n: int|
            {
                let value = t.subrange(n + 2, n + 2 + t[n + 1]);
                &&& #[trigger] whole_tlvs(t.take(n))
                &&& 0 <= n <= t.len() - 2
                &&& t.len() - n < 2 + t[n + 1] ==> e == DecodeError::InvalidTlvLength(t[n + 1])
                &&& t.len() - n >= 2 + t[n + 1] ==> refused_by_some(value, e)
            };
        lemma_value_errors(t.subrange(n + 2, n + 2 + t[n + 1]));
    }
}

/// What kind of PDU comes out is told by the type octet.
pub proof fn lemma_received_kind(buf: Bytes, pdu: Pdu)
    requires
        call_ensures(Pdu::decode, (buf,), Ok::<Pdu, DecodeError>(pdu)),
    ensures
        ({
            let octet = bytes_content(buf)[4];
            &&& pdu is Hello <==> octet == 15 || octet == 16 || octet == 17
            &&& pdu is Lsp <==> octet == 18 || octet == 20
            &&& pdu is Snp <==> octet == 24 || octet == 25 || octet == 26 || octet == 27
        }),
{
    lemma_accepted_or_refused(buf, Ok(pdu));
}

/// Where the fields of a received LSP come from.
pub proof fn lemma_received_lsp(buf: Bytes, lsp: Lsp)
    requires
        call_ensures(Pdu::decode, (buf,), Ok::<Pdu, DecodeError>(Pdu::Lsp(lsp))),
    ensures
        ({
            let s = bytes_content(buf);
            &&& type_and_len(s[4]) == Some((lsp.hdr.pdu_type, 27int))
            &&& lsp.hdr.max_area_addrs == s[7]
            &&& lsp.rem_lifetime == 0x100 * s[10] + s[11]
            &&& lsp.lsp_id.system_id.octets@ == s.subrange(12, 18)
            &&& lsp.lsp_id.pseudonode == s[18]
            &&& lsp.lsp_id.fragment == s[19]
            &&& lsp.seqno == 0x100_0000 * s[20] + 0x1_0000 * s[21] + 0x100 * s[22] + s[23]
            &&& lsp.cksum == 0x100 * s[24] + s[25]
            &&& lsp.flags.bits == s[26]
            &&& tlvs_parse::<LspTlvs>(LspTlvsView::none(), lsp.hdr.pdu_type, s.skip(27)) == Ok::<
                LspTlvsView,
                DecodeError,
            >(lsp.tlvs@)
            &&& bytes_content(lsp.raw).len() == 0
            &&& lsp.base_time matches Some(t) && clock_reading(t)
        }),
{
    let s = bytes_content(buf);
    let t = s.skip(8);
    lemma_accepted_or_refused(buf, Ok(Pdu::Lsp(lsp)));
    lemma_received_kind(buf, Pdu::Lsp(lsp));
    lemma_packet_fields(s);
    lemma_be_fields(t, 2);
    lemma_be_fields(t, 12);
    lemma_be_fields(t, 16);
    assert(lsp@.lsp_id == lsp_id_at(t.skip(4)));
    assert(lsp_id_at(t.skip(4)).system_id.octets@ =~= s.subrange(12, 18));
    assert(lsp@.rem_lifetime == lsp.rem_lifetime && lsp@.seqno == lsp.seqno);
    assert(lsp@.cksum == lsp.cksum && lsp@.flags == lsp.flags && lsp@.hdr == lsp.hdr);
    assert(lsp@.lsp_id == lsp.lsp_id && lsp@.tlvs == lsp.tlvs@);
    assert(lsp@.raw == bytes_content(lsp.raw));
}

/// Where the fields of a received hello come from. On a LAN the highest bit of
/// the priority is ignored.
pub proof fn lemma_received_hello(buf: Bytes, hello: Hello)
    requires
        call_ensures(Pdu::decode, (buf,), Ok::<Pdu, DecodeError>(Pdu::Hello(hello))),
    ensures
        ({
            let s = bytes_content(buf);
            let len = if s[4] == 17 {
                20int
            } else {
                27int
            };
            &&& type_and_len(s[4]) == Some((hello.hdr.pdu_type, len))
            &&& hello.hdr.max_area_addrs == s[7]
            &&& hello.circuit_type.has(LevelNumber::L1) <==> s[8] & 3 == 1 || s[8] & 3 == 3
            &&& hello.circuit_type.has(LevelNumber::L2) <==> s[8] & 3 == 2 || s[8] & 3 == 3
            &&& hello.source.octets@ == s.subrange(9, 15)
            &&& hello.holdtime == 0x100 * s[15] + s[16]
            &&& match hello.variant {
                HelloVariant::P2P { local_circuit_id } => s[4] == 17 && local_circuit_id == s[19],
                HelloVariant::Lan { priority, lan_id } => {
                    &&& s[4] != 17
                    &&& priority == s[19] & 0x7F
                    &&& lan_id.system_id.octets@ == s.subrange(20, 26)
                    &&& lan_id.pseudonode == s[26]
                },
            }
            &&& tlvs_parse::<HelloTlvs>(HelloTlvsView::none(), hello.hdr.pdu_type, s.skip(len))
                == Ok::<HelloTlvsView, DecodeError>(hello.tlvs@)
        }),
{
    let s = bytes_content(buf);
    let t = s.skip(8);
    lemma_accepted_or_refused(buf, Ok(Pdu::Hello(hello)));
    lemma_received_kind(buf, Pdu::Hello(hello));
    lemma_packet_fields(s);
    lemma_octet_bits(s[8]);
    lemma_octet_bits(s[19]);
    lemma_be_fields(t, 7);
    assert(hello@.source == system_id_at(t.skip(1)));
    assert(system_id_at(t.skip(1)).octets@ =~= s.subrange(9, 15));
    if s[4] != 17 {
        assert(lan_id_at(t.skip(12)).system_id.octets@ =~= s.subrange(20, 26));
    }
    assert(hello@.hdr == hello.hdr && hello@.circuit_type == hello.circuit_type);
    assert(hello@.source == hello.source && hello@.holdtime == hello.holdtime);
    assert(hello@.variant == hello.variant && hello@.tlvs == hello.tlvs@);
}

/// Where the fields of a received sequence numbers PDU come from. Only a complete
/// one has a summary.
pub proof fn lemma_received_snp(buf: Bytes, snp: Snp)
    requires
        call_ensures(Pdu::decode, (buf,), Ok::<Pdu, DecodeError>(Pdu::Snp(snp))),
    ensures
        ({
            let s = bytes_content(buf);
            let complete = s[4] == 24 || s[4] == 25;
            let len = if complete {
                33int
            } else {
                17int
            };
            &&& type_and_len(s[4]) == Some((snp.hdr.pdu_type, len))
            &&& snp.hdr.max_area_addrs == s[7]
            &&& snp.source.system_id.octets@ == s.subrange(10, 16)
            &&& snp.source.pseudonode == s[16]
            &&& match snp.summary {
                Some((start, end)) => {
                    &&& complete
                    &&& start.system_id.octets@ == s.subrange(17, 23)
                    &&& start.pseudonode == s[23]
                    &&& start.fragment == s[24]
                    &&& end.system_id.octets@ == s.subrange(25, 31)
                    &&& end.pseudonode == s[31]
                    &&& end.fragment == s[32]
                },
                None => !complete,
            }
            &&& tlvs_parse::<SnpTlvs>(SnpTlvsView::none(), snp.hdr.pdu_type, s.skip(len)) == Ok::<
                SnpTlvsView,
                DecodeError,
            >(snp.tlvs@)
        }),
{
    let s = bytes_content(buf);
    let t = s.skip(8);
    lemma_accepted_or_refused(buf, Ok(Pdu::Snp(snp)));
    lemma_received_kind(buf, Pdu::Snp(snp));
    lemma_packet_fields(s);
    assert(snp@.source == lan_id_at(t.skip(2)));
    assert(lan_id_at(t.skip(2)).system_id.octets@ =~= s.subrange(10, 16));
    if s[4] == 24 || s[4] == 25 {
        assert(lsp_id_at(t.skip(9)).system_id.octets@ =~= s.subrange(17, 23));
        assert(lsp_id_at(t.skip(17)).system_id.octets@ =~= s.subrange(25, 31));
    }
    assert(snp@.hdr == snp.hdr && snp@.source == snp.source);
    assert(snp@.summary == snp.summary && snp@.tlvs == snp.tlvs@);
}

/// A header that is decoded by itself is accepted or refused as that of a packet
/// is, and tells the type and the number of area addresses. It is used up, or as
/// much of it as it took to refuse it.
pub proof fn lemma_received_header(a: Bytes, b: Bytes, r: DecodeResult<Header>)
    requires
        exists|x: &mut Bytes| #[trigger]
            call_ensures(Header::decode, (x,), r) && *x == a && *final(x) == b,
    ensures
        ({
            let s = bytes_content(a);
            &&& r is Ok <==> header_ok(s)
            &&& r matches Ok(hdr) ==> {
                &&& type_and_len(s[4]) matches Some((pdu_type, len))
                &&& hdr.pdu_type == pdu_type
                &&& hdr.max_area_addrs == s[7]
                &&& bytes_content(b) == s.skip(8)
            }
            &&& r matches Err(e) ==> match e {
                DecodeError::IncompletePdu => (s.len() < 8 && bytes_content(b) == s) || {
                    &&& front_ok(s)
                    &&& type_and_len(s[4]) matches Some((pdu_type, len))
                    &&& s[1] == len
                    &&& s.len() < len
                    &&& bytes_content(b) == s.skip(5)
                },
                DecodeError::InvalidIrdpDiscriminator(x) => s.len() >= 8 && x == s[0] && x != 0x83
                    && bytes_content(b) == s.skip(1),
                DecodeError::InvalidVersion(x) => s.len() >= 8 && s[0] == 0x83 && x != 1 && ((x
                    == s[2] && bytes_content(b) == s.skip(3)) || (header_ok(s.update(5, 1)) && x
                    == s[5] && bytes_content(b) == s.skip(6))),
                DecodeError::InvalidIdLength(x) => s.len() >= 8 && s[0] == 0x83 && s[2] == 1 && x
                    == s[3] && x != 0 && x != 6 && bytes_content(b) == s.skip(4),
                DecodeError::UnknownPduType(x) => front_ok(s) && x == s[4] && type_and_len(
                    x,
                ) is None && bytes_content(b) == s.skip(5),
                DecodeError::InvalidHeaderLength(x) => {
                    &&& front_ok(s)
                    &&& type_and_len(s[4]) matches Some((pdu_type, len))
                    &&& x == s[1]
                    &&& x != len
                    &&& bytes_content(b) == s.skip(5)
                },
                _ => false,
            }
        }),
{
    let s = bytes_content(a);
    if s.len() >= 8 {
        let u = s.update(5, 1);
        assert(u[0] == s[0] && u[1] == s[1] && u[2] == s[2] && u[3] == s[3] && u[4] == s[4]);
    }
}

/// The fixed length of a type is the one that its packets have to claim.
pub proof fn lemma_fixed_lengths(pdu_type: PduType, n: u8, octet: u8, from: Option<PduType>)
    requires
        call_ensures(Header::fixed_header_length, (pdu_type,), n),
        call_ensures(PduType::as_u8, (pdu_type,), octet),
        call_ensures(PduType::from_u8, (octet,), from),
    ensures
        type_and_len(octet) == Some((pdu_type, n as int)),
        from == Some(pdu_type),
{
}

/// An octet that stands for no type is not taken for one.
pub proof fn lemma_types(octet: u8, r: Option<PduType>)
    requires
        call_ensures(PduType::from_u8, (octet,), r),
    ensures
        match r {
            Some(pdu_type) => type_and_len(octet) matches Some((t, len)) && t == pdu_type,
            None => type_and_len(octet) is None,
        },
{
}

} // verus!
