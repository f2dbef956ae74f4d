//! What is sent, octet by octet.

use bytes::Bytes;
use vstd::prelude::*;

use crate::isis::packet::consts::{PduType, TlvType};
use crate::isis::packet::entries::{
    AreaAddressesTlv, Ipv4AddressesTlv, Ipv6AddressesTlv, LspEntriesTlv, LspEntry, NeighborsTlv,
    ProtocolsSupportedTlv,
};
use crate::isis::packet::error::DecodeResult;
use crate::isis::packet::header::{header_wire, Header};
use crate::isis::packet::hello::{Hello, HelloTlvs, HelloTlvsView, HelloVariant, HelloView};
use crate::isis::packet::id::{LanId, LevelNumber, LevelType, LspId, SystemId};
use crate::isis::packet::lsp_tlvs::{LspTlvs, LspTlvsView};
use crate::isis::packet::pdu::{lemma_pdu_parse_wire, Pdu};
use crate::isis::packet::reach::{
    ExtIpv4ReachTlv, ExtIsReachTlv, Ipv4ReachTlv, Ipv6ReachTlv, IsReachTlv,
};
use crate::isis::packet::received::type_and_len;
use crate::isis::packet::snp::{Snp, SnpTlvs, SnpTlvsView, SnpView};
use crate::isis::packet::tlv::{
    group_wire, opt_wire, raw_tlvs, tlv_wire, LspBufferSizeTlv, PaddingTlv, RawTlv, Tlv,
    TLV_MAX_LEN,
};
use crate::utils::be::{lemma_be_bytes_2, lemma_be_bytes_len};
use crate::utils::buf::bytes_content;

verus! {

/// A header is eight octets: the discriminator, the length of the fixed part,
/// the version twice, the type, and the number of area addresses. The ID length
/// is given as zero, which stands for six, and what is reserved is zero.
pub proof fn lemma_header_octets(hdr: Header)
    ensures
        ({
            let s = header_wire(hdr);
            &&& s.len() == 8
            &&& s[0] == 0x83
            &&& type_and_len(s[4]) == Some((hdr.pdu_type, s[1] as int))
            &&& s[2] == 1
            &&& s[3] == 0
            &&& s[5] == 1
            &&& s[6] == 0
            &&& s[7] == hdr.max_area_addrs
        }),
{
}

/// Where the fields of a hello stand on the wire.
pub proof fn lemma_hello_octets(v: HelloView)
    ensures
        ({
            let s = v.wire();
            let len = match v.variant {
                HelloVariant::P2P { .. } => 20int,
                HelloVariant::Lan { .. } => 27int,
            };
            &&& s.len() == len + v.tlvs.wire().len()
            &&& s.take(8) == header_wire(v.hdr)
            &&& s[8] == (match v.circuit_type {
                LevelType::L1 => 1u8,
                LevelType::L2 => 2u8,
                LevelType::All => 3u8,
            })
            &&& s.subrange(9, 15) == v.source.octets@
            &&& 0x100 * s[15] + s[16] == v.holdtime
            &&& 0x100 * s[17] + s[18] == s.len() % 0x1_0000
            &&& match v.variant {
                HelloVariant::P2P { local_circuit_id } => s[19] == local_circuit_id,
                HelloVariant::Lan { priority, lan_id } => {
                    &&& s[19] == priority
                    &&& s.subrange(20, 26) == lan_id.system_id.octets@
                    &&& s[26] == lan_id.pseudonode
                },
            }
            &&& s.skip(len) == v.tlvs.wire()
        }),
{
    let s = v.wire();
    v.source.lemma_wire(Seq::empty());
    lemma_be_bytes_2(v.holdtime);
    lemma_be_bytes_2(((v.head().len() + 2 + v.tail().len()) as nat % 0x1_0000) as u16);
    if let HelloVariant::Lan { priority, lan_id } = v.variant {
        lan_id.lemma_wire(Seq::empty());
        lan_id.system_id.lemma_wire(Seq::empty());
        assert(s.subrange(20, 26) =~= lan_id.system_id.octets@);
        assert(s.skip(27) =~= v.tlvs.wire());
    } else {
        assert(s.skip(20) =~= v.tlvs.wire());
    }
    assert(s.take(8) =~= header_wire(v.hdr));
    assert(s.subrange(9, 15) =~= v.source.octets@);
}

/// Where the fields of a sequence numbers PDU stand on the wire.
pub proof fn lemma_snp_octets(v: SnpView)
    ensures
        ({
            let s = v.wire();
            let len = if v.summary is Some {
                33int
            } else {
                17int
            };
            &&& s.len() == len + v.tlvs.wire().len()
            &&& s.take(8) == header_wire(v.hdr)
            &&& 0x100 * s[8] + s[9] == s.len() % 0x1_0000
            &&& s.subrange(10, 16) == v.source.system_id.octets@
            &&& s[16] == v.source.pseudonode
            &&& v.summary matches Some((start, end)) ==> {
                &&& s.subrange(17, 23) == start.system_id.octets@
                &&& s[23] == start.pseudonode
                &&& s[24] == start.fragment
                &&& s.subrange(25, 31) == end.system_id.octets@
                &&& s[31] == end.pseudonode
                &&& s[32] == end.fragment
            }
            &&& s.skip(len) == v.tlvs.wire()
        }),
{
    let s = v.wire();
    v.source.lemma_wire(Seq::empty());
    v.source.system_id.lemma_wire(Seq::empty());
    lemma_be_bytes_2(((8 + 2 + v.tail().len()) as nat % 0x1_0000) as u16);
    if let Some((start, end)) = v.summary {
        start.lemma_wire(Seq::empty());
        start.system_id.lemma_wire(Seq::empty());
        end.lemma_wire(Seq::empty());
        end.system_id.lemma_wire(Seq::empty());
        assert(s.subrange(17, 23) =~= start.system_id.octets@);
        assert(s.subrange(25, 31) =~= end.system_id.octets@);
        assert(s.skip(33) =~= v.tlvs.wire());
    } else {
        assert(s.skip(17) =~= v.tlvs.wire());
    }
    assert(s.take(8) =~= header_wire(v.hdr));
    assert(s.subrange(10, 16) =~= v.source.system_id.octets@);
}

/// What goes out is what a hello or a sequence numbers PDU stands for on the
/// wire, and of an LSP its raw data. It is as long as was foretold.
pub proof fn lemma_encoded(pdu: Pdu, r: Bytes, len: Option<usize>, pdu_type: PduType)
    requires
        call_ensures(Pdu::encode, (&pdu,), r),
        call_ensures(Pdu::encoded_len, (&pdu,), len),
        call_ensures(Pdu::pdu_type, (&pdu,), pdu_type),
    ensures
        match pdu {
            Pdu::Hello(hello) => bytes_content(r) == hello@.wire() && pdu_type
                == hello.hdr.pdu_type,
            Pdu::Lsp(lsp) => bytes_content(r) == bytes_content(lsp.raw) && pdu_type
                == lsp.hdr.pdu_type,
            Pdu::Snp(snp) => bytes_content(r) == snp@.wire() && pdu_type == snp.hdr.pdu_type,
        },
        bytes_content(r).len() <= isize::MAX ==> len == Some(bytes_content(r).len() as usize),
        bytes_content(r).len() > isize::MAX ==> len is None,
{
}

/// The room that a PDU takes is the length of what it stands for on the wire,
/// and there is no answer only if that is more than there is.
pub proof fn lemma_len_within(
    hello: Hello,
    snp: Snp,
    room: usize,
    a: Option<usize>,
    b: Option<usize>,
)
    requires
        call_ensures(Hello::len_within, (&hello, room), a),
        call_ensures(Snp::len_within, (&snp, room), b),
    ensures
        a is Some <==> hello@.wire().len() <= room,
        a matches Some(n) ==> n == hello@.wire().len(),
        b is Some <==> snp@.wire().len() <= room,
        b matches Some(n) ==> n == snp@.wire().len(),
{
}

/// The same holds of the TLVs alone.
pub proof fn lemma_tlvs_len_within(
    hello: HelloTlvs,
    lsp: LspTlvs,
    snp: SnpTlvs,
    room: usize,
    a: Option<usize>,
    b: Option<usize>,
    c: Option<usize>,
)
    requires
        call_ensures(HelloTlvs::len_within, (&hello, room), a),
        call_ensures(LspTlvs::len_within, (&lsp, room), b),
        call_ensures(SnpTlvs::len_within, (&snp, room), c),
    ensures
        a is Some <==> hello@.wire().len() <= room,
        a matches Some(n) ==> n == hello@.wire().len(),
        b is Some <==> lsp@.wire().len() <= room,
        b matches Some(n) ==> n == lsp@.wire().len(),
        c is Some <==> snp@.wire().len() <= room,
        c matches Some(n) ==> n == snp@.wire().len(),
{
}

/// A new hello holds what it was made from. Its type is that of its level on a
/// LAN, and the one of point-to-point circuits for both levels.
pub proof fn lemma_new_hello(
    level_type: LevelType,
    circuit_type: LevelType,
    source: SystemId,
    holdtime: u16,
    variant: HelloVariant,
    tlvs: HelloTlvs,
    r: Hello,
)
    requires
        call_ensures(Hello::new, (level_type, circuit_type, source, holdtime, variant, tlvs), r),
    ensures
        r.hdr.pdu_type == PduType::HelloLanL1 <==> level_type == LevelType::L1,
        r.hdr.pdu_type == PduType::HelloLanL2 <==> level_type == LevelType::L2,
        r.hdr.pdu_type == PduType::HelloP2P <==> level_type == LevelType::All,
        r.hdr.max_area_addrs == 0,
        r.circuit_type == circuit_type,
        r.source == source,
        r.holdtime == holdtime,
        r.variant == variant,
        r.tlvs@ == tlvs@,
{
    assert(r@.hdr == r.hdr && r@.circuit_type == r.circuit_type && r@.source == r.source);
    assert(r@.holdtime == r.holdtime && r@.variant == r.variant && r@.tlvs == r.tlvs@);
}

/// A new sequence numbers PDU holds what it was made from. It is a complete one
/// exactly if it has a summary, of the level that it was made for.
pub proof fn lemma_new_snp(
    level: LevelNumber,
    source: LanId,
    summary: Option<(LspId, LspId)>,
    tlvs: SnpTlvs,
    r: Snp,
)
    requires
        call_ensures(Snp::new, (level, source, summary, tlvs), r),
    ensures
        r.hdr.pdu_type == PduType::CsnpL1 <==> summary is Some && level == LevelNumber::L1,
        r.hdr.pdu_type == PduType::CsnpL2 <==> summary is Some && level == LevelNumber::L2,
        r.hdr.pdu_type == PduType::PsnpL1 <==> summary is None && level == LevelNumber::L1,
        r.hdr.pdu_type == PduType::PsnpL2 <==> summary is None && level == LevelNumber::L2,
        r.hdr.max_area_addrs == 0,
        r.source == source,
        r.summary == summary,
        r.tlvs@ == tlvs@,
{
    assert(r@.hdr == r.hdr && r@.source == r.source);
    assert(r@.summary == r.summary && r@.tlvs == r.tlvs@);
}

/// Some TLVs of one type, as they stand on the wire.
pub open spec fn raws<T: Tlv>(tlv_type: u8, l: Seq<T::V>) -> Seq<RawTlv> {
    Seq::new(
        l.len(),
        |i: int|
            RawTlv { tlv_type, length: T::value(l[i]).len() as u8, value: T::value(l[i]) },
    )
}

/// A TLV that may be missing, as a list.
pub open spec fn opt_seq<A>(o: Option<A>) -> Seq<A> {
    match o {
        Some(a) => seq![a],
        None => Seq::empty(),
    }
}

/// Whether the value of every TLV fits in one.
pub open spec fn none_overfull<T: Tlv>(l: Seq<T::V>) -> bool {
    forall|i: int| 0 <= i < l.len() ==> T::value(#[trigger] l[i]).len() <= TLV_MAX_LEN
}

proof fn lemma_group_raws<T: Tlv>(tlv_type: TlvType, l: Seq<T::V>, rest: Seq<u8>)
    requires
        none_overfull::<T>(l),
    ensures
        raw_tlvs(group_wire::<T>(tlv_type, l) + rest) == raws::<T>(tlv_type.code(), l) + raw_tlvs(
            rest,
        ),
    decreases l.len(),
{
    reveal(group_wire);
    if l.len() == 0 {
        assert(group_wire::<T>(tlv_type, l) + rest =~= rest);
        assert(raws::<T>(tlv_type.code(), l) + raw_tlvs(rest) =~= raw_tlvs(rest));
    } else {
        let value = T::value(l[0]);
        let tail = l.skip(1);
        let c = tlv_type.code();
        let s = group_wire::<T>(tlv_type, l) + rest;
        let t = group_wire::<T>(tlv_type, tail) + rest;
        assert forall|i: int| 0 <= i < tail.len() implies T::value(#[trigger] tail[i]).len()
            <= TLV_MAX_LEN by {
            assert(tail[i] == l[i + 1]);
        }
        lemma_group_raws::<T>(tlv_type, tail, rest);
        assert(s =~= tlv_wire(c, value) + t);
        assert(s.subrange(2, 2 + s[1]) =~= value);
        assert(s.skip(2 + s[1]) =~= t);
        let first = RawTlv { tlv_type: c, length: value.len() as u8, value };
        assert(raws::<T>(c, l) =~= seq![first] + raws::<T>(c, tail));
        assert(seq![first] + (raws::<T>(c, tail) + raw_tlvs(rest)) =~= raws::<T>(c, l) + raw_tlvs(
            rest,
        ));
    }
}

proof fn lemma_opt_raws<T: Tlv>(tlv_type: TlvType, o: Option<T::V>, rest: Seq<u8>)
    requires
        none_overfull::<T>(opt_seq(o)),
    ensures
        raw_tlvs(opt_wire::<T>(tlv_type, o) + rest) == raws::<T>(tlv_type.code(), opt_seq(o))
            + raw_tlvs(rest),
{
    match o {
        Some(v) => {
            let value = T::value(v);
            assert(T::value(opt_seq(o)[0]).len() <= TLV_MAX_LEN);
            let s = opt_wire::<T>(tlv_type, o) + rest;
            assert(s.subrange(2, 2 + s[1]) =~= value);
            assert(s.skip(2 + s[1]) =~= rest);
            let first = RawTlv {
                tlv_type: tlv_type.code(),
                length: value.len() as u8,
                value,
            };
            assert(raws::<T>(tlv_type.code(), opt_seq(o)) =~= seq![first]);
        },
        None => {
            assert(opt_wire::<T>(tlv_type, o) + rest =~= rest);
            assert(raws::<T>(tlv_type.code(), opt_seq(o)) + raw_tlvs(rest) =~= raw_tlvs(rest));
        },
    }
}

/// The TLVs of an LSP go out group by group, each in order and under its own
/// type. Unknown ones do not go out.
pub proof fn lemma_lsp_tlvs_sent(v: LspTlvsView)
    requires
        none_overfull::<ProtocolsSupportedTlv>(opt_seq(v.protocols_supported)),
        none_overfull::<LspBufferSizeTlv>(opt_seq(v.lsp_buf_size)),
        none_overfull::<AreaAddressesTlv>(v.area_addrs),
        none_overfull::<IsReachTlv>(v.is_reach),
        none_overfull::<ExtIsReachTlv>(v.ext_is_reach),
        none_overfull::<Ipv4AddressesTlv>(v.ipv4_addrs),
        none_overfull::<Ipv4ReachTlv>(v.ipv4_internal_reach),
        none_overfull::<Ipv4ReachTlv>(v.ipv4_external_reach),
        none_overfull::<ExtIpv4ReachTlv>(v.ext_ipv4_reach),
        none_overfull::<Ipv6AddressesTlv>(v.ipv6_addrs),
        none_overfull::<Ipv6ReachTlv>(v.ipv6_reach),
    ensures
        raw_tlvs(v.wire()) == raws::<ProtocolsSupportedTlv>(129, opt_seq(v.protocols_supported)) + (
            raws::<AreaAddressesTlv>(1, v.area_addrs) + (
            raws::<LspBufferSizeTlv>(14, opt_seq(v.lsp_buf_size)) + (
            raws::<IsReachTlv>(2, v.is_reach) + (
            raws::<ExtIsReachTlv>(22, v.ext_is_reach) + (
            raws::<Ipv4AddressesTlv>(132, v.ipv4_addrs) + (
            raws::<Ipv4ReachTlv>(128, v.ipv4_internal_reach) + (
            raws::<Ipv4ReachTlv>(130, v.ipv4_external_reach) + (
            raws::<ExtIpv4ReachTlv>(135, v.ext_ipv4_reach) + (
            raws::<Ipv6AddressesTlv>(232, v.ipv6_addrs) + (
            raws::<Ipv6ReachTlv>(236, v.ipv6_reach))))))))))),
{
    let w11 = Seq::<u8>::empty();
    let w10 = group_wire::<Ipv6ReachTlv>(TlvType::Ipv6Reach, v.ipv6_reach) + w11;
    let w9 = group_wire::<Ipv6AddressesTlv>(TlvType::Ipv6Addresses, v.ipv6_addrs) + w10;
    let w8 = group_wire::<ExtIpv4ReachTlv>(TlvType::ExtIpv4Reach, v.ext_ipv4_reach) + w9;
    let w7 = group_wire::<Ipv4ReachTlv>(TlvType::Ipv4ExternalReach, v.ipv4_external_reach) + w8;
    let w6 = group_wire::<Ipv4ReachTlv>(TlvType::Ipv4InternalReach, v.ipv4_internal_reach) + w7;
    let w5 = group_wire::<Ipv4AddressesTlv>(TlvType::Ipv4Addresses, v.ipv4_addrs) + w6;
    let w4 = group_wire::<ExtIsReachTlv>(TlvType::ExtIsReach, v.ext_is_reach) + w5;
    let w3 = group_wire::<IsReachTlv>(TlvType::IsReach, v.is_reach) + w4;
    let w2 = opt_wire::<LspBufferSizeTlv>(TlvType::LspBufferSize, v.lsp_buf_size) + w3;
    let w1 = group_wire::<AreaAddressesTlv>(TlvType::AreaAddresses, v.area_addrs) + w2;
    let w0 = opt_wire::<ProtocolsSupportedTlv>(TlvType::ProtocolsSupported, v.protocols_supported) + w1;
    lemma_group_raws::<Ipv6ReachTlv>(TlvType::Ipv6Reach, v.ipv6_reach, w11);
    lemma_group_raws::<Ipv6AddressesTlv>(TlvType::Ipv6Addresses, v.ipv6_addrs, w10);
    lemma_group_raws::<ExtIpv4ReachTlv>(TlvType::ExtIpv4Reach, v.ext_ipv4_reach, w9);
    lemma_group_raws::<Ipv4ReachTlv>(TlvType::Ipv4ExternalReach, v.ipv4_external_reach, w8);
    lemma_group_raws::<Ipv4ReachTlv>(TlvType::Ipv4InternalReach, v.ipv4_internal_reach, w7);
    lemma_group_raws::<Ipv4AddressesTlv>(TlvType::Ipv4Addresses, v.ipv4_addrs, w6);
    lemma_group_raws::<ExtIsReachTlv>(TlvType::ExtIsReach, v.ext_is_reach, w5);
    lemma_group_raws::<IsReachTlv>(TlvType::IsReach, v.is_reach, w4);
    lemma_opt_raws::<LspBufferSizeTlv>(TlvType::LspBufferSize, v.lsp_buf_size, w3);
    lemma_group_raws::<AreaAddressesTlv>(TlvType::AreaAddresses, v.area_addrs, w2);
    lemma_opt_raws::<ProtocolsSupportedTlv>(TlvType::ProtocolsSupported, v.protocols_supported, w1);
    assert(v.wire() =~= w0);
    let last = raws::<Ipv6ReachTlv>(236, v.ipv6_reach);
    assert(last + raw_tlvs(w11) =~= last);
}

/// The TLVs of a hello go out group by group, each in order and under its own
/// type, padding last. Unknown ones do not go out.
pub proof fn lemma_hello_tlvs_sent(v: HelloTlvsView)
    requires
        none_overfull::<ProtocolsSupportedTlv>(opt_seq(v.protocols_supported)),
        none_overfull::<AreaAddressesTlv>(v.area_addrs),
        none_overfull::<NeighborsTlv>(v.neighbors),
        none_overfull::<Ipv4AddressesTlv>(v.ipv4_addrs),
        none_overfull::<Ipv6AddressesTlv>(v.ipv6_addrs),
        none_overfull::<PaddingTlv>(v.padding),
    ensures
        raw_tlvs(v.wire()) == raws::<ProtocolsSupportedTlv>(129, opt_seq(v.protocols_supported)) + (
            raws::<AreaAddressesTlv>(1, v.area_addrs) + (
            raws::<NeighborsTlv>(6, v.neighbors) + (
            raws::<Ipv4AddressesTlv>(132, v.ipv4_addrs) + (
            raws::<Ipv6AddressesTlv>(232, v.ipv6_addrs) + (
            raws::<PaddingTlv>(8, v.padding)))))),
{
    let w6 = Seq::<u8>::empty();
    let w5 = group_wire::<PaddingTlv>(TlvType::Padding, v.padding) + w6;
    let w4 = group_wire::<Ipv6AddressesTlv>(TlvType::Ipv6Addresses, v.ipv6_addrs) + w5;
    let w3 = group_wire::<Ipv4AddressesTlv>(TlvType::Ipv4Addresses, v.ipv4_addrs) + w4;
    let w2 = group_wire::<NeighborsTlv>(TlvType::Neighbors, v.neighbors) + w3;
    let w1 = group_wire::<AreaAddressesTlv>(TlvType::AreaAddresses, v.area_addrs) + w2;
    let w0 = opt_wire::<ProtocolsSupportedTlv>(TlvType::ProtocolsSupported, v.protocols_supported) + w1;
    lemma_group_raws::<PaddingTlv>(TlvType::Padding, v.padding, w6);
    lemma_group_raws::<Ipv6AddressesTlv>(TlvType::Ipv6Addresses, v.ipv6_addrs, w5);
    lemma_group_raws::<Ipv4AddressesTlv>(TlvType::Ipv4Addresses, v.ipv4_addrs, w4);
    lemma_group_raws::<NeighborsTlv>(TlvType::Neighbors, v.neighbors, w3);
    lemma_group_raws::<AreaAddressesTlv>(TlvType::AreaAddresses, v.area_addrs, w2);
    lemma_opt_raws::<ProtocolsSupportedTlv>(TlvType::ProtocolsSupported, v.protocols_supported, w1);
    assert(v.wire() =~= w0);
    let last = raws::<PaddingTlv>(8, v.padding);
    assert(last + raw_tlvs(w6) =~= last);
}

/// The LSP entries of a sequence numbers PDU go out in order. Unknown TLVs do
/// not go out.
pub proof fn lemma_snp_tlvs_sent(v: SnpTlvsView)
    requires
        none_overfull::<LspEntriesTlv>(v.lsp_entries),
    ensures
        raw_tlvs(v.wire()) == raws::<LspEntriesTlv>(9, v.lsp_entries),
{
    lemma_group_raws::<LspEntriesTlv>(TlvType::LspEntries, v.lsp_entries, Seq::empty());
    assert(v.wire() + Seq::<u8>::empty() =~= v.wire());
    assert(raws::<LspEntriesTlv>(9, v.lsp_entries) + raw_tlvs(Seq::empty()) =~= raws::<
        LspEntriesTlv,
    >(9, v.lsp_entries));
}

/// Without contents there are no TLVs, and nothing goes out.
pub proof fn lemma_no_tlvs(hello: HelloTlvs, lsp: LspTlvs, snp: SnpTlvs)
    requires
        call_ensures(<HelloTlvs as Default>::default, (), hello),
        call_ensures(<LspTlvs as Default>::default, (), lsp),
        call_ensures(<SnpTlvs as Default>::default, (), snp),
    ensures
        hello@.wire().len() == 0,
        hello@.unknown.len() == 0,
        lsp@.wire().len() == 0,
        lsp@.unknown.len() == 0,
        snp@.wire().len() == 0,
        snp@.unknown.len() == 0,
{
}

/// What one system sends, another receives: decoding gives back what was encoded,
/// if that tells all there is.
pub proof fn lemma_sent_is_received(pdu: Pdu, bytes: Bytes, r: DecodeResult<Pdu>)
    requires
        call_ensures(Pdu::encode, (&pdu,), bytes),
        call_ensures(Pdu::decode, (bytes,), r),
        pdu@.valid(),
    ensures
        match (pdu, r) {
            (Pdu::Hello(sent), Ok(Pdu::Hello(received))) => received@ == sent@,
            (Pdu::Snp(sent), Ok(Pdu::Snp(received))) => received@ == sent@,
            (Pdu::Lsp(sent), Ok(Pdu::Lsp(received))) => {
                &&& received.hdr == sent.hdr
                &&& received.rem_lifetime == sent.rem_lifetime
                &&& received.lsp_id == sent.lsp_id
                &&& received.seqno == sent.seqno
                &&& received.cksum == sent.cksum
                &&& received.flags == sent.flags
                &&& received.tlvs@ == sent.tlvs@
            },
            _ => false,
        },
{
    lemma_pdu_parse_wire(pdu@);
    if let Ok(Pdu::Lsp(received)) = r {
        let v = received@;
        assert(v.hdr == received.hdr && v.rem_lifetime == received.rem_lifetime);
        assert(v.lsp_id == received.lsp_id && v.seqno == received.seqno);
        assert(v.cksum == received.cksum && v.flags == received.flags);
        assert(v.tlvs == received.tlvs@);
    }
}

} // verus!
