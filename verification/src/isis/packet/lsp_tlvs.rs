//! The TLVs of link state PDUs.

use bytes::{Bytes, BytesMut};
use vstd::prelude::*;

use crate::isis::packet::consts::{PduType, TlvType};
use crate::isis::packet::entries::{
    lemma_protocols_valid, AreaAddr, AreaAddressesTlv, Ipv4AddressesTlv, Ipv6AddressesTlv,
    ProtocolsSupportedTlv,
};
use crate::isis::packet::error::{DecodeError, DecodeResult};
use crate::isis::packet::reach::{
    ExtIpv4Reach, ExtIpv4ReachTlv, ExtIpv4ReachView, ExtIsReach, ExtIsReachTlv, ExtIsReachView,
    Ipv4Reach, Ipv4ReachTlv, Ipv6Reach, Ipv6ReachTlv, Ipv6ReachView, IsReach, IsReachTlv,
};
use crate::isis::packet::tlv::{
    all_entries, encode_group, encode_opt, entries_fit, fit_count, fit_prefix, flatten, grew,
    group_len, group_wire, lemma_accepted_whole, lemma_first_refused, lemma_fit_count,
    lemma_grew_from_none, lemma_grew_not, lemma_grew_step, lemma_group_len, lemma_others_of,
    lemma_parse_values, lemma_split, lemma_split_valid, lemma_tlvs_parse_group,
    lemma_tlvs_parse_opt, lemma_values_of, lists, opt_view, opt_wire, others_of, raw_tlvs, refused,
    split, stand_for, take_group, take_opt, tlv_entries_split, tlv_len, tlv_take_max, tlvs_parse,
    tlvs_rest, values_of, views, whole_tlvs, EntriesTlv, LspBufferSizeTlv, RawTlv, Tlv, TlvSet,
    UnknownTlv, TLV_MAX_LEN,
};
use crate::utils::buf::bytes_mut_content;
use crate::utils::net::{Ipv4Addr, Ipv6Addr};

verus! {

/// The TLVs of an LSP.
#[derive(Clone, Debug, PartialEq, Eq)]
pub struct LspTlvs {
    pub protocols_supported: Option<ProtocolsSupportedTlv>,
    pub area_addrs: Vec<AreaAddressesTlv>,
    pub lsp_buf_size: Option<LspBufferSizeTlv>,
    pub is_reach: Vec<IsReachTlv>,
    pub ext_is_reach: Vec<ExtIsReachTlv>,
    pub ipv4_addrs: Vec<Ipv4AddressesTlv>,
    pub ipv4_internal_reach: Vec<Ipv4ReachTlv>,
    pub ipv4_external_reach: Vec<Ipv4ReachTlv>,
    pub ext_ipv4_reach: Vec<ExtIpv4ReachTlv>,
    pub ipv6_addrs: Vec<Ipv6AddressesTlv>,
    pub ipv6_reach: Vec<Ipv6ReachTlv>,
    pub unknown: Vec<UnknownTlv>,
}

/// What an `LspTlvs` stands for.
#[verifier::ext_equal]
pub struct LspTlvsView {
    pub protocols_supported: Option<Seq<u8>>,
    pub area_addrs: Seq<Seq<Seq<u8>>>,
    pub lsp_buf_size: Option<LspBufferSizeTlv>,
    pub is_reach: Seq<Seq<IsReach>>,
    pub ext_is_reach: Seq<Seq<ExtIsReachView>>,
    pub ipv4_addrs: Seq<Seq<Ipv4Addr>>,
    pub ipv4_internal_reach: Seq<Seq<Ipv4Reach>>,
    pub ipv4_external_reach: Seq<Seq<Ipv4Reach>>,
    pub ext_ipv4_reach: Seq<Seq<ExtIpv4ReachView>>,
    pub ipv6_addrs: Seq<Seq<Ipv6Addr>>,
    pub ipv6_reach: Seq<Seq<Ipv6ReachView>>,
    pub unknown: Seq<RawTlv>,
}

impl View for LspTlvs {
    type V = LspTlvsView;

    open spec fn view(&self) -> LspTlvsView {
        LspTlvsView {
            protocols_supported: opt_view(self.protocols_supported),
            area_addrs: views(self.area_addrs@),
            lsp_buf_size: opt_view(self.lsp_buf_size),
            is_reach: views(self.is_reach@),
            ext_is_reach: views(self.ext_is_reach@),
            ipv4_addrs: views(self.ipv4_addrs@),
            ipv4_internal_reach: views(self.ipv4_internal_reach@),
            ipv4_external_reach: views(self.ipv4_external_reach@),
            ext_ipv4_reach: views(self.ext_ipv4_reach@),
            ipv6_addrs: views(self.ipv6_addrs@),
            ipv6_reach: views(self.ipv6_reach@),
            unknown: views(self.unknown@),
        }
    }
}

/// Whether all TLVs of a group are valid.
pub open spec fn all_valid<T: Tlv>(l: Seq<T::V>) -> bool {
    forall|i: int| 0 <= i < l.len() ==> T::valid(#[trigger] l[i])
}

/// TLVs with the given contents, split as necessary.
pub open spec fn lsp_tlvs(
    protocols_supported: Seq<u8>,
    area_addrs: Seq<Seq<u8>>,
    lsp_buf_size: Option<u16>,
    is_reach: Seq<IsReach>,
    ext_is_reach: Seq<ExtIsReachView>,
    ipv4_addrs: Seq<Ipv4Addr>,
    ipv4_internal_reach: Seq<Ipv4Reach>,
    ipv4_external_reach: Seq<Ipv4Reach>,
    ext_ipv4_reach: Seq<ExtIpv4ReachView>,
    ipv6_addrs: Seq<Ipv6Addr>,
    ipv6_reach: Seq<Ipv6ReachView>,
) -> LspTlvsView {
    LspTlvsView {
        protocols_supported: Some(protocols_supported),
        area_addrs: split::<AreaAddr>(area_addrs),
        lsp_buf_size: match lsp_buf_size {
            Some(size) => Some(LspBufferSizeTlv { size }),
            None => None,
        },
        is_reach: split::<IsReach>(is_reach),
        ext_is_reach: split::<ExtIsReach>(ext_is_reach),
        ipv4_addrs: split::<Ipv4Addr>(ipv4_addrs),
        ipv4_internal_reach: split::<Ipv4Reach>(ipv4_internal_reach),
        ipv4_external_reach: split::<Ipv4Reach>(ipv4_external_reach),
        ext_ipv4_reach: split::<ExtIpv4Reach>(ext_ipv4_reach),
        ipv6_addrs: split::<Ipv6Addr>(ipv6_addrs),
        ipv6_reach: split::<Ipv6Reach>(ipv6_reach),
        unknown: Seq::empty(),
    }
}

impl LspTlvsView {
    /// No TLVs.
    pub open spec fn none() -> LspTlvsView {
        LspTlvsView {
            protocols_supported: None,
            area_addrs: Seq::empty(),
            lsp_buf_size: None,
            is_reach: Seq::empty(),
            ext_is_reach: Seq::empty(),
            ipv4_addrs: Seq::empty(),
            ipv4_internal_reach: Seq::empty(),
            ipv4_external_reach: Seq::empty(),
            ext_ipv4_reach: Seq::empty(),
            ipv6_addrs: Seq::empty(),
            ipv6_reach: Seq::empty(),
            unknown: Seq::empty(),
        }
    }

    /// How the TLVs stand on the wire, from those of the external prefixes on.
    pub open spec fn wire_rest(self) -> Seq<u8> {
        group_wire::<Ipv4ReachTlv>(TlvType::Ipv4ExternalReach, self.ipv4_external_reach) + (
        group_wire::<ExtIpv4ReachTlv>(TlvType::ExtIpv4Reach, self.ext_ipv4_reach) + (group_wire::<
            Ipv6AddressesTlv,
        >(TlvType::Ipv6Addresses, self.ipv6_addrs) + group_wire::<Ipv6ReachTlv>(
            TlvType::Ipv6Reach,
            self.ipv6_reach,
        )))
    }

    /// How the TLVs stand on the wire. Unknown ones are not sent.
    pub open spec fn wire(self) -> Seq<u8> {
        opt_wire::<ProtocolsSupportedTlv>(TlvType::ProtocolsSupported, self.protocols_supported)
            + (group_wire::<AreaAddressesTlv>(TlvType::AreaAddresses, self.area_addrs) + (
        opt_wire::<LspBufferSizeTlv>(TlvType::LspBufferSize, self.lsp_buf_size) + (group_wire::<
            IsReachTlv,
        >(TlvType::IsReach, self.is_reach) + (group_wire::<ExtIsReachTlv>(
            TlvType::ExtIsReach,
            self.ext_is_reach,
        ) + (group_wire::<Ipv4AddressesTlv>(TlvType::Ipv4Addresses, self.ipv4_addrs) + (
        group_wire::<Ipv4ReachTlv>(TlvType::Ipv4InternalReach, self.ipv4_internal_reach)
            + self.wire_rest()))))))
    }

    /// Whether what is sent tells all there is: every TLV is valid, and none is
    /// unknown.
    pub open spec fn valid(self) -> bool {
        &&& self.protocols_supported matches Some(t) ==> ProtocolsSupportedTlv::valid(t)
        &&& all_valid::<AreaAddressesTlv>(self.area_addrs)
        &&& all_valid::<IsReachTlv>(self.is_reach)
        &&& all_valid::<ExtIsReachTlv>(self.ext_is_reach)
        &&& all_valid::<Ipv4AddressesTlv>(self.ipv4_addrs)
        &&& all_valid::<Ipv4ReachTlv>(self.ipv4_internal_reach)
        &&& all_valid::<Ipv4ReachTlv>(self.ipv4_external_reach)
        &&& all_valid::<ExtIpv4ReachTlv>(self.ext_ipv4_reach)
        &&& all_valid::<Ipv6AddressesTlv>(self.ipv6_addrs)
        &&& all_valid::<Ipv6ReachTlv>(self.ipv6_reach)
        &&& self.unknown.len() == 0
    }
}

impl TlvSet for LspTlvs {
    /// Of several TLVs of protocols the first one counts, and the others are
    /// not even looked at. Of several buffer sizes the last one counts.
    open spec fn with(v: LspTlvsView, pdu_type: PduType, tlv_type: u8, value: Seq<u8>) -> DecodeResult<
        LspTlvsView,
    > {
        match TlvType::spec_from_u8(tlv_type) {
            Some(TlvType::AreaAddresses) => match AreaAddressesTlv::parse_value(value) {
                Ok(t) => Ok(LspTlvsView { area_addrs: v.area_addrs.push(t), ..v }),
                Err(e) => Err(e),
            },
            Some(TlvType::LspBufferSize) => match LspBufferSizeTlv::parse_value(value) {
                Ok(t) => Ok(LspTlvsView { lsp_buf_size: Some(t), ..v }),
                Err(e) => Err(e),
            },
            Some(TlvType::IsReach) => match IsReachTlv::parse_value(value) {
                Ok(t) => Ok(LspTlvsView { is_reach: v.is_reach.push(t), ..v }),
                Err(e) => Err(e),
            },
            Some(TlvType::ExtIsReach) => match ExtIsReachTlv::parse_value(value) {
                Ok(t) => Ok(LspTlvsView { ext_is_reach: v.ext_is_reach.push(t), ..v }),
                Err(e) => Err(e),
            },
            Some(TlvType::Ipv4InternalReach) => match Ipv4ReachTlv::parse_value(value) {
                Ok(t) => Ok(
                    LspTlvsView { ipv4_internal_reach: v.ipv4_internal_reach.push(t), ..v },
                ),
                Err(e) => Err(e),
            },
            Some(TlvType::ProtocolsSupported) => if v.protocols_supported is Some {
                Ok(v)
            } else {
                match ProtocolsSupportedTlv::parse_value(value) {
                    Ok(t) => Ok(LspTlvsView { protocols_supported: Some(t), ..v }),
                    Err(e) => Err(e),
                }
            },
            Some(TlvType::Ipv4ExternalReach) => match Ipv4ReachTlv::parse_value(value) {
                Ok(t) => Ok(
                    LspTlvsView { ipv4_external_reach: v.ipv4_external_reach.push(t), ..v },
                ),
                Err(e) => Err(e),
            },
            Some(TlvType::Ipv4Addresses) => match Ipv4AddressesTlv::parse_value(value) {
                Ok(t) => Ok(LspTlvsView { ipv4_addrs: v.ipv4_addrs.push(t), ..v }),
                Err(e) => Err(e),
            },
            Some(TlvType::ExtIpv4Reach) => match ExtIpv4ReachTlv::parse_value(value) {
                Ok(t) => Ok(LspTlvsView { ext_ipv4_reach: v.ext_ipv4_reach.push(t), ..v }),
                Err(e) => Err(e),
            },
            Some(TlvType::Ipv6Addresses) => match Ipv6AddressesTlv::parse_value(value) {
                Ok(t) => Ok(LspTlvsView { ipv6_addrs: v.ipv6_addrs.push(t), ..v }),
                Err(e) => Err(e),
            },
            Some(TlvType::Ipv6Reach) => match Ipv6ReachTlv::parse_value(value) {
                Ok(t) => Ok(LspTlvsView { ipv6_reach: v.ipv6_reach.push(t), ..v }),
                Err(e) => Err(e),
            },
            _ => Ok(
                LspTlvsView {
                    unknown: v.unknown.push(RawTlv { tlv_type, length: value.len() as u8, value }),
                    ..v
                },
            ),
        }
    }

    fn add(&mut self, pdu_type: PduType, tlv_type: u8, tlv_len: u8, buf: &mut Bytes) -> (r:
        DecodeResult<()>) {
        let ghost v = self@;
        match TlvType::from_u8(tlv_type) {
            Some(TlvType::AreaAddresses) => {
                let tlv = match AreaAddressesTlv::decode(tlv_len, buf) {
                    Ok(tlv) => tlv,
                    Err(e) => return Err(e),
                };
                self.area_addrs.push(tlv);
                assert(self@.area_addrs =~= v.area_addrs.push(tlv@));
            },
            Some(TlvType::LspBufferSize) => {
                let tlv = match LspBufferSizeTlv::decode(tlv_len, buf) {
                    Ok(tlv) => tlv,
                    Err(e) => return Err(e),
                };
                self.lsp_buf_size = Some(tlv);
            },
            Some(TlvType::IsReach) => {
                let tlv = match IsReachTlv::decode(tlv_len, buf) {
                    Ok(tlv) => tlv,
                    Err(e) => return Err(e),
                };
                self.is_reach.push(tlv);
                assert(self@.is_reach =~= v.is_reach.push(tlv@));
            },
            Some(TlvType::ExtIsReach) => {
                let tlv = match ExtIsReachTlv::decode(tlv_len, buf) {
                    Ok(tlv) => tlv,
                    Err(e) => return Err(e),
                };
                self.ext_is_reach.push(tlv);
                assert(self@.ext_is_reach =~= v.ext_is_reach.push(tlv@));
            },
            Some(TlvType::Ipv4InternalReach) => {
                let tlv = match Ipv4ReachTlv::decode(tlv_len, buf) {
                    Ok(tlv) => tlv,
                    Err(e) => return Err(e),
                };
                self.ipv4_internal_reach.push(tlv);
                assert(self@.ipv4_internal_reach =~= v.ipv4_internal_reach.push(tlv@));
            },
            Some(TlvType::ProtocolsSupported) => {
                if self.protocols_supported.is_some() {
                    return Ok(());
                }
                let tlv = match ProtocolsSupportedTlv::decode(tlv_len, buf) {
                    Ok(tlv) => tlv,
                    Err(e) => return Err(e),
                };
                self.protocols_supported = Some(tlv);
            },
            Some(TlvType::Ipv4ExternalReach) => {
                let tlv = match Ipv4ReachTlv::decode(tlv_len, buf) {
                    Ok(tlv) => tlv,
                    Err(e) => return Err(e),
                };
                self.ipv4_external_reach.push(tlv);
                assert(self@.ipv4_external_reach =~= v.ipv4_external_reach.push(tlv@));
            },
            Some(TlvType::Ipv4Addresses) => {
                let tlv = match Ipv4AddressesTlv::decode(tlv_len, buf) {
                    Ok(tlv) => tlv,
                    Err(e) => return Err(e),
                };
                self.ipv4_addrs.push(tlv);
                assert(self@.ipv4_addrs =~= v.ipv4_addrs.push(tlv@));
            },
            Some(TlvType::ExtIpv4Reach) => {
                let tlv = match ExtIpv4ReachTlv::decode(tlv_len, buf) {
                    Ok(tlv) => tlv,
                    Err(e) => return Err(e),
                };
                self.ext_ipv4_reach.push(tlv);
                assert(self@.ext_ipv4_reach =~= v.ext_ipv4_reach.push(tlv@));
            },
            Some(TlvType::Ipv6Addresses) => {
                let tlv = match Ipv6AddressesTlv::decode(tlv_len, buf) {
                    Ok(tlv) => tlv,
                    Err(e) => return Err(e),
                };
                self.ipv6_addrs.push(tlv);
                assert(self@.ipv6_addrs =~= v.ipv6_addrs.push(tlv@));
            },
            Some(TlvType::Ipv6Reach) => {
                let tlv = match Ipv6ReachTlv::decode(tlv_len, buf) {
                    Ok(tlv) => tlv,
                    Err(e) => return Err(e),
                };
                self.ipv6_reach.push(tlv);
                assert(self@.ipv6_reach =~= v.ipv6_reach.push(tlv@));
            },
            _ => {
                // Save unknown top-level TLV.
                let tlv = UnknownTlv::new(tlv_type, tlv_len, buf.clone());
                self.unknown.push(tlv);
                assert(self@.unknown =~= v.unknown.push(tlv@));
            },
        }
        Ok(())
    }
}

/// How many octets a TLV that may be missing takes.
pub open spec fn opt_len<T: Tlv>(o: Option<T::V>) -> int {
    match o {
        Some(v) => tlv_len::<T>(v) as int,
        None => 0,
    }
}

/// The leading TLVs of a group that fit in the room.
pub open spec fn fit<T: Tlv>(l: Seq<T::V>, room: int) -> Seq<T::V> {
    l.take(fit_count::<T>(l, room as nat) as int)
}

impl LspTlvsView {
    /// The TLVs that the next chunk of at most `max_len` octets takes, and how
    /// many octets of room it leaves: group by group as many as fit.
    pub open spec fn chunk(self, max_len: int) -> (LspTlvsView, int) {
        let room = max_len - opt_len::<ProtocolsSupportedTlv>(self.protocols_supported);
        let area_addrs = fit::<AreaAddressesTlv>(self.area_addrs, room);
        let room = room - group_len::<AreaAddressesTlv>(area_addrs);
        let room = room - opt_len::<LspBufferSizeTlv>(self.lsp_buf_size);
        let is_reach = fit::<IsReachTlv>(self.is_reach, room);
        let room = room - group_len::<IsReachTlv>(is_reach);
        let ext_is_reach = fit::<ExtIsReachTlv>(self.ext_is_reach, room);
        let room = room - group_len::<ExtIsReachTlv>(ext_is_reach);
        let ipv4_addrs = fit::<Ipv4AddressesTlv>(self.ipv4_addrs, room);
        let room = room - group_len::<Ipv4AddressesTlv>(ipv4_addrs);
        let ipv4_internal_reach = fit::<Ipv4ReachTlv>(self.ipv4_internal_reach, room);
        let room = room - group_len::<Ipv4ReachTlv>(ipv4_internal_reach);
        let ipv4_external_reach = fit::<Ipv4ReachTlv>(self.ipv4_external_reach, room);
        let room = room - group_len::<Ipv4ReachTlv>(ipv4_external_reach);
        let ext_ipv4_reach = fit::<ExtIpv4ReachTlv>(self.ext_ipv4_reach, room);
        let room = room - group_len::<ExtIpv4ReachTlv>(ext_ipv4_reach);
        let ipv6_addrs = fit::<Ipv6AddressesTlv>(self.ipv6_addrs, room);
        let room = room - group_len::<Ipv6AddressesTlv>(ipv6_addrs);
        let ipv6_reach = fit::<Ipv6ReachTlv>(self.ipv6_reach, room);
        let room = room - group_len::<Ipv6ReachTlv>(ipv6_reach);
        (
            LspTlvsView {
                protocols_supported: self.protocols_supported,
                area_addrs,
                lsp_buf_size: self.lsp_buf_size,
                is_reach,
                ext_is_reach,
                ipv4_addrs,
                ipv4_internal_reach,
                ipv4_external_reach,
                ext_ipv4_reach,
                ipv6_addrs,
                ipv6_reach,
                unknown: Seq::empty(),
            },
            room,
        )
    }

    /// Whether a chunk has room for the TLVs that are in no group.
    pub open spec fn singles_fit(self, max_len: int) -> bool {
        let room = max_len - opt_len::<ProtocolsSupportedTlv>(self.protocols_supported);
        let area_addrs = fit::<AreaAddressesTlv>(self.area_addrs, room);
        &&& room >= 0
        &&& room - group_len::<AreaAddressesTlv>(area_addrs) >= opt_len::<LspBufferSizeTlv>(
            self.lsp_buf_size,
        )
    }

    /// The TLVs that are left once those of `c` are taken off the start of
    /// each group. Unknown ones stay.
    pub open spec fn without(self, c: LspTlvsView) -> LspTlvsView {
        LspTlvsView {
            protocols_supported: None,
            area_addrs: self.area_addrs.skip(c.area_addrs.len() as int),
            lsp_buf_size: None,
            is_reach: self.is_reach.skip(c.is_reach.len() as int),
            ext_is_reach: self.ext_is_reach.skip(c.ext_is_reach.len() as int),
            ipv4_addrs: self.ipv4_addrs.skip(c.ipv4_addrs.len() as int),
            ipv4_internal_reach: self.ipv4_internal_reach.skip(c.ipv4_internal_reach.len() as int),
            ipv4_external_reach: self.ipv4_external_reach.skip(c.ipv4_external_reach.len() as int),
            ext_ipv4_reach: self.ext_ipv4_reach.skip(c.ext_ipv4_reach.len() as int),
            ipv6_addrs: self.ipv6_addrs.skip(c.ipv6_addrs.len() as int),
            ipv6_reach: self.ipv6_reach.skip(c.ipv6_reach.len() as int),
            unknown: self.unknown,
        }
    }
}

/// `tlv_take_max`, told in terms of what the TLVs stand for.
fn take_max<T: Tlv>(tlvs: &mut Vec<T>, rem_len: &mut usize) -> (r: Vec<T>)
    ensures
        views(r@) == fit::<T>(views(old(tlvs)@), *old(rem_len) as int),
        views(final(tlvs)@) == views(old(tlvs)@).skip(r@.len() as int),
        *final(rem_len) == *old(rem_len) - group_len::<T>(views(r@)),
{
    let ghost l = views(tlvs@);
    let r = tlv_take_max(tlvs, rem_len);
    proof {
        lemma_fit_count::<T>(l, *old(rem_len) as nat);
        assert(views(r@) =~= l.take(r@.len() as int));
        assert(views(tlvs@) =~= l.skip(r@.len() as int));
    }
    r
}

impl Default for LspTlvs {
    fn default() -> (r: LspTlvs)
        ensures
            r@ == LspTlvsView::none(),
            r@.wire().len() == 0,
    {
        let r = LspTlvs {
            protocols_supported: None,
            area_addrs: Vec::new(),
            lsp_buf_size: None,
            is_reach: Vec::new(),
            ext_is_reach: Vec::new(),
            ipv4_addrs: Vec::new(),
            ipv4_internal_reach: Vec::new(),
            ipv4_external_reach: Vec::new(),
            ext_ipv4_reach: Vec::new(),
            ipv6_addrs: Vec::new(),
            ipv6_reach: Vec::new(),
            unknown: Vec::new(),
        };
        assert(r@ =~= LspTlvsView::none());
        reveal(group_wire);
        r
    }
}

impl LspTlvs {
    /// TLVs with the given contents, split as necessary.
    pub fn new(
        protocols_supported: Vec<u8>,
        area_addrs: Vec<AreaAddr>,
        lsp_buf_size: Option<u16>,
        is_reach: Vec<IsReach>,
        ext_is_reach: Vec<ExtIsReach>,
        ipv4_addrs: Vec<Ipv4Addr>,
        ipv4_internal_reach: Vec<Ipv4Reach>,
        ipv4_external_reach: Vec<Ipv4Reach>,
        ext_ipv4_reach: Vec<ExtIpv4Reach>,
        ipv6_addrs: Vec<Ipv6Addr>,
        ipv6_reach: Vec<Ipv6Reach>,
    ) -> (r: LspTlvs)
        ensures
            r@ == lsp_tlvs(
                protocols_supported@,
                views(area_addrs@),
                lsp_buf_size,
                is_reach@,
                views(ext_is_reach@),
                ipv4_addrs@,
                ipv4_internal_reach@,
                ipv4_external_reach@,
                views(ext_ipv4_reach@),
                ipv6_addrs@,
                views(ipv6_reach@),
            ),
    {
        proof {
            assert(views(protocols_supported@) =~= protocols_supported@);
            assert(views(is_reach@) =~= is_reach@);
            assert(views(ipv4_addrs@) =~= ipv4_addrs@);
            assert(views(ipv4_internal_reach@) =~= ipv4_internal_reach@);
            assert(views(ipv4_external_reach@) =~= ipv4_external_reach@);
            assert(views(ipv6_addrs@) =~= ipv6_addrs@);
        }
        LspTlvs {
            protocols_supported: Some(EntriesTlv { list: protocols_supported }),
            area_addrs: tlv_entries_split(area_addrs),
            lsp_buf_size: match lsp_buf_size {
                Some(size) => Some(LspBufferSizeTlv { size }),
                None => None,
            },
            is_reach: tlv_entries_split(is_reach),
            ext_is_reach: tlv_entries_split(ext_is_reach),
            ipv4_addrs: tlv_entries_split(ipv4_addrs),
            ipv4_internal_reach: tlv_entries_split(ipv4_internal_reach),
            ipv4_external_reach: tlv_entries_split(ipv4_external_reach),
            ext_ipv4_reach: tlv_entries_split(ext_ipv4_reach),
            ipv6_addrs: tlv_entries_split(ipv6_addrs),
            ipv6_reach: tlv_entries_split(ipv6_reach),
            ..LspTlvs::default()
        }
    }

    /// How many octets the TLVs take on the wire, if they fit in the room.
    pub fn len_within(&self, room: usize) -> (r: Option<usize>)
        ensures
            r == (if self@.wire().len() <= room {
                Some(self@.wire().len() as usize)
            } else {
                None
            }),
    {
        let left: usize = room;
        let left: usize = match take_opt(TlvType::ProtocolsSupported, &self.protocols_supported, left) {
            Some(left) => left,
            None => return None,
        };
        let left: usize = match take_group(TlvType::AreaAddresses, &self.area_addrs, left) {
            Some(left) => left,
            None => return None,
        };
        let left: usize = match take_opt(TlvType::LspBufferSize, &self.lsp_buf_size, left) {
            Some(left) => left,
            None => return None,
        };
        let left: usize = match take_group(TlvType::IsReach, &self.is_reach, left) {
            Some(left) => left,
            None => return None,
        };
        let left: usize = match take_group(TlvType::ExtIsReach, &self.ext_is_reach, left) {
            Some(left) => left,
            None => return None,
        };
        let left: usize = match take_group(TlvType::Ipv4Addresses, &self.ipv4_addrs, left) {
            Some(left) => left,
            None => return None,
        };
        let left: usize = match take_group(TlvType::Ipv4InternalReach, &self.ipv4_internal_reach, left) {
            Some(left) => left,
            None => return None,
        };
        let left: usize = match take_group(TlvType::Ipv4ExternalReach, &self.ipv4_external_reach, left) {
            Some(left) => left,
            None => return None,
        };
        let left: usize = match take_group(TlvType::ExtIpv4Reach, &self.ext_ipv4_reach, left) {
            Some(left) => left,
            None => return None,
        };
        let left: usize = match take_group(TlvType::Ipv6Addresses, &self.ipv6_addrs, left) {
            Some(left) => left,
            None => return None,
        };
        let left: usize = match take_group(TlvType::Ipv6Reach, &self.ipv6_reach, left) {
            Some(left) => left,
            None => return None,
        };
        Some(room - left)
    }

    /// Appends the TLVs to the buffer.
    #[verifier::rlimit(40)]
    pub(crate) fn encode(&self, buf: &mut BytesMut)
        requires
            bytes_mut_content(*old(buf)).len() + self@.wire().len() <= isize::MAX,
        ensures
            bytes_mut_content(*final(buf)) == bytes_mut_content(*old(buf)) + self@.wire(),
    {
        let ghost before = bytes_mut_content(*buf);
        encode_opt(TlvType::ProtocolsSupported, &self.protocols_supported, buf);
        encode_group(TlvType::AreaAddresses, &self.area_addrs, buf);
        encode_opt(TlvType::LspBufferSize, &self.lsp_buf_size, buf);
        encode_group(TlvType::IsReach, &self.is_reach, buf);
        encode_group(TlvType::ExtIsReach, &self.ext_is_reach, buf);
        encode_group(TlvType::Ipv4Addresses, &self.ipv4_addrs, buf);
        encode_group(TlvType::Ipv4InternalReach, &self.ipv4_internal_reach, buf);
        let ghost middle = bytes_mut_content(*buf);
        encode_group(TlvType::Ipv4ExternalReach, &self.ipv4_external_reach, buf);
        encode_group(TlvType::ExtIpv4Reach, &self.ext_ipv4_reach, buf);
        encode_group(TlvType::Ipv6Addresses, &self.ipv6_addrs, buf);
        encode_group(TlvType::Ipv6Reach, &self.ipv6_reach, buf);
        proof {
            assert(bytes_mut_content(*buf) =~= middle + self@.wire_rest());
            assert(bytes_mut_content(*buf) =~= before + self@.wire());
        }
    }

    /// Whether a chunk of at most `max_len` octets has room for the TLVs that
    /// are in no group.
    pub fn singles_fit(&self, max_len: usize) -> (r: bool)
        ensures
            r == self@.singles_fit(max_len as int),
    {
        let room: usize = match take_opt(
            TlvType::ProtocolsSupported,
            &self.protocols_supported,
            max_len,
        ) {
            Some(room) => room,
            None => return false,
        };
        let (_, room) = fit_prefix(&self.area_addrs, room);
        take_opt(TlvType::LspBufferSize, &self.lsp_buf_size, room).is_some()
    }

    /// Takes the TLVs of the next LSP fragment off, in at most `max_len`
    /// octets, if there are any that fit.
    #[verifier::rlimit(40)]
    pub fn next_chunk(&mut self, max_len: usize) -> (r: Option<LspTlvs>)
        requires
            old(self)@.singles_fit(max_len as int),
        ensures
            match r {
                Some(tlvs) => tlvs@ == old(self)@.chunk(max_len as int).0,
                None => old(self)@.chunk(max_len as int).0 == LspTlvsView::none(),
            },
            r is None <==> old(self)@.chunk(max_len as int).1 == max_len,
            r matches Some(tlvs) ==> tlvs@.wire().len() <= max_len,
            final(self)@ == old(self)@.without(old(self)@.chunk(max_len as int).0),
    {
        let ghost v = self@;
        proof {
            lemma_chunk(v, max_len as int);
        }
        let mut rem_len: usize = max_len;
        let protocols_supported = self.protocols_supported.take();
        if let Some(protocols_supported) = &protocols_supported {
            match protocols_supported.len_within(rem_len) {
                Some(len) => {
                    rem_len = rem_len - len;
                },
                None => {},
            }
        }
        let area_addrs = take_max(&mut self.area_addrs, &mut rem_len);
        let lsp_buf_size = self.lsp_buf_size.take();
        if let Some(lsp_buf_size) = &lsp_buf_size {
            match lsp_buf_size.len_within(rem_len) {
                Some(len) => {
                    rem_len = rem_len - len;
                },
                None => {},
            }
        }
        let is_reach = take_max(&mut self.is_reach, &mut rem_len);
        let ext_is_reach = take_max(&mut self.ext_is_reach, &mut rem_len);
        let ipv4_addrs = take_max(&mut self.ipv4_addrs, &mut rem_len);
        let ipv4_internal_reach = take_max(&mut self.ipv4_internal_reach, &mut rem_len);
        let ipv4_external_reach = take_max(&mut self.ipv4_external_reach, &mut rem_len);
        let ext_ipv4_reach = take_max(&mut self.ext_ipv4_reach, &mut rem_len);
        let ipv6_addrs = take_max(&mut self.ipv6_addrs, &mut rem_len);
        let ipv6_reach = take_max(&mut self.ipv6_reach, &mut rem_len);
        if rem_len == max_len {
            proof {
                lemma_empty_chunk(v, max_len as int);
            }
            return None;
        }
        Some(
            LspTlvs {
                protocols_supported,
                area_addrs,
                lsp_buf_size,
                is_reach,
                ext_is_reach,
                ipv4_addrs,
                ipv4_internal_reach,
                ipv4_external_reach,
                ext_ipv4_reach,
                ipv6_addrs,
                ipv6_reach,
                ..LspTlvs::default()
            },
        )
    }

    /// Returns all supported protocols from the TLV of type 129.
    pub fn protocols_supported(&self) -> (r: Vec<u8>)
        ensures
            r@ == (match self.protocols_supported {
                Some(tlv) => tlv.list@,
                None => Seq::empty(),
            }),
    {
        match &self.protocols_supported {
            Some(tlv) => {
                let mut r: Vec<u8> = Vec::new();
                let mut i: usize = 0;
                while i < tlv.list.len()
                    invariant
                        i <= tlv.list@.len(),
                        r@ == tlv.list@.take(i as int),
                    decreases tlv.list@.len() - i,
                {
                    r.push(tlv.list[i]);
                    i = i + 1;
                    assert(r@ =~= tlv.list@.take(i as int));
                }
                assert(r@ =~= tlv.list@);
                r
            },
            None => Vec::new(),
        }
    }

    /// Returns all area addresses from TLVs of type 1.
    pub fn area_addrs(&self) -> (r: Vec<&AreaAddr>)
        ensures
            r@.unref() == flatten(lists(self.area_addrs@)),
            views(r@.unref()) == flatten(self@.area_addrs),
    {
        all_entries(&self.area_addrs)
    }

    /// Returns the maximum sized LSP which may be generated (TLV type 14).
    pub fn lsp_buf_size(&self) -> (r: Option<u16>)
        ensures
            r == (match self.lsp_buf_size {
                Some(tlv) => Some(tlv.size),
                None => None,
            }),
    {
        match &self.lsp_buf_size {
            Some(tlv) => Some(tlv.size),
            None => None,
        }
    }

    /// Returns all IS neighbors from TLVs of type 2.
    pub fn is_reach(&self) -> (r: Vec<&IsReach>)
        ensures
            r@.unref() == flatten(lists(self.is_reach@)),
            views(r@.unref()) == flatten(self@.is_reach),
    {
        all_entries(&self.is_reach)
    }

    /// Returns all IS neighbors from TLVs of type 22.
    pub fn ext_is_reach(&self) -> (r: Vec<&ExtIsReach>)
        ensures
            r@.unref() == flatten(lists(self.ext_is_reach@)),
            views(r@.unref()) == flatten(self@.ext_is_reach),
    {
        all_entries(&self.ext_is_reach)
    }

    /// Returns all IPv4 addresses from TLVs of type 132.
    pub fn ipv4_addrs(&self) -> (r: Vec<&Ipv4Addr>)
        ensures
            r@.unref() == flatten(lists(self.ipv4_addrs@)),
            views(r@.unref()) == flatten(self@.ipv4_addrs),
    {
        all_entries(&self.ipv4_addrs)
    }

    /// Returns all IPv4 internal reachability entries from TLVs of type 128.
    pub fn ipv4_internal_reach(&self) -> (r: Vec<&Ipv4Reach>)
        ensures
            r@.unref() == flatten(lists(self.ipv4_internal_reach@)),
            views(r@.unref()) == flatten(self@.ipv4_internal_reach),
    {
        all_entries(&self.ipv4_internal_reach)
    }

    /// Returns all IPv4 external reachability entries from TLVs of type 130.
    pub fn ipv4_external_reach(&self) -> (r: Vec<&Ipv4Reach>)
        ensures
            r@.unref() == flatten(lists(self.ipv4_external_reach@)),
            views(r@.unref()) == flatten(self@.ipv4_external_reach),
    {
        all_entries(&self.ipv4_external_reach)
    }

    /// Returns all IPv4 reachability entries from TLVs of type 135.
    pub fn ext_ipv4_reach(&self) -> (r: Vec<&ExtIpv4Reach>)
        ensures
            r@.unref() == flatten(lists(self.ext_ipv4_reach@)),
            views(r@.unref()) == flatten(self@.ext_ipv4_reach),
    {
        all_entries(&self.ext_ipv4_reach)
    }

    /// Returns all IPv6 addresses from TLVs of type 232.
    pub fn ipv6_addrs(&self) -> (r: Vec<&Ipv6Addr>)
        ensures
            r@.unref() == flatten(lists(self.ipv6_addrs@)),
            views(r@.unref()) == flatten(self@.ipv6_addrs),
    {
        all_entries(&self.ipv6_addrs)
    }

    /// Returns all IPv6 reachability entries from TLVs of type 236.
    pub fn ipv6_reach(&self) -> (r: Vec<&Ipv6Reach>)
        ensures
            r@.unref() == flatten(lists(self.ipv6_reach@)),
            views(r@.unref()) == flatten(self@.ipv6_reach),
    {
        all_entries(&self.ipv6_reach)
    }
}

proof fn lemma_group_len_lower<T: Tlv>(l: Seq<T::V>)
    ensures
        group_len::<T>(l) >= 2 * l.len(),
        l.len() == 0 ==> l == Seq::<T::V>::empty(),
    decreases l.len(),
{
    if l.len() > 0 {
        lemma_group_len_lower::<T>(l.skip(1));
    } else {
        assert(l =~= Seq::<T::V>::empty());
    }
}

/// A chunk that leaves all the room is empty.
proof fn lemma_empty_chunk(v: LspTlvsView, max_len: int)
    requires
        v.chunk(max_len).1 == max_len,
    ensures
        v.chunk(max_len).0 == LspTlvsView::none(),
{
    let c = v.chunk(max_len).0;
    lemma_group_len_lower::<AreaAddressesTlv>(c.area_addrs);
    lemma_group_len_lower::<IsReachTlv>(c.is_reach);
    lemma_group_len_lower::<ExtIsReachTlv>(c.ext_is_reach);
    lemma_group_len_lower::<Ipv4AddressesTlv>(c.ipv4_addrs);
    lemma_group_len_lower::<Ipv4ReachTlv>(c.ipv4_internal_reach);
    lemma_group_len_lower::<Ipv4ReachTlv>(c.ipv4_external_reach);
    lemma_group_len_lower::<ExtIpv4ReachTlv>(c.ext_ipv4_reach);
    lemma_group_len_lower::<Ipv6AddressesTlv>(c.ipv6_addrs);
    lemma_group_len_lower::<Ipv6ReachTlv>(c.ipv6_reach);
    assert(c =~= LspTlvsView::none());
}

/// Whether the first TLV of a group takes more than `room` octets, if there is
/// one.
pub open spec fn first_exceeds<T: Tlv>(l: Seq<T::V>, room: int) -> bool {
    l.len() > 0 ==> tlv_len::<T>(l[0]) > room
}

proof fn lemma_fit<T: Tlv>(l: Seq<T::V>, tlv_type: TlvType, room: int)
    requires
        room >= 0,
    ensures
        fit::<T>(l, room) + l.skip(fit::<T>(l, room).len() as int) == l,
        group_len::<T>(fit::<T>(l, room)) <= room,
        group_wire::<T>(tlv_type, fit::<T>(l, room)).len() == group_len::<T>(fit::<T>(l, room)),
        fit::<T>(l, room).len() == 0 ==> first_exceeds::<T>(l, room),
{
    lemma_fit_count::<T>(l, room as nat);
    lemma_group_len::<T>(tlv_type, fit::<T>(l, room));
    assert(fit::<T>(l, room) + l.skip(fit::<T>(l, room).len() as int) =~= l);
    if fit::<T>(l, room).len() == 0 {
        assert(fit::<T>(l, room) =~= Seq::empty());
    }
}

/// Chunks lose no TLV and keep the order within each group; each one takes up
/// exactly the octets that its TLVs take on the wire, no more than it may; and
/// nothing is taken only if no group has a first TLV that fits.
pub proof fn lemma_chunk(v: LspTlvsView, max_len: int)
    requires
        v.singles_fit(max_len),
    ensures
        ({
            let (c, room) = v.chunk(max_len);
            let rest = v.without(c);
            &&& c.wire().len() + room == max_len
            &&& room >= 0
            &&& c.protocols_supported == v.protocols_supported
            &&& c.area_addrs + rest.area_addrs == v.area_addrs
            &&& c.lsp_buf_size == v.lsp_buf_size
            &&& c.is_reach + rest.is_reach == v.is_reach
            &&& c.ext_is_reach + rest.ext_is_reach == v.ext_is_reach
            &&& c.ipv4_addrs + rest.ipv4_addrs == v.ipv4_addrs
            &&& c.ipv4_internal_reach + rest.ipv4_internal_reach == v.ipv4_internal_reach
            &&& c.ipv4_external_reach + rest.ipv4_external_reach == v.ipv4_external_reach
            &&& c.ext_ipv4_reach + rest.ext_ipv4_reach == v.ext_ipv4_reach
            &&& c.ipv6_addrs + rest.ipv6_addrs == v.ipv6_addrs
            &&& c.ipv6_reach + rest.ipv6_reach == v.ipv6_reach
            &&& rest.unknown == v.unknown
            &&& room == max_len ==> {
                &&& rest == v
                &&& first_exceeds::<AreaAddressesTlv>(v.area_addrs, max_len)
                &&& first_exceeds::<IsReachTlv>(v.is_reach, max_len)
                &&& first_exceeds::<ExtIsReachTlv>(v.ext_is_reach, max_len)
                &&& first_exceeds::<Ipv4AddressesTlv>(v.ipv4_addrs, max_len)
                &&& first_exceeds::<Ipv4ReachTlv>(v.ipv4_internal_reach, max_len)
                &&& first_exceeds::<Ipv4ReachTlv>(v.ipv4_external_reach, max_len)
                &&& first_exceeds::<ExtIpv4ReachTlv>(v.ext_ipv4_reach, max_len)
                &&& first_exceeds::<Ipv6AddressesTlv>(v.ipv6_addrs, max_len)
                &&& first_exceeds::<Ipv6ReachTlv>(v.ipv6_reach, max_len)
            }
        }),
{
    let (c, room) = v.chunk(max_len);
    let r1 = max_len - opt_len::<ProtocolsSupportedTlv>(v.protocols_supported);
    lemma_fit::<AreaAddressesTlv>(v.area_addrs, TlvType::AreaAddresses, r1);
    let r2 = r1 - group_len::<AreaAddressesTlv>(c.area_addrs) - opt_len::<LspBufferSizeTlv>(
        v.lsp_buf_size,
    );
    lemma_fit::<IsReachTlv>(v.is_reach, TlvType::IsReach, r2);
    let r3 = r2 - group_len::<IsReachTlv>(c.is_reach);
    lemma_fit::<ExtIsReachTlv>(v.ext_is_reach, TlvType::ExtIsReach, r3);
    let r4 = r3 - group_len::<ExtIsReachTlv>(c.ext_is_reach);
    lemma_fit::<Ipv4AddressesTlv>(v.ipv4_addrs, TlvType::Ipv4Addresses, r4);
    let r5 = r4 - group_len::<Ipv4AddressesTlv>(c.ipv4_addrs);
    lemma_fit::<Ipv4ReachTlv>(v.ipv4_internal_reach, TlvType::Ipv4InternalReach, r5);
    let r6 = r5 - group_len::<Ipv4ReachTlv>(c.ipv4_internal_reach);
    lemma_fit::<Ipv4ReachTlv>(v.ipv4_external_reach, TlvType::Ipv4ExternalReach, r6);
    let r7 = r6 - group_len::<Ipv4ReachTlv>(c.ipv4_external_reach);
    lemma_fit::<ExtIpv4ReachTlv>(v.ext_ipv4_reach, TlvType::ExtIpv4Reach, r7);
    let r8 = r7 - group_len::<ExtIpv4ReachTlv>(c.ext_ipv4_reach);
    lemma_fit::<Ipv6AddressesTlv>(v.ipv6_addrs, TlvType::Ipv6Addresses, r8);
    let r9 = r8 - group_len::<Ipv6AddressesTlv>(c.ipv6_addrs);
    lemma_fit::<Ipv6ReachTlv>(v.ipv6_reach, TlvType::Ipv6Reach, r9);
    if room == max_len {
        lemma_empty_chunk(v, max_len);
        assert(v.without(c) =~= v);
    }
}

/// Whether every TLV of a group fits in the room.
pub open spec fn all_fit<T: Tlv>(l: Seq<T::V>, room: int) -> bool {
    forall|i: int| 0 <= i < l.len() ==> tlv_len::<T>(#[trigger] l[i]) <= room
}

/// Chunk after chunk takes everything: if every TLV fits in a chunk, there is
/// no next chunk only once all TLVs are gone, but for the unknown ones.
pub proof fn lemma_chunks_exhaust(v: LspTlvsView, max_len: int)
    requires
        v.singles_fit(max_len),
        all_fit::<AreaAddressesTlv>(v.area_addrs, max_len),
        all_fit::<IsReachTlv>(v.is_reach, max_len),
        all_fit::<ExtIsReachTlv>(v.ext_is_reach, max_len),
        all_fit::<Ipv4AddressesTlv>(v.ipv4_addrs, max_len),
        all_fit::<Ipv4ReachTlv>(v.ipv4_internal_reach, max_len),
        all_fit::<Ipv4ReachTlv>(v.ipv4_external_reach, max_len),
        all_fit::<ExtIpv4ReachTlv>(v.ext_ipv4_reach, max_len),
        all_fit::<Ipv6AddressesTlv>(v.ipv6_addrs, max_len),
        all_fit::<Ipv6ReachTlv>(v.ipv6_reach, max_len),
    ensures
        v.chunk(max_len).1 == max_len <==> v == (LspTlvsView {
            unknown: v.unknown,
            ..LspTlvsView::none()
        }),
{
    lemma_chunk(v, max_len);
    let (c, room) = v.chunk(max_len);
    let empty = LspTlvsView { unknown: v.unknown, ..LspTlvsView::none() };
    if room == max_len {
        lemma_empty_chunk(v, max_len);
        assert(v =~= empty);
    }
    if v == empty {
        assert(c =~= LspTlvsView::none());
        reveal(group_wire);
    }
}

/// The TLVs of an LSP are read back.
pub proof fn lemma_lsp_tlvs_parse_wire(v: LspTlvsView, pdu_type: PduType)
    requires
        v.valid(),
    ensures
        tlvs_parse::<LspTlvs>(LspTlvsView::none(), pdu_type, v.wire()) == Ok::<
            LspTlvsView,
            DecodeError,
        >(v),
{
    let w6 = group_wire::<Ipv4ReachTlv>(TlvType::Ipv4InternalReach, v.ipv4_internal_reach)
        + v.wire_rest();
    let w5 = group_wire::<Ipv4AddressesTlv>(TlvType::Ipv4Addresses, v.ipv4_addrs) + w6;
    let w4 = group_wire::<ExtIsReachTlv>(TlvType::ExtIsReach, v.ext_is_reach) + w5;
    let w3 = group_wire::<IsReachTlv>(TlvType::IsReach, v.is_reach) + w4;
    let w2 = opt_wire::<LspBufferSizeTlv>(TlvType::LspBufferSize, v.lsp_buf_size) + w3;
    let w1 = group_wire::<AreaAddressesTlv>(TlvType::AreaAddresses, v.area_addrs) + w2;
    let v0 = LspTlvsView::none();
    let v1 = LspTlvsView { protocols_supported: v.protocols_supported, ..v0 };
    let v2 = LspTlvsView { area_addrs: v.area_addrs, ..v1 };
    let v3 = LspTlvsView { lsp_buf_size: v.lsp_buf_size, ..v2 };
    let v4 = LspTlvsView { is_reach: v.is_reach, ..v3 };
    let v5 = LspTlvsView { ext_is_reach: v.ext_is_reach, ..v4 };
    let v6 = LspTlvsView { ipv4_addrs: v.ipv4_addrs, ..v5 };
    let v7 = LspTlvsView { ipv4_internal_reach: v.ipv4_internal_reach, ..v6 };
    lemma_parse_values::<ProtocolsSupportedTlv>();
    lemma_tlvs_parse_opt::<LspTlvs, ProtocolsSupportedTlv>(
        pdu_type,
        TlvType::ProtocolsSupported,
        v.protocols_supported,
        w1,
        |o: Option<Seq<u8>>| LspTlvsView { protocols_supported: o, ..v0 },
    );
    lemma_parse_values::<AreaAddressesTlv>();
    lemma_tlvs_parse_group::<LspTlvs, AreaAddressesTlv>(
        pdu_type,
        TlvType::AreaAddresses,
        v.area_addrs,
        w2,
        |l: Seq<Seq<Seq<u8>>>| LspTlvsView { area_addrs: l, ..v1 },
    );
    lemma_parse_values::<LspBufferSizeTlv>();
    lemma_tlvs_parse_opt::<LspTlvs, LspBufferSizeTlv>(
        pdu_type,
        TlvType::LspBufferSize,
        v.lsp_buf_size,
        w3,
        |o: Option<LspBufferSizeTlv>| LspTlvsView { lsp_buf_size: o, ..v2 },
    );
    lemma_parse_values::<IsReachTlv>();
    lemma_tlvs_parse_group::<LspTlvs, IsReachTlv>(
        pdu_type,
        TlvType::IsReach,
        v.is_reach,
        w4,
        |l: Seq<Seq<IsReach>>| LspTlvsView { is_reach: l, ..v3 },
    );
    lemma_parse_values::<ExtIsReachTlv>();
    lemma_tlvs_parse_group::<LspTlvs, ExtIsReachTlv>(
        pdu_type,
        TlvType::ExtIsReach,
        v.ext_is_reach,
        w5,
        |l: Seq<Seq<ExtIsReachView>>| LspTlvsView { ext_is_reach: l, ..v4 },
    );
    lemma_parse_values::<Ipv4AddressesTlv>();
    lemma_tlvs_parse_group::<LspTlvs, Ipv4AddressesTlv>(
        pdu_type,
        TlvType::Ipv4Addresses,
        v.ipv4_addrs,
        w6,
        |l: Seq<Seq<Ipv4Addr>>| LspTlvsView { ipv4_addrs: l, ..v5 },
    );
    lemma_parse_values::<Ipv4ReachTlv>();
    lemma_tlvs_parse_group::<LspTlvs, Ipv4ReachTlv>(
        pdu_type,
        TlvType::Ipv4InternalReach,
        v.ipv4_internal_reach,
        v.wire_rest(),
        |l: Seq<Seq<Ipv4Reach>>| LspTlvsView { ipv4_internal_reach: l, ..v6 },
    );
    lemma_lsp_tlvs_rest(v, v7, pdu_type);
}

/// The TLVs from those of the external prefixes on are read back, into `u`,
/// which holds the others.
proof fn lemma_lsp_tlvs_rest(v: LspTlvsView, u: LspTlvsView, pdu_type: PduType)
    requires
        v.valid(),
        u == (LspTlvsView {
            ipv4_external_reach: Seq::empty(),
            ext_ipv4_reach: Seq::empty(),
            ipv6_addrs: Seq::empty(),
            ipv6_reach: Seq::empty(),
            unknown: Seq::empty(),
            ..v
        }),
    ensures
        tlvs_parse::<LspTlvs>(u, pdu_type, v.wire_rest()) == Ok::<LspTlvsView, DecodeError>(v),
{
    reveal(tlvs_parse);
    let w3 = group_wire::<Ipv6ReachTlv>(TlvType::Ipv6Reach, v.ipv6_reach) + Seq::empty();
    let w2 = group_wire::<Ipv6AddressesTlv>(TlvType::Ipv6Addresses, v.ipv6_addrs) + w3;
    let w1 = group_wire::<ExtIpv4ReachTlv>(TlvType::ExtIpv4Reach, v.ext_ipv4_reach) + w2;
    assert(w3 =~= group_wire::<Ipv6ReachTlv>(TlvType::Ipv6Reach, v.ipv6_reach));
    let u1 = LspTlvsView { ipv4_external_reach: v.ipv4_external_reach, ..u };
    let u2 = LspTlvsView { ext_ipv4_reach: v.ext_ipv4_reach, ..u1 };
    let u3 = LspTlvsView { ipv6_addrs: v.ipv6_addrs, ..u2 };
    lemma_parse_values::<Ipv4ReachTlv>();
    lemma_tlvs_parse_group::<LspTlvs, Ipv4ReachTlv>(
        pdu_type,
        TlvType::Ipv4ExternalReach,
        v.ipv4_external_reach,
        w1,
        |l: Seq<Seq<Ipv4Reach>>| LspTlvsView { ipv4_external_reach: l, ..u },
    );
    lemma_parse_values::<ExtIpv4ReachTlv>();
    lemma_tlvs_parse_group::<LspTlvs, ExtIpv4ReachTlv>(
        pdu_type,
        TlvType::ExtIpv4Reach,
        v.ext_ipv4_reach,
        w2,
        |l: Seq<Seq<ExtIpv4ReachView>>| LspTlvsView { ext_ipv4_reach: l, ..u1 },
    );
    lemma_parse_values::<Ipv6AddressesTlv>();
    lemma_tlvs_parse_group::<LspTlvs, Ipv6AddressesTlv>(
        pdu_type,
        TlvType::Ipv6Addresses,
        v.ipv6_addrs,
        w3,
        |l: Seq<Seq<Ipv6Addr>>| LspTlvsView { ipv6_addrs: l, ..u2 },
    );
    lemma_parse_values::<Ipv6ReachTlv>();
    lemma_tlvs_parse_group::<LspTlvs, Ipv6ReachTlv>(
        pdu_type,
        TlvType::Ipv6Reach,
        v.ipv6_reach,
        Seq::empty(),
        |l: Seq<Seq<Ipv6ReachView>>| LspTlvsView { ipv6_reach: l, ..u3 },
    );
    assert(LspTlvsView { ipv6_reach: v.ipv6_reach, ..u3 } =~= v);
}

/// TLVs that were built from valid contents are valid: all of it is sent.
pub proof fn lemma_lsp_tlvs_valid(
    protocols_supported: Seq<u8>,
    area_addrs: Seq<Seq<u8>>,
    lsp_buf_size: Option<u16>,
    is_reach: Seq<IsReach>,
    ext_is_reach: Seq<ExtIsReachView>,
    ipv4_addrs: Seq<Ipv4Addr>,
    ipv4_internal_reach: Seq<Ipv4Reach>,
    ipv4_external_reach: Seq<Ipv4Reach>,
    ext_ipv4_reach: Seq<ExtIpv4ReachView>,
    ipv6_addrs: Seq<Ipv6Addr>,
    ipv6_reach: Seq<Ipv6ReachView>,
)
    requires
        protocols_supported.len() <= TLV_MAX_LEN,
        entries_fit::<AreaAddr>(area_addrs),
        entries_fit::<IsReach>(is_reach),
        entries_fit::<ExtIsReach>(ext_is_reach),
        entries_fit::<Ipv4Addr>(ipv4_addrs),
        entries_fit::<Ipv4Reach>(ipv4_internal_reach),
        entries_fit::<Ipv4Reach>(ipv4_external_reach),
        entries_fit::<ExtIpv4Reach>(ext_ipv4_reach),
        entries_fit::<Ipv6Addr>(ipv6_addrs),
        entries_fit::<Ipv6Reach>(ipv6_reach),
    ensures
        lsp_tlvs(
            protocols_supported,
            area_addrs,
            lsp_buf_size,
            is_reach,
            ext_is_reach,
            ipv4_addrs,
            ipv4_internal_reach,
            ipv4_external_reach,
            ext_ipv4_reach,
            ipv6_addrs,
            ipv6_reach,
        ).valid(),
{
    lemma_protocols_valid(protocols_supported);
    lemma_split_valid::<AreaAddr>(area_addrs);
    lemma_split_valid::<IsReach>(is_reach);
    lemma_split_valid::<ExtIsReach>(ext_is_reach);
    lemma_split_valid::<Ipv4Addr>(ipv4_addrs);
    lemma_split_valid::<Ipv4Reach>(ipv4_internal_reach);
    lemma_split_valid::<Ipv4Reach>(ipv4_external_reach);
    lemma_split_valid::<ExtIpv4Reach>(ext_ipv4_reach);
    lemma_split_valid::<Ipv6Addr>(ipv6_addrs);
    lemma_split_valid::<Ipv6Reach>(ipv6_reach);
}

/// The types of the TLVs that are understood in an LSP.
pub open spec fn lsp_tlv_types() -> Set<u8> {
    set![1, 2, 14, 22, 128, 129, 130, 132, 135, 232, 236]
}

/// What decoding adds to the TLVs `v`.
#[verifier::rlimit(60)]
proof fn lemma_lsp_tlvs_added(v: LspTlvsView, pdu_type: PduType, s: Seq<u8>, w: LspTlvsView)
    requires
        tlvs_parse::<LspTlvs>(v, pdu_type, s) == Ok::<LspTlvsView, DecodeError>(w),
    ensures
        grew::<AreaAddressesTlv>(
            v.area_addrs,
            w.area_addrs,
            values_of(raw_tlvs(s), 1),
        ),
        grew::<IsReachTlv>(
            v.is_reach,
            w.is_reach,
            values_of(raw_tlvs(s), 2),
        ),
        grew::<ExtIsReachTlv>(
            v.ext_is_reach,
            w.ext_is_reach,
            values_of(raw_tlvs(s), 22),
        ),
        grew::<Ipv4AddressesTlv>(
            v.ipv4_addrs,
            w.ipv4_addrs,
            values_of(raw_tlvs(s), 132),
        ),
        grew::<Ipv4ReachTlv>(
            v.ipv4_internal_reach,
            w.ipv4_internal_reach,
            values_of(raw_tlvs(s), 128),
        ),
        grew::<Ipv4ReachTlv>(
            v.ipv4_external_reach,
            w.ipv4_external_reach,
            values_of(raw_tlvs(s), 130),
        ),
        grew::<ExtIpv4ReachTlv>(
            v.ext_ipv4_reach,
            w.ext_ipv4_reach,
            values_of(raw_tlvs(s), 135),
        ),
        grew::<Ipv6AddressesTlv>(
            v.ipv6_addrs,
            w.ipv6_addrs,
            values_of(raw_tlvs(s), 232),
        ),
        grew::<Ipv6ReachTlv>(
            v.ipv6_reach,
            w.ipv6_reach,
            values_of(raw_tlvs(s), 236),
        ),
        ({
            let values = values_of(raw_tlvs(s), 14);
            &&& forall|i: int|
                0 <= i < values.len() ==> LspBufferSizeTlv::parse_value(#[trigger] values[i]) is Ok
            &&& if values.len() == 0 {
                w.lsp_buf_size == v.lsp_buf_size
            } else {
                w.lsp_buf_size == Some(LspBufferSizeTlv::parse_value(values.last()).unwrap())
            }
        }),
        ({
            let values = values_of(raw_tlvs(s), 129);
            if v.protocols_supported is Some || values.len() == 0 {
                w.protocols_supported == v.protocols_supported
            } else {
                &&& ProtocolsSupportedTlv::parse_value(values[0]) is Ok
                &&& w.protocols_supported == Some(
                    ProtocolsSupportedTlv::parse_value(values[0]).unwrap(),
                )
            }
        }),
        w.unknown == v.unknown + others_of(raw_tlvs(s), lsp_tlv_types()),
    decreases s.len(),
{
    reveal(tlvs_parse);
    if s.len() < 2 {
        lemma_grew_not::<AreaAddressesTlv>(v.area_addrs);
        lemma_grew_not::<IsReachTlv>(v.is_reach);
        lemma_grew_not::<ExtIsReachTlv>(v.ext_is_reach);
        lemma_grew_not::<Ipv4AddressesTlv>(v.ipv4_addrs);
        lemma_grew_not::<Ipv4ReachTlv>(v.ipv4_internal_reach);
        lemma_grew_not::<Ipv4ReachTlv>(v.ipv4_external_reach);
        lemma_grew_not::<ExtIpv4ReachTlv>(v.ext_ipv4_reach);
        lemma_grew_not::<Ipv6AddressesTlv>(v.ipv6_addrs);
        lemma_grew_not::<Ipv6ReachTlv>(v.ipv6_reach);
        assert(v.unknown + Seq::<RawTlv>::empty() =~= v.unknown);
    } else {
        let n = 2 + s[1];
        let value = s.subrange(2, n);
        let rest = s.skip(n);
        let t = RawTlv { tlv_type: s[0], length: s[1], value };
        let u = LspTlvs::with(v, pdu_type, s[0], value).unwrap();
        lemma_lsp_tlvs_added(u, pdu_type, rest, w);
        lemma_grew_step::<AreaAddressesTlv>(
            v.area_addrs,
            u.area_addrs,
            w.area_addrs,
            1,
            t,
            raw_tlvs(rest),
        );
        lemma_grew_step::<IsReachTlv>(
            v.is_reach,
            u.is_reach,
            w.is_reach,
            2,
            t,
            raw_tlvs(rest),
        );
        lemma_grew_step::<ExtIsReachTlv>(
            v.ext_is_reach,
            u.ext_is_reach,
            w.ext_is_reach,
            22,
            t,
            raw_tlvs(rest),
        );
        lemma_grew_step::<Ipv4AddressesTlv>(
            v.ipv4_addrs,
            u.ipv4_addrs,
            w.ipv4_addrs,
            132,
            t,
            raw_tlvs(rest),
        );
        lemma_grew_step::<Ipv4ReachTlv>(
            v.ipv4_internal_reach,
            u.ipv4_internal_reach,
            w.ipv4_internal_reach,
            128,
            t,
            raw_tlvs(rest),
        );
        lemma_grew_step::<Ipv4ReachTlv>(
            v.ipv4_external_reach,
            u.ipv4_external_reach,
            w.ipv4_external_reach,
            130,
            t,
            raw_tlvs(rest),
        );
        lemma_grew_step::<ExtIpv4ReachTlv>(
            v.ext_ipv4_reach,
            u.ext_ipv4_reach,
            w.ext_ipv4_reach,
            135,
            t,
            raw_tlvs(rest),
        );
        lemma_grew_step::<Ipv6AddressesTlv>(
            v.ipv6_addrs,
            u.ipv6_addrs,
            w.ipv6_addrs,
            232,
            t,
            raw_tlvs(rest),
        );
        lemma_grew_step::<Ipv6ReachTlv>(
            v.ipv6_reach,
            u.ipv6_reach,
            w.ipv6_reach,
            236,
            t,
            raw_tlvs(rest),
        );
        lemma_values_of(t, raw_tlvs(rest), 14);
        lemma_values_of(t, raw_tlvs(rest), 129);
        lemma_others_of(t, raw_tlvs(rest), lsp_tlv_types());
        if s[0] == 14 {
            let values = values_of(raw_tlvs(rest), 14);
            let all = seq![value] + values;
            assert forall|i: int| 0 <= i < all.len() implies LspBufferSizeTlv::parse_value(
                #[trigger] all[i],
            ) is Ok by {
                if i > 0 {
                    assert(all[i] == values[i - 1]);
                }
            }
        }
        if !lsp_tlv_types().contains(s[0]) {
            assert(u.unknown == v.unknown.push(t));
            assert(v.unknown.push(t) + others_of(raw_tlvs(rest), lsp_tlv_types()) =~= v.unknown + (
            seq![t] + others_of(raw_tlvs(rest), lsp_tlv_types())));
        }
    }
}

/// Whatever the order of the TLVs, and whatever unknown ones are among them: if
/// decoding succeeds, each group holds the TLVs of its type, all of them and in
/// order of appearance; of the protocols the first TLV counts, and of the buffer
/// sizes the last; and all other TLVs are kept as they came. It fails only at a
/// TLV that is cut off, or whose value its type refuses, and at the first such
/// TLV.
pub proof fn lemma_lsp_tlvs_sorted(pdu_type: PduType, s: Seq<u8>)
    ensures
        match tlvs_parse::<LspTlvs>(LspTlvsView::none(), pdu_type, s) {
            Ok(v) => {
                let l = raw_tlvs(s);
                &&& whole_tlvs(s)
                &&& stand_for::<AreaAddressesTlv>(v.area_addrs, values_of(l, 1))
                &&& stand_for::<IsReachTlv>(v.is_reach, values_of(l, 2))
                &&& stand_for::<ExtIsReachTlv>(v.ext_is_reach, values_of(l, 22))
                &&& stand_for::<Ipv4AddressesTlv>(v.ipv4_addrs, values_of(l, 132))
                &&& stand_for::<Ipv4ReachTlv>(v.ipv4_internal_reach, values_of(l, 128))
                &&& stand_for::<Ipv4ReachTlv>(v.ipv4_external_reach, values_of(l, 130))
                &&& stand_for::<ExtIpv4ReachTlv>(v.ext_ipv4_reach, values_of(l, 135))
                &&& stand_for::<Ipv6AddressesTlv>(v.ipv6_addrs, values_of(l, 232))
                &&& stand_for::<Ipv6ReachTlv>(v.ipv6_reach, values_of(l, 236))
                &&& match v.protocols_supported {
                    Some(protocols) => values_of(l, 129).len() > 0
                        && ProtocolsSupportedTlv::parse_value(values_of(l, 129)[0]) == Ok::<
                        Seq<u8>,
                        DecodeError,
                    >(protocols),
                    None => values_of(l, 129).len() == 0,
                }
                &&& match v.lsp_buf_size {
                    Some(size) => values_of(l, 14).len() > 0 && LspBufferSizeTlv::parse_value(
                        values_of(l, 14).last(),
                    ) == Ok::<LspBufferSizeTlv, DecodeError>(size),
                    None => values_of(l, 14).len() == 0,
                }
                &&& forall|i: int|
                    0 <= i < values_of(l, 14).len() ==> LspBufferSizeTlv::parse_value(
                        #[trigger] values_of(l, 14)[i],
                    ) is Ok
                &&& v.unknown == others_of(l, lsp_tlv_types())
            },
            Err(e) => exists|n: int|
                {
                    let value = s.subrange(n + 2, n + 2 + s[n + 1]);
                    &&& 0 <= n <= s.len() - 2
                    &&& #[trigger] whole_tlvs(s.take(n))
                    &&& tlvs_rest(s.take(n)).len() == 0
                    &&& tlvs_parse::<LspTlvs>(LspTlvsView::none(), pdu_type, s.take(n)) is Ok
                    &&& if s.len() - n < 2 + s[n + 1] {
                        e == DecodeError::InvalidTlvLength(s[n + 1])
                    } else {
                        ||| s[n] == 1 && refused::<AreaAddressesTlv>(value, e)
                        ||| s[n] == 2 && refused::<IsReachTlv>(value, e)
                        ||| s[n] == 22 && refused::<ExtIsReachTlv>(value, e)
                        ||| s[n] == 132 && refused::<Ipv4AddressesTlv>(value, e)
                        ||| s[n] == 128 && refused::<Ipv4ReachTlv>(value, e)
                        ||| s[n] == 130 && refused::<Ipv4ReachTlv>(value, e)
                        ||| s[n] == 135 && refused::<ExtIpv4ReachTlv>(value, e)
                        ||| s[n] == 232 && refused::<Ipv6AddressesTlv>(value, e)
                        ||| s[n] == 236 && refused::<Ipv6ReachTlv>(value, e)
                        ||| s[n] == 14 && refused::<LspBufferSizeTlv>(value, e)
                        ||| s[n] == 129 && values_of(raw_tlvs(s.take(n)), 129).len() == 0
                            && refused::<ProtocolsSupportedTlv>(value, e)
                    }
                },
        },
{
    let l = raw_tlvs(s);
    match tlvs_parse::<LspTlvs>(LspTlvsView::none(), pdu_type, s) {
        Ok(v) => {
            lemma_accepted_whole::<LspTlvs>(LspTlvsView::none(), pdu_type, s);
            lemma_lsp_tlvs_added(LspTlvsView::none(), pdu_type, s, v);
            lemma_grew_from_none::<AreaAddressesTlv>(
                v.area_addrs,
                values_of(l, 1),
            );
            lemma_grew_from_none::<IsReachTlv>(
                v.is_reach,
                values_of(l, 2),
            );
            lemma_grew_from_none::<ExtIsReachTlv>(
                v.ext_is_reach,
                values_of(l, 22),
            );
            lemma_grew_from_none::<Ipv4AddressesTlv>(
                v.ipv4_addrs,
                values_of(l, 132),
            );
            lemma_grew_from_none::<Ipv4ReachTlv>(
                v.ipv4_internal_reach,
                values_of(l, 128),
            );
            lemma_grew_from_none::<Ipv4ReachTlv>(
                v.ipv4_external_reach,
                values_of(l, 130),
            );
            lemma_grew_from_none::<ExtIpv4ReachTlv>(
                v.ext_ipv4_reach,
                values_of(l, 135),
            );
            lemma_grew_from_none::<Ipv6AddressesTlv>(
                v.ipv6_addrs,
                values_of(l, 232),
            );
            lemma_grew_from_none::<Ipv6ReachTlv>(
                v.ipv6_reach,
                values_of(l, 236),
            );
            assert(Seq::<RawTlv>::empty() + others_of(l, lsp_tlv_types()) =~= others_of(
                l,
                lsp_tlv_types(),
            ));
        },
        Err(e) => {
            let n = lemma_first_refused::<LspTlvs>(LspTlvsView::none(), pdu_type, s, e);
            let w = tlvs_parse::<LspTlvs>(LspTlvsView::none(), pdu_type, s.take(n)).unwrap();
            lemma_lsp_tlvs_added(LspTlvsView::none(), pdu_type, s.take(n), w);
            assert(whole_tlvs(s.take(n)));
        },
    }
}

/// Whether the first of the TLVs that are left does not fit in the room.
pub open spec fn no_more<T: Tlv>(left: Seq<T::V>, room: int) -> bool {
    left.len() > 0 ==> 2 + T::value(left[0]).len() > room
}

/// A chunk takes off the front of each group what goes out, in the order in which
/// it goes out, and as much as fits: what is left of a group would not have fit
/// any more when its turn came. The TLVs that are in no group go with the first
/// chunk, and unknown ones with none. There is no chunk only if nothing fits.
#[verifier::rlimit(60)]
pub proof fn lemma_next_chunk(a: LspTlvs, max_len: usize, b: LspTlvs, r: Option<LspTlvs>)
    requires
        exists|x: &mut LspTlvs| #[trigger]
            call_ensures(LspTlvs::next_chunk, (x, max_len), r) && *x == a && *final(x) == b,
        a@.singles_fit(max_len as int),
    ensures
        ({
            let c = match r {
                Some(tlvs) => tlvs@,
                None => LspTlvsView::none(),
            };
            &&& c.protocols_supported == a@.protocols_supported
            &&& b@.protocols_supported is None
            &&& c.lsp_buf_size == a@.lsp_buf_size
            &&& b@.lsp_buf_size is None
            &&& c.area_addrs + b@.area_addrs == a@.area_addrs
            &&& c.is_reach + b@.is_reach == a@.is_reach
            &&& c.ext_is_reach + b@.ext_is_reach == a@.ext_is_reach
            &&& c.ipv4_addrs + b@.ipv4_addrs == a@.ipv4_addrs
            &&& c.ipv4_internal_reach + b@.ipv4_internal_reach == a@.ipv4_internal_reach
            &&& c.ipv4_external_reach + b@.ipv4_external_reach == a@.ipv4_external_reach
            &&& c.ext_ipv4_reach + b@.ext_ipv4_reach == a@.ext_ipv4_reach
            &&& c.ipv6_addrs + b@.ipv6_addrs == a@.ipv6_addrs
            &&& c.ipv6_reach + b@.ipv6_reach == a@.ipv6_reach
            &&& c.unknown.len() == 0
            &&& b@.unknown == a@.unknown
            &&& c.wire().len() <= max_len
            &&& r is Some <==> c.wire().len() > 0
        }),
        ({
            let c = match r {
                Some(tlvs) => tlvs@,
                None => LspTlvsView::none(),
            };
            let used0 = opt_wire::<ProtocolsSupportedTlv>(
                TlvType::ProtocolsSupported,
                c.protocols_supported,
            ).len() + group_wire::<AreaAddressesTlv>(TlvType::AreaAddresses, c.area_addrs).len();
            let used1 = used0 + opt_wire::<LspBufferSizeTlv>(
                TlvType::LspBufferSize,
                c.lsp_buf_size,
            ).len() + group_wire::<IsReachTlv>(
                TlvType::IsReach,
                c.is_reach,
            ).len();
            let used2 = used1 + group_wire::<ExtIsReachTlv>(
                TlvType::ExtIsReach,
                c.ext_is_reach,
            ).len();
            let used3 = used2 + group_wire::<Ipv4AddressesTlv>(
                TlvType::Ipv4Addresses,
                c.ipv4_addrs,
            ).len();
            let used4 = used3 + group_wire::<Ipv4ReachTlv>(
                TlvType::Ipv4InternalReach,
                c.ipv4_internal_reach,
            ).len();
            let used5 = used4 + group_wire::<Ipv4ReachTlv>(
                TlvType::Ipv4ExternalReach,
                c.ipv4_external_reach,
            ).len();
            let used6 = used5 + group_wire::<ExtIpv4ReachTlv>(
                TlvType::ExtIpv4Reach,
                c.ext_ipv4_reach,
            ).len();
            let used7 = used6 + group_wire::<Ipv6AddressesTlv>(
                TlvType::Ipv6Addresses,
                c.ipv6_addrs,
            ).len();
            let used8 = used7 + group_wire::<Ipv6ReachTlv>(
                TlvType::Ipv6Reach,
                c.ipv6_reach,
            ).len();
            &&& no_more::<AreaAddressesTlv>(b@.area_addrs, max_len - used0)
            &&& no_more::<IsReachTlv>(b@.is_reach, max_len - used1)
            &&& no_more::<ExtIsReachTlv>(b@.ext_is_reach, max_len - used2)
            &&& no_more::<Ipv4AddressesTlv>(b@.ipv4_addrs, max_len - used3)
            &&& no_more::<Ipv4ReachTlv>(b@.ipv4_internal_reach, max_len - used4)
            &&& no_more::<Ipv4ReachTlv>(b@.ipv4_external_reach, max_len - used5)
            &&& no_more::<ExtIpv4ReachTlv>(b@.ext_ipv4_reach, max_len - used6)
            &&& no_more::<Ipv6AddressesTlv>(b@.ipv6_addrs, max_len - used7)
            &&& no_more::<Ipv6ReachTlv>(b@.ipv6_reach, max_len - used8)
        }),
{
    let v = a@;
    let c = v.chunk(max_len as int).0;
    lemma_chunk(v, max_len as int);
    lemma_group_len::<AreaAddressesTlv>(TlvType::AreaAddresses, c.area_addrs);
    lemma_group_len::<IsReachTlv>(TlvType::IsReach, c.is_reach);
    lemma_group_len::<ExtIsReachTlv>(TlvType::ExtIsReach, c.ext_is_reach);
    lemma_group_len::<Ipv4AddressesTlv>(TlvType::Ipv4Addresses, c.ipv4_addrs);
    lemma_group_len::<Ipv4ReachTlv>(TlvType::Ipv4InternalReach, c.ipv4_internal_reach);
    lemma_group_len::<Ipv4ReachTlv>(TlvType::Ipv4ExternalReach, c.ipv4_external_reach);
    lemma_group_len::<ExtIpv4ReachTlv>(TlvType::ExtIpv4Reach, c.ext_ipv4_reach);
    lemma_group_len::<Ipv6AddressesTlv>(TlvType::Ipv6Addresses, c.ipv6_addrs);
    lemma_group_len::<Ipv6ReachTlv>(TlvType::Ipv6Reach, c.ipv6_reach);
    let r0 = max_len - opt_len::<ProtocolsSupportedTlv>(v.protocols_supported);
    lemma_fit_count::<AreaAddressesTlv>(v.area_addrs, r0 as nat);
    let r1 = r0 - group_len::<AreaAddressesTlv>(c.area_addrs) - opt_len::<LspBufferSizeTlv>(
        v.lsp_buf_size,
    );
    lemma_fit_count::<IsReachTlv>(v.is_reach, r1 as nat);
    let r2 = r1 - group_len::<IsReachTlv>(c.is_reach);
    lemma_fit_count::<ExtIsReachTlv>(v.ext_is_reach, r2 as nat);
    let r3 = r2 - group_len::<ExtIsReachTlv>(c.ext_is_reach);
    lemma_fit_count::<Ipv4AddressesTlv>(v.ipv4_addrs, r3 as nat);
    let r4 = r3 - group_len::<Ipv4AddressesTlv>(c.ipv4_addrs);
    lemma_fit_count::<Ipv4ReachTlv>(v.ipv4_internal_reach, r4 as nat);
    let r5 = r4 - group_len::<Ipv4ReachTlv>(c.ipv4_internal_reach);
    lemma_fit_count::<Ipv4ReachTlv>(v.ipv4_external_reach, r5 as nat);
    let r6 = r5 - group_len::<Ipv4ReachTlv>(c.ipv4_external_reach);
    lemma_fit_count::<ExtIpv4ReachTlv>(v.ext_ipv4_reach, r6 as nat);
    let r7 = r6 - group_len::<ExtIpv4ReachTlv>(c.ext_ipv4_reach);
    lemma_fit_count::<Ipv6AddressesTlv>(v.ipv6_addrs, r7 as nat);
    let r8 = r7 - group_len::<Ipv6AddressesTlv>(c.ipv6_addrs);
    lemma_fit_count::<Ipv6ReachTlv>(v.ipv6_reach, r8 as nat);
    if r is None {
        assert(c =~= LspTlvsView::none());
    }
    reveal(group_wire);
}

/// All entries of a kind are those of all its TLVs, in order, and the single TLVs
/// tell what they hold.
pub proof fn lemma_lsp_contents(
    tlvs: LspTlvs,
    protocols_supported: Vec<u8>,
    lsp_buf_size: Option<u16>,
    area_addrs: Vec<&AreaAddr>,
    is_reach: Vec<&IsReach>,
    ext_is_reach: Vec<&ExtIsReach>,
    ipv4_addrs: Vec<&Ipv4Addr>,
    ipv4_internal_reach: Vec<&Ipv4Reach>,
    ipv4_external_reach: Vec<&Ipv4Reach>,
    ext_ipv4_reach: Vec<&ExtIpv4Reach>,
    ipv6_addrs: Vec<&Ipv6Addr>,
    ipv6_reach: Vec<&Ipv6Reach>,
)
    requires
        call_ensures(LspTlvs::protocols_supported, (&tlvs,), protocols_supported),
        call_ensures(LspTlvs::lsp_buf_size, (&tlvs,), lsp_buf_size),
        call_ensures(LspTlvs::area_addrs, (&tlvs,), area_addrs),
        call_ensures(LspTlvs::is_reach, (&tlvs,), is_reach),
        call_ensures(LspTlvs::ext_is_reach, (&tlvs,), ext_is_reach),
        call_ensures(LspTlvs::ipv4_addrs, (&tlvs,), ipv4_addrs),
        call_ensures(LspTlvs::ipv4_internal_reach, (&tlvs,), ipv4_internal_reach),
        call_ensures(LspTlvs::ipv4_external_reach, (&tlvs,), ipv4_external_reach),
        call_ensures(LspTlvs::ext_ipv4_reach, (&tlvs,), ext_ipv4_reach),
        call_ensures(LspTlvs::ipv6_addrs, (&tlvs,), ipv6_addrs),
        call_ensures(LspTlvs::ipv6_reach, (&tlvs,), ipv6_reach),
    ensures
        tlvs.protocols_supported is None ==> protocols_supported@.len() == 0,
        tlvs.protocols_supported matches Some(tlv) ==> protocols_supported@ == tlv.list@,
        lsp_buf_size is Some <==> tlvs.lsp_buf_size is Some,
        lsp_buf_size matches Some(size) ==> tlvs.lsp_buf_size.unwrap().size == size,
        area_addrs@.unref() == flatten(lists(tlvs.area_addrs@)),
        is_reach@.unref() == flatten(lists(tlvs.is_reach@)),
        ext_is_reach@.unref() == flatten(lists(tlvs.ext_is_reach@)),
        ipv4_addrs@.unref() == flatten(lists(tlvs.ipv4_addrs@)),
        ipv4_internal_reach@.unref() == flatten(lists(tlvs.ipv4_internal_reach@)),
        ipv4_external_reach@.unref() == flatten(lists(tlvs.ipv4_external_reach@)),
        ext_ipv4_reach@.unref() == flatten(lists(tlvs.ext_ipv4_reach@)),
        ipv6_addrs@.unref() == flatten(lists(tlvs.ipv6_addrs@)),
        ipv6_reach@.unref() == flatten(lists(tlvs.ipv6_reach@)),
{
}

/// What TLVs stand for is what their lists hold, one by one.
pub proof fn lemma_lsp_tlvs_view(tlvs: LspTlvs)
    ensures
        tlvs@.protocols_supported is Some <==> tlvs.protocols_supported is Some,
        tlvs.protocols_supported matches Some(tlv) ==> tlvs@.protocols_supported == Some(tlv@),
        tlvs@.lsp_buf_size is Some <==> tlvs.lsp_buf_size is Some,
        tlvs.lsp_buf_size matches Some(tlv) ==> tlvs@.lsp_buf_size == Some(tlv),
        tlvs@.area_addrs.len() == tlvs.area_addrs@.len(),
        forall|i: int|
            0 <= i < tlvs.area_addrs@.len() ==> #[trigger] tlvs@.area_addrs[i]
                == tlvs.area_addrs@[i]@,
        tlvs@.is_reach.len() == tlvs.is_reach@.len(),
        forall|i: int|
            0 <= i < tlvs.is_reach@.len() ==> #[trigger] tlvs@.is_reach[i] == tlvs.is_reach@[i]@,
        tlvs@.ext_is_reach.len() == tlvs.ext_is_reach@.len(),
        forall|i: int|
            0 <= i < tlvs.ext_is_reach@.len() ==> #[trigger] tlvs@.ext_is_reach[i]
                == tlvs.ext_is_reach@[i]@,
        tlvs@.ipv4_addrs.len() == tlvs.ipv4_addrs@.len(),
        forall|i: int|
            0 <= i < tlvs.ipv4_addrs@.len() ==> #[trigger] tlvs@.ipv4_addrs[i]
                == tlvs.ipv4_addrs@[i]@,
        tlvs@.ipv4_internal_reach.len() == tlvs.ipv4_internal_reach@.len(),
        forall|i: int|
            0 <= i < tlvs.ipv4_internal_reach@.len() ==> #[trigger] tlvs@.ipv4_internal_reach[i]
                == tlvs.ipv4_internal_reach@[i]@,
        tlvs@.ipv4_external_reach.len() == tlvs.ipv4_external_reach@.len(),
        forall|i: int|
            0 <= i < tlvs.ipv4_external_reach@.len() ==> #[trigger] tlvs@.ipv4_external_reach[i]
                == tlvs.ipv4_external_reach@[i]@,
        tlvs@.ext_ipv4_reach.len() == tlvs.ext_ipv4_reach@.len(),
        forall|i: int|
            0 <= i < tlvs.ext_ipv4_reach@.len() ==> #[trigger] tlvs@.ext_ipv4_reach[i]
                == tlvs.ext_ipv4_reach@[i]@,
        tlvs@.ipv6_addrs.len() == tlvs.ipv6_addrs@.len(),
        forall|i: int|
            0 <= i < tlvs.ipv6_addrs@.len() ==> #[trigger] tlvs@.ipv6_addrs[i]
                == tlvs.ipv6_addrs@[i]@,
        tlvs@.ipv6_reach.len() == tlvs.ipv6_reach@.len(),
        forall|i: int|
            0 <= i < tlvs.ipv6_reach@.len() ==> #[trigger] tlvs@.ipv6_reach[i]
                == tlvs.ipv6_reach@[i]@,
        tlvs@.unknown.len() == tlvs.unknown@.len(),
        forall|i: int|
            0 <= i < tlvs.unknown@.len() ==> #[trigger] tlvs@.unknown[i] == tlvs.unknown@[i]@,
{
}

/// New TLVs hold exactly what they were made from, each kind by itself and in
/// order, split in as few TLVs as that takes. The TLV of protocols is always
/// there, and nothing is unknown.
pub proof fn lemma_new_lsp_tlvs(
    protocols_supported: Vec<u8>,
    area_addrs: Vec<AreaAddr>,
    lsp_buf_size: Option<u16>,
    is_reach: Vec<IsReach>,
    ext_is_reach: Vec<ExtIsReach>,
    ipv4_addrs: Vec<Ipv4Addr>,
    ipv4_internal_reach: Vec<Ipv4Reach>,
    ipv4_external_reach: Vec<Ipv4Reach>,
    ext_ipv4_reach: Vec<ExtIpv4Reach>,
    ipv6_addrs: Vec<Ipv6Addr>,
    ipv6_reach: Vec<Ipv6Reach>,
    r: LspTlvs,
)
    requires
        call_ensures(
            LspTlvs::new,
            (
                protocols_supported,
                area_addrs,
                lsp_buf_size,
                is_reach,
                ext_is_reach,
                ipv4_addrs,
                ipv4_internal_reach,
                ipv4_external_reach,
                ext_ipv4_reach,
                ipv6_addrs,
                ipv6_reach,
            ),
            r,
        ),
    ensures
        r@.protocols_supported == Some(protocols_supported@),
        r@.lsp_buf_size is Some <==> lsp_buf_size is Some,
        lsp_buf_size matches Some(size) ==> r@.lsp_buf_size.unwrap().size == size,
        r@.area_addrs == split::<AreaAddr>(views(area_addrs@)),
        flatten(r@.area_addrs) == views(area_addrs@),
        r@.is_reach == split::<IsReach>(views(is_reach@)),
        flatten(r@.is_reach) == views(is_reach@),
        r@.ext_is_reach == split::<ExtIsReach>(views(ext_is_reach@)),
        flatten(r@.ext_is_reach) == views(ext_is_reach@),
        r@.ipv4_addrs == split::<Ipv4Addr>(views(ipv4_addrs@)),
        flatten(r@.ipv4_addrs) == views(ipv4_addrs@),
        r@.ipv4_internal_reach == split::<Ipv4Reach>(views(ipv4_internal_reach@)),
        flatten(r@.ipv4_internal_reach) == views(ipv4_internal_reach@),
        r@.ipv4_external_reach == split::<Ipv4Reach>(views(ipv4_external_reach@)),
        flatten(r@.ipv4_external_reach) == views(ipv4_external_reach@),
        r@.ext_ipv4_reach == split::<ExtIpv4Reach>(views(ext_ipv4_reach@)),
        flatten(r@.ext_ipv4_reach) == views(ext_ipv4_reach@),
        r@.ipv6_addrs == split::<Ipv6Addr>(views(ipv6_addrs@)),
        flatten(r@.ipv6_addrs) == views(ipv6_addrs@),
        r@.ipv6_reach == split::<Ipv6Reach>(views(ipv6_reach@)),
        flatten(r@.ipv6_reach) == views(ipv6_reach@),
        r@.unknown.len() == 0,
{
    assert(views(is_reach@) =~= is_reach@);
    assert(views(ipv4_addrs@) =~= ipv4_addrs@);
    assert(views(ipv4_internal_reach@) =~= ipv4_internal_reach@);
    assert(views(ipv4_external_reach@) =~= ipv4_external_reach@);
    assert(views(ipv6_addrs@) =~= ipv6_addrs@);
    lemma_split::<AreaAddr>(views(area_addrs@));
    lemma_split::<IsReach>(views(is_reach@));
    lemma_split::<ExtIsReach>(views(ext_is_reach@));
    lemma_split::<Ipv4Addr>(views(ipv4_addrs@));
    lemma_split::<Ipv4Reach>(views(ipv4_internal_reach@));
    lemma_split::<Ipv4Reach>(views(ipv4_external_reach@));
    lemma_split::<ExtIpv4Reach>(views(ext_ipv4_reach@));
    lemma_split::<Ipv6Addr>(views(ipv6_addrs@));
    lemma_split::<Ipv6Reach>(views(ipv6_reach@));
}

/// The TLVs that are in no group fit in a chunk if there is room for the protocols,
/// and for the buffer size behind as many area addresses as fit behind those.
pub proof fn lemma_singles_fit(tlvs: LspTlvs, max_len: usize, r: bool)
    requires
        call_ensures(LspTlvs::singles_fit, (&tlvs, max_len), r),
    ensures
        ({
            let v = tlvs@;
            let protocols = opt_wire::<ProtocolsSupportedTlv>(
                TlvType::ProtocolsSupported,
                v.protocols_supported,
            ).len();
            let size = opt_wire::<LspBufferSizeTlv>(TlvType::LspBufferSize, v.lsp_buf_size).len();
            &&& protocols > max_len ==> !r
            &&& protocols <= max_len ==> exists|k: int|
                {
                    let used = protocols + group_wire::<AreaAddressesTlv>(
                        TlvType::AreaAddresses,
                        #[trigger] v.area_addrs.take(k),
                    ).len();
                    &&& 0 <= k <= v.area_addrs.len()
                    &&& used <= max_len
                    &&& k < v.area_addrs.len() ==> used + 2 + AreaAddressesTlv::value(
                        v.area_addrs[k],
                    ).len() > max_len
                    &&& r <==> used + size <= max_len
                }
        }),
{
    let v = tlvs@;
    let room = max_len - opt_len::<ProtocolsSupportedTlv>(v.protocols_supported);
    if room >= 0 {
        let k = fit_count::<AreaAddressesTlv>(v.area_addrs, room as nat) as int;
        lemma_fit_count::<AreaAddressesTlv>(v.area_addrs, room as nat);
        lemma_group_len::<AreaAddressesTlv>(TlvType::AreaAddresses, v.area_addrs.take(k));
        assert(v.area_addrs.take(k) == fit::<AreaAddressesTlv>(v.area_addrs, room));
    }
}

} // verus!
