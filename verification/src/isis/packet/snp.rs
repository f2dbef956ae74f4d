//! Sequence numbers PDUs.

use bytes::Bytes;
use vstd::prelude::*;

use crate::isis::packet::consts::{PduType, TlvType};
use crate::isis::packet::entries::{
    LspEntriesTlv, LspEntry, LSP_ENTRIES_MAX, LSP_ENTRIES_MAX_SIZE, LSP_ENTRY_SIZE,
};
use crate::isis::packet::error::{DecodeError, DecodeResult};
use crate::isis::packet::header::{
    fixed_len, header_wire, pdu_encode_end, pdu_encode_start, with_length, Header, CSNP_HEADER_LEN,
    PSNP_HEADER_LEN,
};
use crate::isis::packet::id::{lan_id_at, lsp_id_at, LanId, LevelNumber, LspId};
use crate::isis::packet::tlv::{
    all_entries, decode_tlvs, encode_group, flatten, grew, group_len, group_wire,
    lemma_accepted_whole, lemma_first_refused, lemma_grew_from_none, lemma_grew_not,
    lemma_grew_step, lemma_group_len, lemma_others_of, lemma_parse_values, lemma_tlvs_parse_group,
    lists, others_of, raw_tlvs, refused, stand_for, take_group, tlvs_left, tlvs_parse, tlvs_rest,
    value_wire, values_of, views, whole_tlvs, EntriesTlv, RawTlv, Tlv, TlvEntry, TlvSet, UnknownTlv,
    TLV_HDR_SIZE,
};
use crate::utils::be::{
    be_bytes, be_field, lemma_be_bytes_len, lemma_be_uint_of_bytes, lemma_pow256_values,
};
use crate::utils::buf::{bytes_content, bytes_mut_content, get_u16, put_u16};

verus! {

/// IS-IS Sequence Numbers PDU. A complete one covers a range of LSP IDs.
#[derive(Clone, Debug, PartialEq, Eq)]
pub struct Snp {
    pub hdr: Header,
    pub source: LanId,
    pub summary: Option<(LspId, LspId)>,
    pub tlvs: SnpTlvs,
}

/// The TLVs of a sequence numbers PDU.
#[derive(Clone, Debug, PartialEq, Eq)]
pub struct SnpTlvs {
    pub lsp_entries: Vec<LspEntriesTlv>,
    pub unknown: Vec<UnknownTlv>,
}

/// What an `Snp` stands for.
#[verifier::ext_equal]
pub struct SnpView {
    pub hdr: Header,
    pub source: LanId,
    pub summary: Option<(LspId, LspId)>,
    pub tlvs: SnpTlvsView,
}

/// What an `SnpTlvs` stands for.
#[verifier::ext_equal]
pub struct SnpTlvsView {
    pub lsp_entries: Seq<Seq<LspEntry>>,
    pub unknown: Seq<RawTlv>,
}

impl View for Snp {
    type V = SnpView;

    open spec fn view(&self) -> SnpView {
        SnpView {
            hdr: self.hdr,
            source: self.source,
            summary: self.summary,
            tlvs: self.tlvs@,
        }
    }
}

impl View for SnpTlvs {
    type V = SnpTlvsView;

    open spec fn view(&self) -> SnpTlvsView {
        SnpTlvsView { lsp_entries: views(self.lsp_entries@), unknown: views(self.unknown@) }
    }
}

/// Whether a PDU type is that of a complete sequence numbers PDU.
pub open spec fn is_csnp(pdu_type: PduType) -> bool {
    pdu_type == PduType::CsnpL1 || pdu_type == PduType::CsnpL2
}

/// Whether a PDU type is that of a sequence numbers PDU.
pub open spec fn is_snp(pdu_type: PduType) -> bool {
    is_csnp(pdu_type) || pdu_type == PduType::PsnpL1 || pdu_type == PduType::PsnpL2
}

impl SnpTlvsView {
    /// No TLVs.
    pub open spec fn none() -> SnpTlvsView {
        SnpTlvsView { lsp_entries: Seq::empty(), unknown: Seq::empty() }
    }

    /// How the TLVs stand on the wire. Unknown ones are not sent.
    pub open spec fn wire(self) -> Seq<u8> {
        group_wire::<LspEntriesTlv>(TlvType::LspEntries, self.lsp_entries)
    }

    /// Whether what is sent tells all there is: no TLV is overfull, and none is
    /// unknown.
    pub open spec fn valid(self) -> bool {
        &&& forall|i: int|
            0 <= i < self.lsp_entries.len() ==> LspEntriesTlv::valid(#[trigger] self.lsp_entries[i])
        &&& self.unknown.len() == 0
    }
}

impl SnpView {
    /// What follows the length field.
    pub open spec fn tail(self) -> Seq<u8> {
        self.source.wire() + (match self.summary {
            Some((start, end)) => start.wire() + end.wire(),
            None => Seq::empty(),
        }) + self.tlvs.wire()
    }

    /// How the PDU stands on the wire.
    pub open spec fn wire(self) -> Seq<u8> {
        with_length(header_wire(self.hdr), self.tail())
    }

    /// Whether what is sent tells all there is: the type goes with the summary,
    /// the length fits its field, and the TLVs are valid.
    pub open spec fn valid(self) -> bool {
        &&& is_snp(self.hdr.pdu_type)
        &&& self.summary is Some <==> is_csnp(self.hdr.pdu_type)
        &&& self.wire().len() < 0x1_0000
        &&& self.tlvs.valid()
    }
}

/// The PDU that `s` stands for, which is what follows the header in a packet
/// of the given length.
pub open spec fn snp_parse(hdr: Header, packet_len: nat, s: Seq<u8>) -> DecodeResult<SnpView> {
    let pdu_len = be_field(s, 0, 2);
    if pdu_len != packet_len % 0x1_0000 {
        Err(DecodeError::InvalidPduLength(pdu_len as u16))
    } else {
        let summary = if is_csnp(hdr.pdu_type) {
            Some((lsp_id_at(s.skip(9)), lsp_id_at(s.skip(17))))
        } else {
            None
        };
        match tlvs_parse::<SnpTlvs>(
            SnpTlvsView::none(),
            hdr.pdu_type,
            s.skip(
                if is_csnp(hdr.pdu_type) {
                    25
                } else {
                    9
                },
            ),
        ) {
            Ok(tlvs) => Ok(SnpView { hdr, source: lan_id_at(s.skip(2)), summary, tlvs }),
            Err(e) => Err(e),
        }
    }
}

/// What decoding `s`, which is what follows the header in a packet of the given
/// length, leaves of it.
pub open spec fn snp_left(hdr: Header, packet_len: nat, s: Seq<u8>) -> Seq<u8> {
    if be_field(s, 0, 2) != packet_len % 0x1_0000 {
        s.skip(2)
    } else {
        tlvs_left::<SnpTlvs>(
            SnpTlvsView::none(),
            hdr.pdu_type,
            s.skip(fixed_len(hdr.pdu_type) - 8),
        )
    }
}

impl TlvSet for SnpTlvs {
    open spec fn with(v: SnpTlvsView, pdu_type: PduType, tlv_type: u8, value: Seq<u8>) -> DecodeResult<
        SnpTlvsView,
    > {
        match TlvType::spec_from_u8(tlv_type) {
            Some(TlvType::LspEntries) => match LspEntriesTlv::parse_value(value) {
                Ok(t) => Ok(SnpTlvsView { lsp_entries: v.lsp_entries.push(t), ..v }),
                Err(e) => Err(e),
            },
            _ => Ok(
                SnpTlvsView {
                    unknown: v.unknown.push(RawTlv { tlv_type, length: value.len() as u8, value }),
                    ..v
                },
            ),
        }
    }

    fn add(&mut self, pdu_type: PduType, tlv_type: u8, tlv_len: u8, buf: &mut Bytes) -> (r:
        DecodeResult<()>) {
        let ghost v = self@;
        match TlvType::from_u8(tlv_type) {
            Some(TlvType::LspEntries) => {
                let tlv = match LspEntriesTlv::decode(tlv_len, buf) {
                    Ok(tlv) => tlv,
                    Err(e) => return Err(e),
                };
                self.lsp_entries.push(tlv);
                assert(self@.lsp_entries =~= v.lsp_entries.push(tlv@));
            },
            _ => {
                // Save unknown top-level TLV.
                let tlv = UnknownTlv::new(tlv_type, tlv_len, buf.clone());
                self.unknown.push(tlv);
                assert(self@.unknown =~= v.unknown.push(tlv@));
            },
        }
        Ok(())
    }
}

/// How long a sequence numbers PDU is.
proof fn lemma_snp_len(v: SnpView)
    ensures
        v.wire().len() == v.tlvs.wire().len() + (if v.summary is Some {
            CSNP_HEADER_LEN
        } else {
            PSNP_HEADER_LEN
        }),
{
    v.source.lemma_wire(Seq::empty());
    if let Some((start, end)) = v.summary {
        start.lemma_wire(Seq::empty());
        end.lemma_wire(Seq::empty());
    }
    lemma_be_bytes_len((8 + 2 + v.tail().len()) as nat % 0x1_0000, 2);
}

impl Snp {
    /// A complete sequence numbers PDU if there is a summary, else a partial
    /// one.
    pub fn new(
        level: LevelNumber,
        source: LanId,
        summary: Option<(LspId, LspId)>,
        tlvs: SnpTlvs,
    ) -> (r: Snp)
        ensures
            r@ == (SnpView {
                hdr: Header {
                    pdu_type: match (summary is Some, level) {
                        (false, LevelNumber::L1) => PduType::PsnpL1,
                        (false, LevelNumber::L2) => PduType::PsnpL2,
                        (true, LevelNumber::L1) => PduType::CsnpL1,
                        (true, LevelNumber::L2) => PduType::CsnpL2,
                    },
                    max_area_addrs: 0,
                },
                source,
                summary,
                tlvs: tlvs@,
            }),
            r@.wire().len() == fixed_len(r.hdr.pdu_type) + tlvs@.wire().len(),
    {
        let pdu_type = match (summary.is_some(), level) {
            (false, LevelNumber::L1) => PduType::PsnpL1,
            (false, LevelNumber::L2) => PduType::PsnpL2,
            (true, LevelNumber::L1) => PduType::CsnpL1,
            (true, LevelNumber::L2) => PduType::CsnpL2,
        };
        let r = Snp { hdr: Header::new(pdu_type), source, summary, tlvs };
        proof {
            lemma_snp_len(r@);
        }
        r
    }

    /// Decodes what follows the header of a sequence numbers PDU.
    pub(crate) fn decode(hdr: Header, packet_len: usize, buf: &mut Bytes) -> (r: DecodeResult<Snp>)
        requires
            is_snp(hdr.pdu_type),
            bytes_content(*old(buf)).len() + 8 >= fixed_len(hdr.pdu_type),
        ensures
            match r {
                Ok(snp) => snp_parse(hdr, packet_len as nat, bytes_content(*old(buf))) == Ok::<
                    SnpView,
                    DecodeError,
                >(snp@),
                Err(e) => snp_parse(hdr, packet_len as nat, bytes_content(*old(buf))) == Err::<
                    SnpView,
                    DecodeError,
                >(e),
            },
            bytes_content(*final(buf)) == snp_left(
                hdr,
                packet_len as nat,
                bytes_content(*old(buf)),
            ),
            r is Ok ==> bytes_content(*final(buf)) == tlvs_rest(
                bytes_content(*old(buf)).skip(fixed_len(hdr.pdu_type) - 8),
            ),
    {
        let ghost s = bytes_content(*buf);
        assert(s.take(2) =~= s.subrange(0, 2));
        // Parse PDU length.
        let pdu_len = get_u16(buf);
        if pdu_len != (packet_len % 0x1_0000) as u16 {
            return Err(DecodeError::InvalidPduLength(pdu_len));
        }

        // Parse source ID.
        let source = LanId::decode(buf);
        assert(bytes_content(*buf) =~= s.skip(9));
        // Parse start and end LSP IDs.
        let mut summary = None;
        if matches!(hdr.pdu_type, PduType::CsnpL1 | PduType::CsnpL2) {
            let start_lsp_id = LspId::decode(buf);
            assert(bytes_content(*buf) =~= s.skip(17));
            let end_lsp_id = LspId::decode(buf);
            assert(bytes_content(*buf) =~= s.skip(25));
            summary = Some((start_lsp_id, end_lsp_id));
        }

        // Parse top-level TLVs.
        let mut tlvs = SnpTlvs::default();
        match decode_tlvs(&mut tlvs, hdr.pdu_type, buf) {
            Ok(_) => {},
            Err(e) => return Err(e),
        }
        Ok(Snp { hdr, source, summary, tlvs })
    }

    /// How many octets the PDU takes on the wire, if they fit in the room.
    pub fn len_within(&self, room: usize) -> (r: Option<usize>)
        ensures
            r == (if self@.wire().len() <= room {
                Some(self@.wire().len() as usize)
            } else {
                None
            }),
    {
        proof {
            lemma_snp_len(self@);
        }
        let fixed: usize = match &self.summary {
            Some(_) => CSNP_HEADER_LEN as usize,
            None => PSNP_HEADER_LEN as usize,
        };
        if room < fixed {
            return None;
        }
        match self.tlvs.len_within(room - fixed) {
            Some(len) => Some(fixed + len),
            None => None,
        }
    }

    /// Encodes the PDU.
    pub(crate) fn encode(&self) -> (r: Bytes)
        requires
            self@.wire().len() <= isize::MAX,
        ensures
            bytes_content(r) == self@.wire(),
    {
        proof {
            self.source.lemma_wire(Seq::empty());
            lemma_be_bytes_len((8 + 2 + self@.tail().len()) as nat % 0x1_0000, 2);
        }
        let mut buf = pdu_encode_start(&self.hdr);
        let ghost head = bytes_mut_content(buf);
        // The PDU length will be initialized later.
        let len_pos: usize = buf.len();
        proof {
            lemma_be_bytes_len(0, 2);
        }
        put_u16(&mut buf, 0);
        self.source.encode(&mut buf);
        if let Some((start_lsp_id, end_lsp_id)) = &self.summary {
            proof {
                start_lsp_id.lemma_wire(Seq::empty());
                end_lsp_id.lemma_wire(Seq::empty());
            }
            start_lsp_id.encode(&mut buf);
            end_lsp_id.encode(&mut buf);
        }

        // Encode TLVs.
        encode_group(TlvType::LspEntries, &self.tlvs.lsp_entries, &mut buf);
        proof {
            assert(bytes_mut_content(buf).take(8) =~= head);
            assert(bytes_mut_content(buf).skip(10) =~= self@.tail());
        }
        pdu_encode_end(buf, len_pos)
    }
}

/// The list cut in pieces of `n` elements, the last of which may be shorter.
pub open spec fn chunks<A>(l: Seq<A>, n: int) -> Seq<Seq<A>> {
    Seq::new(
        ((l.len() + n - 1) / n) as nat,
        |i: int|
            l.subrange(
                i * n,
                if (i + 1) * n <= l.len() {
                    (i + 1) * n
                } else {
                    l.len() as int
                },
            ),
    )
}

/// How many octets `n` LSP entries take, in TLVs that are all full but for the
/// last one.
pub open spec fn entries_size(n: int) -> int {
    n * LSP_ENTRY_SIZE + (n + LSP_ENTRIES_MAX - 1) / (LSP_ENTRIES_MAX as int) * TLV_HDR_SIZE
}

impl Default for SnpTlvs {
    fn default() -> (r: SnpTlvs)
        ensures
            r@ == SnpTlvsView::none(),
            r@.wire().len() == 0,
    {
        let r = SnpTlvs { lsp_entries: Vec::new(), unknown: Vec::new() };
        assert(r@ =~= SnpTlvsView::none());
        reveal(group_wire);
        r
    }
}

impl SnpTlvs {
    /// TLVs with the given LSP entries, fragmented as necessary.
    pub fn new(lsp_entries: Vec<LspEntry>) -> (r: SnpTlvs)
        ensures
            r@ == (SnpTlvsView {
                lsp_entries: chunks(lsp_entries@, LSP_ENTRIES_MAX as int),
                unknown: Seq::empty(),
            }),
            r@.wire().len() == entries_size(lsp_entries@.len() as int),
    {
        let ghost l = lsp_entries@;
        let ghost total = chunks(l, 15);
        let mut tlvs: Vec<LspEntriesTlv> = Vec::new();
        let mut i: usize = 0;
        assert(views(tlvs@) =~= total.take(0));
        while i < lsp_entries.len()
            invariant
                l == lsp_entries@,
                i <= l.len(),
                total == chunks(l, 15),
                i == l.len() || i == 15 * tlvs@.len(),
                tlvs@.len() == (i + 14) / 15,
                views(tlvs@) == total.take(tlvs@.len() as int),
            decreases l.len() - i,
        {
            let ghost k = tlvs@.len() as int;
            let ghost start = i as int;
            let mut list: Vec<LspEntry> = Vec::new();
            while i < lsp_entries.len() && list.len() < LSP_ENTRIES_MAX
                invariant
                    l == lsp_entries@,
                    start == 15 * k,
                    list@.len() <= 15,
                    i == start + list@.len(),
                    i <= l.len(),
                    list@ == l.subrange(start, i as int),
                decreases l.len() - i,
            {
                list.push(lsp_entries[i]);
                i = i + 1;
                assert(list@ =~= l.subrange(start, i as int));
            }
            let ghost before = views(tlvs@);
            let tlv = EntriesTlv { list };
            tlvs.push(tlv);
            proof {
                assert(tlv@ =~= list@);
                assert(total[k] =~= list@);
                assert(views(tlvs@) =~= before.push(list@));
                assert(total.take(k + 1) =~= total.take(k).push(list@));
            }
        }
        proof {
            assert(total.take(tlvs@.len() as int) =~= total);
            lemma_chunks(l);
            lemma_group_len::<LspEntriesTlv>(TlvType::LspEntries, total);
        }
        SnpTlvs { lsp_entries: tlvs, ..SnpTlvs::default() }
    }

    /// Calculates the maximum number of LSP entries that can fit within the
    /// given size.
    pub fn max_lsp_entries(size: usize) -> (n: usize)
        ensures
            entries_size(n as int) <= size,
            forall|m: int| m > n ==> #[trigger] entries_size(m) > size,
    {
        // Calculate how many full TLVs fit in the available size.
        let full_tlvs: usize = size / LSP_ENTRIES_MAX_SIZE;
        // Update the remaining size after accounting for all full TLVs.
        let rest: usize = size % LSP_ENTRIES_MAX_SIZE;
        // Add the number of LSP entries from all full TLVs.
        let per_tlv: usize = LSP_ENTRIES_MAX_SIZE / LSP_ENTRY_SIZE;
        proof {
            assert(per_tlv == 15);
            assert(full_tlvs * per_tlv == 15 * full_tlvs) by (nonlinear_arith)
                requires
                    per_tlv == 15,
            ;
        }
        let mut lsp_entries: usize = full_tlvs * per_tlv;
        // Check if the remaining size has enough room for a partial TLV.
        if rest >= TLV_HDR_SIZE + LSP_ENTRY_SIZE {
            // Add the number of LSP entries from the remaining partial TLV.
            lsp_entries = lsp_entries + (rest - TLV_HDR_SIZE) / LSP_ENTRY_SIZE;
        }
        proof {
            let n = lsp_entries as int;
            let p = n - 15 * full_tlvs;
            assert(0 <= p <= 14 && 16 * p <= rest < 16 * p + 18 && (p > 0 ==> 16 * p + 2 <= rest));
            assert((n + 14) / 15 == full_tlvs + (p + 14) / 15);
            assert forall|m: int| m > n implies #[trigger] entries_size(m) > size by {
                assert((m + 14) / 15 >= (n + 15) / 15);
                assert((n + 15) / 15 == full_tlvs + 1);
            }
        }
        lsp_entries
    }

    /// How many octets the TLVs take on the wire, if they fit in the room.
    pub fn len_within(&self, room: usize) -> (r: Option<usize>)
        ensures
            r == (if self@.wire().len() <= room {
                Some(self@.wire().len() as usize)
            } else {
                None
            }),
    {
        let left: usize = room;
        let left: usize = match take_group(TlvType::LspEntries, &self.lsp_entries, left) {
            Some(left) => left,
            None => return None,
        };
        Some(room - left)
    }

    /// Returns all LSP entries from TLVs of type 9.
    pub fn lsp_entries(&self) -> (r: Vec<&LspEntry>)
        ensures
            r@.unref() == flatten(lists(self.lsp_entries@)),
            views(r@.unref()) == flatten(self@.lsp_entries),
    {
        all_entries(&self.lsp_entries)
    }
}

/// Entries that are fragmented as necessary are all there, in order, and
/// overfill no TLV. How many octets they take is `entries_size`.
pub proof fn lemma_chunks(l: Seq<LspEntry>)
    ensures
        flatten(chunks(l, LSP_ENTRIES_MAX as int)) == l,
        forall|i: int|
            0 <= i < chunks(l, LSP_ENTRIES_MAX as int).len() ==> LspEntriesTlv::valid(
                #[trigger] chunks(l, LSP_ENTRIES_MAX as int)[i],
            ),
        group_len::<LspEntriesTlv>(chunks(l, LSP_ENTRIES_MAX as int)) == entries_size(
            l.len() as int,
        ),
    decreases l.len(),
{
    let c = chunks(l, 15);
    if l.len() == 0 {
        assert(c =~= Seq::empty());
        assert(flatten(c) =~= l);
    } else {
        let k = if l.len() < 15 {
            l.len() as int
        } else {
            15
        };
        let rest = l.skip(k);
        lemma_chunks(rest);
        assert(c[0] =~= l.take(k));
        assert(c.skip(1) =~= chunks(rest, 15)) by {
            assert forall|i: int| 0 <= i < c.skip(1).len() implies c.skip(1)[i] == chunks(
                rest,
                15,
            )[i] by {
                assert(c.skip(1)[i] =~= chunks(rest, 15)[i]);
            }
        }
        assert(flatten(c) =~= l);
        lemma_entries_len(c[0]);
        assert forall|i: int| 0 <= i < c.len() implies LspEntriesTlv::valid(#[trigger] c[i]) by {
            if i > 0 {
                assert(c[i] == c.skip(1)[i - 1]);
                assert(chunks(rest, 15)[i - 1] == c[i]);
            }
        }
        assert(entries_size(l.len() as int) == entries_size(rest.len() as int) + 2 + 16 * k);
    }
}

/// The maximum number of LSP entries is the border: that many entries, and
/// fewer, fit within the size once they are fragmented, and more do not.
pub proof fn lemma_max_entries_fit(l: Seq<LspEntry>, size: int, max: int)
    requires
        entries_size(max) <= size,
        forall|m: int| m > max ==> #[trigger] entries_size(m) > size,
    ensures
        (SnpTlvsView {
            lsp_entries: chunks(l, LSP_ENTRIES_MAX as int),
            unknown: Seq::empty(),
        }).wire().len() <= size <==> l.len() <= max,
{
    let n = l.len() as int;
    lemma_chunks(l);
    lemma_group_len::<LspEntriesTlv>(TlvType::LspEntries, chunks(l, LSP_ENTRIES_MAX as int));
    if n <= max {
        assert((n + 14) / 15 <= (max + 14) / 15);
    }
}

proof fn lemma_entries_len(l: Seq<LspEntry>)
    ensures
        value_wire::<LspEntry>(l).len() == 16 * l.len(),
    decreases l.len(),
{
    if l.len() > 0 {
        lemma_entries_len(l.skip(1));
        LspEntry::lemma_parse_wire(l[0], Seq::empty(), 0);
        let v = l[0];
        lemma_be_bytes_len(v.rem_lifetime as nat, 2);
        lemma_be_bytes_len(v.seqno as nat, 4);
        lemma_be_bytes_len(v.cksum as nat, 2);
        v.lsp_id.lemma_wire(Seq::empty());
    }
}

/// A sequence numbers PDU is read back from what follows its header.
pub proof fn lemma_snp_parse_wire(v: SnpView)
    requires
        v.valid(),
    ensures
        snp_parse(v.hdr, v.wire().len(), v.wire().skip(8)) == Ok::<SnpView, DecodeError>(v),
        v.wire().len() >= fixed_len(v.hdr.pdu_type),
{
    let s = v.wire().skip(8);
    let len = v.wire().len();
    let pdu_type = v.hdr.pdu_type;
    lemma_be_bytes_len((8 + 2 + v.tail().len()) as nat % 0x1_0000, 2);
    lemma_pow256_values();
    lemma_be_uint_of_bytes(len, 2);
    assert(s.subrange(0, 2) =~= be_bytes(len, 2));
    v.source.lemma_wire(s.skip(9));
    assert(s.skip(2) =~= v.source.wire() + s.skip(9));
    let tlvs = v.tlvs.wire();
    if is_csnp(pdu_type) {
        let (start, end) = v.summary.unwrap();
        start.lemma_wire(s.skip(17));
        assert(s.skip(9) =~= start.wire() + s.skip(17));
        end.lemma_wire(s.skip(25));
        assert(s.skip(17) =~= end.wire() + s.skip(25));
        assert(s.skip(25) =~= tlvs);
    } else {
        assert(s.skip(9) =~= tlvs);
    }
    lemma_snp_tlvs_parse_wire(v.tlvs, pdu_type);
}

/// The TLVs of a sequence numbers PDU are read back.
pub proof fn lemma_snp_tlvs_parse_wire(v: SnpTlvsView, pdu_type: PduType)
    requires
        v.valid(),
    ensures
        tlvs_parse::<SnpTlvs>(SnpTlvsView::none(), pdu_type, v.wire()) == Ok::<
            SnpTlvsView,
            DecodeError,
        >(v),
{
    reveal(tlvs_parse);
    let none = SnpTlvsView::none();
    let put = |l: Seq<Seq<LspEntry>>| SnpTlvsView { lsp_entries: l, ..none };
    lemma_parse_values::<LspEntriesTlv>();
    lemma_tlvs_parse_group::<SnpTlvs, LspEntriesTlv>(
        pdu_type,
        TlvType::LspEntries,
        v.lsp_entries,
        Seq::empty(),
        put,
    );
    assert(v.wire() + Seq::empty() =~= v.wire());
    assert(put(v.lsp_entries) =~= v);
}

/// What decoding adds to the TLVs `v`.
proof fn lemma_snp_tlvs_added(v: SnpTlvsView, pdu_type: PduType, s: Seq<u8>, w: SnpTlvsView)
    requires
        tlvs_parse::<SnpTlvs>(v, pdu_type, s) == Ok::<SnpTlvsView, DecodeError>(w),
    ensures
        grew::<LspEntriesTlv>(v.lsp_entries, w.lsp_entries, values_of(raw_tlvs(s), 9)),
        w.unknown == v.unknown + others_of(raw_tlvs(s), set![9u8]),
    decreases s.len(),
{
    reveal(tlvs_parse);
    if s.len() < 2 {
        lemma_grew_not::<LspEntriesTlv>(v.lsp_entries);
        assert(v.unknown + Seq::<RawTlv>::empty() =~= v.unknown);
    } else {
        let n = 2 + s[1];
        let value = s.subrange(2, n);
        let rest = s.skip(n);
        let t = RawTlv { tlv_type: s[0], length: s[1], value };
        let u = SnpTlvs::with(v, pdu_type, s[0], value).unwrap();
        lemma_snp_tlvs_added(u, pdu_type, rest, w);
        lemma_grew_step::<LspEntriesTlv>(
            v.lsp_entries,
            u.lsp_entries,
            w.lsp_entries,
            9,
            t,
            raw_tlvs(rest),
        );
        lemma_others_of(t, raw_tlvs(rest), set![9u8]);
        if s[0] != 9 {
            assert(u.unknown == v.unknown.push(t));
            assert(v.unknown.push(t) + others_of(raw_tlvs(rest), set![9u8]) =~= v.unknown + (seq![t]
                + others_of(raw_tlvs(rest), set![9u8])));
        }
    }
}

/// Whatever unknown TLVs are among them: if decoding succeeds, the LSP entries
/// are those of all the TLVs of that type, in order of appearance, and all other
/// TLVs are kept as they came. It fails only at a TLV that is cut off, or at LSP
/// entries that are, and at the first such TLV.
pub proof fn lemma_snp_tlvs_sorted(pdu_type: PduType, s: Seq<u8>)
    ensures
        match tlvs_parse::<SnpTlvs>(SnpTlvsView::none(), pdu_type, s) {
            Ok(v) => {
                let l = raw_tlvs(s);
                &&& whole_tlvs(s)
                &&& stand_for::<LspEntriesTlv>(v.lsp_entries, values_of(l, 9))
                &&& v.unknown == others_of(l, set![9u8])
            },
            Err(e) => exists|n: int|
                {
                    let value = s.subrange(n + 2, n + 2 + s[n + 1]);
                    &&& 0 <= n <= s.len() - 2
                    &&& #[trigger] whole_tlvs(s.take(n))
                    &&& tlvs_rest(s.take(n)).len() == 0
                    &&& tlvs_parse::<SnpTlvs>(SnpTlvsView::none(), pdu_type, s.take(n)) is Ok
                    &&& if s.len() - n < 2 + s[n + 1] {
                        e == DecodeError::InvalidTlvLength(s[n + 1])
                    } else {
                        s[n] == 9 && refused::<LspEntriesTlv>(value, e)
                    }
                },
        },
{
    let l = raw_tlvs(s);
    match tlvs_parse::<SnpTlvs>(SnpTlvsView::none(), pdu_type, s) {
        Ok(v) => {
            lemma_accepted_whole::<SnpTlvs>(SnpTlvsView::none(), pdu_type, s);
            lemma_snp_tlvs_added(SnpTlvsView::none(), pdu_type, s, v);
            lemma_grew_from_none::<LspEntriesTlv>(v.lsp_entries, values_of(l, 9));
            assert(Seq::<RawTlv>::empty() + others_of(l, set![9u8]) =~= others_of(l, set![9u8]));
        },
        Err(e) => {
            let n = lemma_first_refused::<SnpTlvs>(SnpTlvsView::none(), pdu_type, s, e);
            assert(whole_tlvs(s.take(n)));
        },
    }
}

/// LSP entries are fragmented in full TLVs: each holds fifteen of them, but the
/// last, which holds what is left.
pub proof fn lemma_fragments_full(lsp_entries: Vec<LspEntry>, r: SnpTlvs, i: int)
    requires
        call_ensures(SnpTlvs::new, (lsp_entries,), r),
    ensures
        flatten(r@.lsp_entries) == lsp_entries@,
        r@.unknown.len() == 0,
        0 <= i < r@.lsp_entries.len() - 1 ==> r@.lsp_entries[i].len() == 15,
        0 <= i < r@.lsp_entries.len() ==> 0 < r@.lsp_entries[i].len() <= 15,
{
    let l = lsp_entries@;
    lemma_chunks(l);
    let n = (l.len() + 14) / 15;
    if 0 <= i < n {
        let c = chunks(l, 15)[i];
        assert(r@.lsp_entries[i] == c);
        if i < n - 1 {
            assert((i + 1) * 15 <= l.len());
        }
    }
}

/// The most LSP entries that fit within a size are as many as do fit, once they
/// are fragmented, and one more does not.
pub proof fn lemma_max_lsp_entries(
    size: usize,
    n: usize,
    lsp_entries: Vec<LspEntry>,
    r: SnpTlvs,
    room: Option<usize>,
)
    requires
        call_ensures(SnpTlvs::max_lsp_entries, (size,), n),
        call_ensures(SnpTlvs::new, (lsp_entries,), r),
        call_ensures(SnpTlvs::len_within, (&r, size), room),
    ensures
        room is Some <==> lsp_entries@.len() <= n,
{
    lemma_max_entries_fit(lsp_entries@, size as int, n as int);
}

/// The LSP entries of some TLVs are all there, in order.
pub proof fn lemma_all_lsp_entries(tlvs: SnpTlvs, r: Vec<&LspEntry>)
    requires
        call_ensures(SnpTlvs::lsp_entries, (&tlvs,), r),
    ensures
        r@.unref() == flatten(
            Seq::new(tlvs.lsp_entries@.len(), |i: int| tlvs.lsp_entries@[i].list@),
        ),
{
    assert(lists(tlvs.lsp_entries@) =~= Seq::new(
        tlvs.lsp_entries@.len(),
        |i: int| tlvs.lsp_entries@[i].list@,
    ));
}

/// What TLVs stand for is what their lists hold, one by one.
pub proof fn lemma_snp_tlvs_view(tlvs: SnpTlvs)
    ensures
        tlvs@.lsp_entries.len() == tlvs.lsp_entries@.len(),
        forall|i: int|
            0 <= i < tlvs.lsp_entries@.len() ==> (#[trigger] tlvs@.lsp_entries[i])
                == tlvs.lsp_entries@[i]@,
        tlvs@.unknown.len() == tlvs.unknown@.len(),
        forall|i: int|
            0 <= i < tlvs.unknown@.len() ==> #[trigger] tlvs@.unknown[i] == tlvs.unknown@[i]@,
{
}

} // verus!
