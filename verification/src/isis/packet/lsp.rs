//! Link state PDUs.

use std::time::Instant;

use bytes::Bytes;
use vstd::prelude::*;
use vstd::slice::slice_subrange;

use crate::isis::packet::checksum::{
    check_octet_0, check_octet_1, fletcher_check_octets, lemma_check_octets_fit,
    lemma_fitting_octets_unique, lemma_octet_noticed, lemma_swap_noticed, octet_sum, running_sum, sums_vanish,
};
use crate::isis::packet::consts::{LspFlags, PduType};
use crate::isis::packet::entries::LspEntry;
use crate::isis::packet::error::{DecodeError, DecodeResult};
use crate::isis::packet::header::{
    fixed_len, header_wire, pdu_encode_end, pdu_encode_start, with_length, Header, LSP_HEADER_LEN,
};
use crate::isis::packet::id::{lsp_id_at, LevelNumber, LspId};
use crate::isis::packet::lsp_tlvs::{lemma_lsp_tlvs_parse_wire, LspTlvs, LspTlvsView};
use crate::isis::packet::tlv::{decode_tlvs, tlvs_left, tlvs_parse, tlvs_rest};
use crate::utils::be::{
    be_bytes, be_field, lemma_be_bytes_2, lemma_be_bytes_len, lemma_be_uint_of_bytes,
    lemma_pow256_values,
};
use crate::utils::buf::{
    bytes_as_slice, bytes_content, bytes_mut_as_slice, bytes_mut_content, bytes_mut_from, get_u16,
    get_u32, get_u8, put_u16, put_u32, put_u8, set_octet,
};
use crate::utils::clock::{clock_reading, elapsed_secs, seconds_since};

verus! {

/// IS-IS Link State PDU.
#[derive(Clone, Debug, PartialEq, Eq)]
pub struct Lsp {
    pub hdr: Header,
    pub rem_lifetime: u16,
    pub lsp_id: LspId,
    pub seqno: u32,
    pub cksum: u16,
    pub flags: LspFlags,
    pub tlvs: LspTlvs,
    pub raw: Bytes,
    /// Time the LSP was created or received. When combined with the Remaining
    /// Lifetime field, the actual LSP remaining lifetime can be determined.
    pub base_time: Option<Instant>,
}

/// What an `Lsp` stands for, apart from the time.
#[verifier::ext_equal]
pub struct LspView {
    pub hdr: Header,
    pub rem_lifetime: u16,
    pub lsp_id: LspId,
    pub seqno: u32,
    pub cksum: u16,
    pub flags: LspFlags,
    pub tlvs: LspTlvsView,
    pub raw: Seq<u8>,
}

impl View for Lsp {
    type V = LspView;

    open spec fn view(&self) -> LspView {
        LspView {
            hdr: self.hdr,
            rem_lifetime: self.rem_lifetime,
            lsp_id: self.lsp_id,
            seqno: self.seqno,
            cksum: self.cksum,
            flags: self.flags,
            tlvs: self.tlvs@,
            raw: bytes_content(self.raw),
        }
    }
}

/// Whether a PDU type is that of an LSP.
pub open spec fn is_lsp(pdu_type: PduType) -> bool {
    pdu_type == PduType::LspL1 || pdu_type == PduType::LspL2
}

impl LspView {
    /// The part that the checksum covers: all that follows the remaining
    /// lifetime.
    pub open spec fn body(self, cksum: u16) -> Seq<u8> {
        self.lsp_id.wire() + be_bytes(self.seqno as nat, 4) + be_bytes(cksum as nat, 2) + seq![
            self.flags.bits,
        ] + self.tlvs.wire()
    }

    /// The checksum that fits.
    pub open spec fn fitting_cksum(self) -> u16 {
        (256 * check_octet_0(self.body(0)) + check_octet_1(self.body(0))) as u16
    }

    /// How the PDU stands on the wire.
    pub open spec fn wire(self) -> Seq<u8> {
        with_length(
            header_wire(self.hdr),
            be_bytes(self.rem_lifetime as nat, 2) + self.body(self.cksum),
        )
    }

    /// The LSP with the checksum that fits, and with its raw data.
    pub open spec fn sealed(self) -> LspView {
        let v = LspView { cksum: self.fitting_cksum(), ..self };
        LspView { raw: v.wire(), ..v }
    }

    /// Whether the LSP can be encoded: a buffer can hold it, and the length of
    /// what the checksum covers, modulo 2^16, reaches up to the checksum.
    pub open spec fn encodable(self) -> bool {
        &&& self.wire().len() <= isize::MAX
        &&& self.body(0).len() % 0x1_0000 >= 13
    }

    /// Whether what is sent tells all there is: the type is that of an LSP, the
    /// length fits its field, and the TLVs are valid.
    pub open spec fn valid(self) -> bool {
        &&& is_lsp(self.hdr.pdu_type)
        &&& self.wire().len() < 0x1_0000
        &&& self.tlvs.valid()
    }
}

/// The PDU that `s` stands for, which is what follows the header in a packet
/// of the given length. No raw data is kept.
pub open spec fn lsp_parse(hdr: Header, packet_len: nat, s: Seq<u8>) -> DecodeResult<LspView> {
    let pdu_len = be_field(s, 0, 2);
    if pdu_len != packet_len % 0x1_0000 {
        Err(DecodeError::InvalidPduLength(pdu_len as u16))
    } else {
        match tlvs_parse::<LspTlvs>(LspTlvsView::none(), hdr.pdu_type, s.skip(19)) {
            Ok(tlvs) => Ok(
                LspView {
                    hdr,
                    rem_lifetime: be_field(s, 2, 2) as u16,
                    lsp_id: lsp_id_at(s.skip(4)),
                    seqno: be_field(s, 12, 4) as u32,
                    cksum: be_field(s, 16, 2) as u16,
                    flags: LspFlags { bits: s[18] },
                    tlvs,
                    raw: Seq::empty(),
                },
            ),
            Err(e) => Err(e),
        }
    }
}

/// What decoding `s`, which is what follows the header in a packet of the given
/// length, leaves of it.
pub open spec fn lsp_left(hdr: Header, packet_len: nat, s: Seq<u8>) -> Seq<u8> {
    if be_field(s, 0, 2) != packet_len % 0x1_0000 {
        s.skip(2)
    } else {
        tlvs_left::<LspTlvs>(
            LspTlvsView::none(),
            hdr.pdu_type,
            s.skip(fixed_len(hdr.pdu_type) - 8),
        )
    }
}

/// Whether the raw data of an LSP carry a valid checksum: none at all, or one
/// that fits. One of the two octets alone is never zero.
pub open spec fn checksum_valid(raw: Seq<u8>) -> bool {
    if raw[24] == 0 && raw[25] == 0 {
        true
    } else if raw[24] == 0 || raw[25] == 0 {
        false
    } else {
        sums_vanish(raw.skip(12))
    }
}

/// The raw data of an LSP with another remaining lifetime.
pub open spec fn with_rem_lifetime(raw: Seq<u8>, rem_lifetime: u16) -> Seq<u8> {
    raw.update(10, (rem_lifetime / 256) as u8).update(11, (rem_lifetime % 256) as u8)
}

/// What is left of a lifetime once `elapsed` seconds have passed.
pub open spec fn lifetime_after(rem_lifetime: u16, elapsed: u64) -> int {
    if elapsed >= rem_lifetime {
        0
    } else {
        rem_lifetime - elapsed
    }
}

/// Now, as the time that an LSP was created or received.
fn lsp_base_time() -> (r: Option<Instant>)
    ensures
        r matches Some(t) && clock_reading(t),
{
    Some(Instant::now())
}

/// How long an LSP and the part that its checksum covers are.
proof fn lemma_lsp_lens(v: LspView)
    ensures
        v.wire().len() == LSP_HEADER_LEN + v.tlvs.wire().len(),
        forall|cksum: u16| #[trigger] v.body(cksum).len() == 15 + v.tlvs.wire().len(),
{
    v.lsp_id.lemma_wire(Seq::empty());
    lemma_be_bytes_len(v.seqno as nat, 4);
    lemma_be_bytes_len(v.rem_lifetime as nat, 2);
    lemma_be_bytes_len(v.cksum as nat, 2);
    let tail = be_bytes(v.rem_lifetime as nat, 2) + v.body(v.cksum);
    lemma_be_bytes_len((8 + 2 + tail.len()) as nat % 0x1_0000, 2);
    assert forall|cksum: u16| #[trigger] v.body(cksum).len() == 15 + v.tlvs.wire().len() by {
        lemma_be_bytes_len(cksum as nat, 2);
    }
}

impl Lsp {
    /// An LSP with its checksum and its raw data. A buffer has to be able to
    /// hold it, and the length of what the checksum covers, modulo 2^16, has
    /// to reach up to the checksum.
    pub fn new(
        level: LevelNumber,
        rem_lifetime: u16,
        lsp_id: LspId,
        seqno: u32,
        flags: LspFlags,
        tlvs: LspTlvs,
    ) -> (r: Lsp)
        requires
            LSP_HEADER_LEN + tlvs@.wire().len() <= isize::MAX,
            (15 + tlvs@.wire().len()) % 0x1_0000 >= 13,
        ensures
            r@ == (LspView {
                hdr: Header {
                    pdu_type: match level {
                        LevelNumber::L1 => PduType::LspL1,
                        LevelNumber::L2 => PduType::LspL2,
                    },
                    max_area_addrs: 0,
                },
                rem_lifetime,
                lsp_id,
                seqno,
                cksum: 0,
                flags,
                tlvs: tlvs@,
                raw: Seq::empty(),
            }).sealed(),
            r@.raw.len() == LSP_HEADER_LEN + tlvs@.wire().len(),
            15 + tlvs@.wire().len() < 0x1_0000 ==> checksum_valid(r@.raw),
            r.base_time matches Some(t) && clock_reading(t),
    {
        let pdu_type = match level {
            LevelNumber::L1 => PduType::LspL1,
            LevelNumber::L2 => PduType::LspL2,
        };
        let mut lsp = Lsp {
            hdr: Header::new(pdu_type),
            rem_lifetime,
            lsp_id,
            seqno,
            cksum: 0,
            flags,
            tlvs,
            raw: Bytes::new(),
            base_time: lsp_base_time(),
        };
        proof {
            lemma_lsp_lens(lsp@);
            lemma_lsp_lens(lsp@.sealed());
            if lsp@.body(0).len() < 0x1_0000 {
                lemma_sealed_checksum_valid(lsp@);
            }
        }
        let _ = lsp.encode();
        lsp
    }

    /// Decodes what follows the header of an LSP.
    pub(crate) fn decode(hdr: Header, packet_len: usize, buf: &mut Bytes) -> (r: DecodeResult<Lsp>)
        requires
            is_lsp(hdr.pdu_type),
            bytes_content(*old(buf)).len() + 8 >= fixed_len(hdr.pdu_type),
        ensures
            match r {
                Ok(lsp) => lsp_parse(hdr, packet_len as nat, bytes_content(*old(buf))) == Ok::<
                    LspView,
                    DecodeError,
                >(lsp@) && (lsp.base_time matches Some(t) && clock_reading(t)),
                Err(e) => lsp_parse(hdr, packet_len as nat, bytes_content(*old(buf))) == Err::<
                    LspView,
                    DecodeError,
                >(e),
            },
            bytes_content(*final(buf)) == lsp_left(
                hdr,
                packet_len as nat,
                bytes_content(*old(buf)),
            ),
            r is Ok ==> bytes_content(*final(buf)) == tlvs_rest(
                bytes_content(*old(buf)).skip(fixed_len(hdr.pdu_type) - 8),
            ),
    {
        let ghost s = bytes_content(*buf);
        assert(s.take(2) =~= s.subrange(0, 2));
        // Parse PDU length.
        let pdu_len = get_u16(buf);
        if pdu_len != (packet_len % 0x1_0000) as u16 {
            return Err(DecodeError::InvalidPduLength(pdu_len));
        }
        assert(bytes_content(*buf).take(2) =~= s.subrange(2, 4));
        // Parse remaining lifetime.
        let rem_lifetime = get_u16(buf);
        assert(bytes_content(*buf) =~= s.skip(4));
        // Parse LSP ID.
        let lsp_id = LspId::decode(buf);
        assert(bytes_content(*buf).take(4) =~= s.subrange(12, 16));
        // Parse sequence number.
        let seqno = get_u32(buf);
        assert(bytes_content(*buf).take(2) =~= s.subrange(16, 18));
        // Parse checksum.
        let cksum = get_u16(buf);
        // Parse flags.
        let flags = get_u8(buf);
        let flags = LspFlags::from_bits_truncate(flags);
        assert(bytes_content(*buf) =~= s.skip(19));
        // Parse top-level TLVs.
        let mut tlvs = LspTlvs::default();
        match decode_tlvs(&mut tlvs, hdr.pdu_type, buf) {
            Ok(_) => {},
            Err(e) => return Err(e),
        }
        Ok(
            Lsp {
                hdr,
                rem_lifetime,
                lsp_id,
                seqno,
                cksum,
                flags,
                tlvs,
                raw: Bytes::new(),
                base_time: lsp_base_time(),
            },
        )
    }

    /// Encodes the PDU: sets its checksum and its raw data, which are returned
    /// too.
    #[verifier::rlimit(40)]
    pub(crate) fn encode(&mut self) -> (r: Bytes)
        requires
            old(self)@.encodable(),
        ensures
            final(self)@ == old(self)@.sealed(),
            final(self).base_time == old(self).base_time,
            bytes_content(r) == final(self)@.raw,
    {
        let ghost v = self@;
        let ghost body = v.body(0);
        proof {
            self.lsp_id.lemma_wire(Seq::empty());
            lemma_be_bytes_len(self.seqno as nat, 4);
            lemma_be_bytes_len(self.cksum as nat, 2);
            lemma_be_bytes_len(self.rem_lifetime as nat, 2);
            lemma_be_bytes_2(0);
            lemma_be_bytes_len(
                (8 + 2 + (be_bytes(v.rem_lifetime as nat, 2) + v.body(v.cksum)).len()) as nat
                    % 0x1_0000,
                2,
            );
        }
        let mut buf = pdu_encode_start(&self.hdr);
        // The PDU length will be initialized later.
        let len_pos: usize = buf.len();
        put_u16(&mut buf, 0);
        put_u16(&mut buf, self.rem_lifetime);
        let ghost start = bytes_mut_content(buf);
        self.lsp_id.encode(&mut buf);
        put_u32(&mut buf, self.seqno);
        // The checksum will be initialized later.
        put_u16(&mut buf, 0);
        put_u8(&mut buf, self.flags.bits());
        // Encode TLVs.
        self.tlvs.encode(&mut buf);
        assert(bytes_mut_content(buf) =~= start + body);
        // Compute LSP checksum.
        let all = bytes_mut_as_slice(&buf);
        assert(all@.subrange(12, all@.len() as int) =~= body);
        let cksum = Self::checksum(slice_subrange(all, 12, all.len()));
        set_octet(&mut buf, 24, cksum[0]);
        set_octet(&mut buf, 25, cksum[1]);
        self.cksum = cksum[0] as u16 * 256 + cksum[1] as u16;
        proof {
            lemma_be_bytes_2(self.cksum);
            assert(bytes_mut_content(buf) =~= start + v.body(self.cksum));
            assert(bytes_mut_content(buf).take(8) =~= header_wire(v.hdr));
            assert(bytes_mut_content(buf).skip(10) =~= be_bytes(v.rem_lifetime as nat, 2) + v.body(
                self.cksum,
            ));
        }
        // Store LSP raw data.
        let bytes = pdu_encode_end(buf, len_pos);
        self.raw = bytes.clone();
        bytes
    }

    /// Computes the LSP checksum of the octets from the LSP ID on, with the
    /// checksum field zeroed.
    pub fn checksum(data: &[u8]) -> (r: [u8; 2])
        requires
            data@.len() % 0x1_0000 >= 13,
        ensures
            r@ == seq![check_octet_0(data@), check_octet_1(data@)],
    {
        fletcher_check_octets(data)
    }

    /// Checks if the LSP checksum is valid.
    pub fn is_checksum_valid(&self) -> (r: bool)
        requires
            self@.raw.len() >= 26,
        ensures
            r == checksum_valid(self@.raw),
    {
        let raw = bytes_as_slice(&self.raw);
        // If both are zero return correct.
        if raw[24] == 0 && raw[25] == 0 {
            return true;
        }

        // If either, but not both are zero return incorrect.
        if raw[24] == 0 || raw[25] == 0 {
            return false;
        }

        // Skip everything before (and including) the Remaining Lifetime field.
        assert(raw@.subrange(12, raw@.len() as int) =~= raw@.skip(12));
        fletcher::calc_fletcher16(slice_subrange(raw, 12, raw.len())) == 0
    }

    /// Returns the LSP remaining lifetime once `elapsed` seconds have passed
    /// since the base time, if there is one.
    pub fn rem_lifetime_after(&self, elapsed: u64) -> (r: u16)
        ensures
            r == (if self.base_time is None {
                self.rem_lifetime as int
            } else {
                lifetime_after(self.rem_lifetime, elapsed)
            }),
    {
        let mut rem_lifetime = self.rem_lifetime;
        if self.base_time.is_some() {
            let elapsed: u16 = if elapsed <= u16::MAX as u64 {
                elapsed as u16
            } else {
                u16::MAX
            };
            rem_lifetime = rem_lifetime.saturating_sub(elapsed);
        }
        rem_lifetime
    }

    /// Returns the current LSP remaining lifetime: what is left of it after the
    /// time that the clock shows to have passed since the base time.
    pub fn rem_lifetime(&self) -> (r: u16)
        ensures
            match self.base_time {
                Some(t) => exists|n: u64| #[trigger]
                    seconds_since(t, n) && r == lifetime_after(self.rem_lifetime, n),
                None => r == self.rem_lifetime,
            },
            r <= self.rem_lifetime,
    {
        match &self.base_time {
            Some(base_time) => self.rem_lifetime_after(elapsed_secs(base_time)),
            None => self.rem_lifetime_after(0),
        }
    }

    /// Updates the LSP remaining lifetime, also in the raw data.
    pub fn set_rem_lifetime(&mut self, rem_lifetime: u16)
        requires
            old(self)@.raw.len() >= 12,
        ensures
            final(self)@ == (LspView {
                rem_lifetime,
                raw: with_rem_lifetime(old(self)@.raw, rem_lifetime),
                ..old(self)@
            }),
            final(self).base_time matches Some(t) && clock_reading(t),
    {
        // Update Remaining Lifetime field.
        self.rem_lifetime = rem_lifetime;
        // Update raw data.
        let mut raw = bytes_mut_from(bytes_as_slice(&self.raw));
        set_octet(&mut raw, 10, (rem_lifetime / 256) as u8);
        set_octet(&mut raw, 11, (rem_lifetime % 256) as u8);
        self.raw = raw.freeze();
        // Update base time.
        self.base_time = lsp_base_time();
    }

    /// Converts the LSP into an LSP Entry for use in an SNP.
    pub fn as_snp_entry(&self) -> (r: LspEntry)
        ensures
            r == (LspEntry {
                rem_lifetime: self.rem_lifetime,
                lsp_id: self.lsp_id,
                seqno: self.seqno,
                cksum: self.cksum,
            }),
    {
        LspEntry {
            rem_lifetime: self.rem_lifetime,
            lsp_id: self.lsp_id,
            seqno: self.seqno,
            cksum: self.cksum,
        }
    }
}

/// Where the fields of an LSP are found behind the header.
proof fn lemma_lsp_layout(
    hdr: Seq<u8>,
    len: Seq<u8>,
    rem_lifetime: Seq<u8>,
    lsp_id: Seq<u8>,
    seqno: Seq<u8>,
    cksum: Seq<u8>,
    flags: Seq<u8>,
    tlvs: Seq<u8>,
)
    requires
        hdr.len() == 8,
        len.len() == 2,
        rem_lifetime.len() == 2,
        lsp_id.len() == 8,
        seqno.len() == 4,
        cksum.len() == 2,
        flags.len() == 1,
    ensures
        ({
            let s = (hdr + len + (rem_lifetime + (lsp_id + seqno + cksum + flags + tlvs))).skip(8);
            &&& s.len() == 19 + tlvs.len()
            &&& s.subrange(0, 2) == len
            &&& s.subrange(2, 4) == rem_lifetime
            &&& s.skip(4) == lsp_id + s.skip(12)
            &&& s.subrange(12, 16) == seqno
            &&& s.subrange(16, 18) == cksum
            &&& s[18] == flags[0]
            &&& s.skip(19) == tlvs
        }),
{
    let s = (hdr + len + (rem_lifetime + (lsp_id + seqno + cksum + flags + tlvs))).skip(8);
    assert(s.subrange(0, 2) =~= len);
    assert(s.subrange(2, 4) =~= rem_lifetime);
    assert(s.skip(4) =~= lsp_id + s.skip(12));
    assert(s.subrange(12, 16) =~= seqno);
    assert(s.subrange(16, 18) =~= cksum);
    assert(s.skip(19) =~= tlvs);
}

/// An LSP is read back from what follows its header, without its raw data.
pub proof fn lemma_lsp_parse_wire(v: LspView)
    requires
        v.valid(),
    ensures
        lsp_parse(v.hdr, v.wire().len(), v.wire().skip(8)) == Ok::<LspView, DecodeError>(
            LspView { raw: Seq::empty(), ..v },
        ),
        v.wire().len() >= fixed_len(v.hdr.pdu_type),
{
    let s = v.wire().skip(8);
    let len = v.wire().len();
    let tail = be_bytes(v.rem_lifetime as nat, 2) + v.body(v.cksum);
    let len_octets = be_bytes((8 + 2 + tail.len()) as nat % 0x1_0000, 2);
    v.lsp_id.lemma_wire(s.skip(12));
    lemma_be_bytes_len(v.rem_lifetime as nat, 2);
    lemma_be_bytes_len(v.seqno as nat, 4);
    lemma_be_bytes_len(v.cksum as nat, 2);
    lemma_be_bytes_len((8 + 2 + tail.len()) as nat % 0x1_0000, 2);
    lemma_pow256_values();
    lemma_be_uint_of_bytes(v.rem_lifetime as nat, 2);
    lemma_be_uint_of_bytes(v.seqno as nat, 4);
    lemma_be_uint_of_bytes(v.cksum as nat, 2);
    lemma_be_uint_of_bytes(len, 2);
    lemma_lsp_layout(
        header_wire(v.hdr),
        len_octets,
        be_bytes(v.rem_lifetime as nat, 2),
        v.lsp_id.wire(),
        be_bytes(v.seqno as nat, 4),
        be_bytes(v.cksum as nat, 2),
        seq![v.flags.bits],
        v.tlvs.wire(),
    );
    lemma_lsp_tlvs_parse_wire(v.tlvs, v.hdr.pdu_type);
}

/// The checksum of an LSP that was encoded is valid.
pub proof fn lemma_sealed_checksum_valid(v: LspView)
    requires
        v.body(0).len() < 0x1_0000,
    ensures
        checksum_valid(v.sealed().raw),
{
    let d = v.body(0);
    let c = v.sealed();
    v.lsp_id.lemma_wire(Seq::empty());
    lemma_be_bytes_len(v.rem_lifetime as nat, 2);
    lemma_be_bytes_len(v.seqno as nat, 4);
    lemma_be_bytes_2(0);
    lemma_be_bytes_2(c.cksum);
    let tail = be_bytes(v.rem_lifetime as nat, 2) + c.body(c.cksum);
    lemma_be_bytes_len((8 + 2 + tail.len()) as nat % 0x1_0000, 2);
    lemma_check_octets_fit(d);
    let fitted = d.update(12, check_octet_0(d)).update(13, check_octet_1(d));
    assert(c.body(c.cksum) =~= fitted);
    assert(c.raw.skip(12) =~= fitted);
    assert(c.raw[24] == fitted[12] && c.raw[25] == fitted[13]);
}

/// Another remaining lifetime leaves the checksum as valid as it was, and is
/// the one change on the wire.
pub proof fn lemma_with_rem_lifetime(v: LspView, raw: Seq<u8>, rem_lifetime: u16)
    requires
        raw.len() >= 26,
    ensures
        checksum_valid(with_rem_lifetime(raw, rem_lifetime)) == checksum_valid(raw),
        raw == v.wire() ==> with_rem_lifetime(raw, rem_lifetime) == (LspView {
            rem_lifetime,
            ..v
        }).wire(),
{
    let n = with_rem_lifetime(raw, rem_lifetime);
    assert(n.skip(12) =~= raw.skip(12));
    if raw == v.wire() {
        let w = LspView { rem_lifetime, ..v };
        let tail = be_bytes(v.rem_lifetime as nat, 2) + v.body(v.cksum);
        lemma_be_bytes_2(v.rem_lifetime);
        lemma_be_bytes_2(rem_lifetime);
        lemma_be_bytes_len((8 + 2 + tail.len()) as nat % 0x1_0000, 2);
        assert(w.body(w.cksum) == v.body(v.cksum));
        assert(n =~= w.wire());
    }
}

/// If an LSP carries check octets, neither of them zero, the checksum is valid
/// exactly if the octet sum and the running sum of all that follows the
/// remaining lifetime vanish modulo 255, at either level. If both check octets
/// are zero there is no checksum to fail, and one zero alone always fails.
pub proof fn lemma_checksum_by_sums(lsp: Lsp, r: bool)
    requires
        call_ensures(Lsp::is_checksum_valid, (&lsp,), r),
        lsp@.raw.len() >= 26,
    ensures
        ({
            let raw = lsp@.raw;
            let covered = raw.subrange(12, raw.len() as int);
            &&& raw[24] == 0 && raw[25] == 0 ==> r
            &&& raw[24] == 0 && raw[25] != 0 ==> !r
            &&& raw[24] != 0 && raw[25] == 0 ==> !r
            &&& raw[24] != 0 && raw[25] != 0 ==> (r <==> octet_sum(covered) % 255 == 0
                && running_sum(covered) % 255 == 0)
        }),
{
    assert(lsp@.raw.skip(12) =~= lsp@.raw.subrange(12, lsp@.raw.len() as int));
}

/// An LSP with check octets that is received with one octet changed behind the
/// remaining lifetime, by other than 255, is not taken for valid, at either
/// level, if it was valid as sent.
pub proof fn lemma_corruption_noticed(sent: Lsp, received: Lsp, i: int, valid: bool, r: bool)
    requires
        call_ensures(Lsp::is_checksum_valid, (&sent,), valid),
        call_ensures(Lsp::is_checksum_valid, (&received,), r),
        valid,
        sent@.raw.len() >= 26,
        sent@.raw[24] != 0 && sent@.raw[25] != 0,
        received@.raw.len() == sent@.raw.len(),
        12 <= i < sent@.raw.len(),
        forall|j: int|
            0 <= j < sent@.raw.len() && j != i ==> #[trigger] received@.raw[j] == sent@.raw[j],
        received@.raw[i] != sent@.raw[i],
        received@.raw[i] - sent@.raw[i] != 255,
        sent@.raw[i] - received@.raw[i] != 255,
    ensures
        !r,
{
    let d = sent@.raw.skip(12);
    let e = received@.raw.skip(12);
    let v = received@.raw[i];
    assert(e =~= d.update(i - 12, v));
    lemma_octet_noticed(d, i - 12, v);
}

/// Nor is one in which two neighboring octets changed places.
pub proof fn lemma_swap_of_octets_noticed(sent: Lsp, received: Lsp, i: int, valid: bool, r: bool)
    requires
        call_ensures(Lsp::is_checksum_valid, (&sent,), valid),
        call_ensures(Lsp::is_checksum_valid, (&received,), r),
        valid,
        sent@.raw.len() >= 26,
        sent@.raw[24] != 0 && sent@.raw[25] != 0,
        received@.raw.len() == sent@.raw.len(),
        12 <= i < sent@.raw.len() - 1,
        forall|j: int|
            0 <= j < sent@.raw.len() && j != i && j != i + 1 ==> #[trigger] received@.raw[j]
                == sent@.raw[j],
        received@.raw[i] == sent@.raw[i + 1],
        received@.raw[i + 1] == sent@.raw[i],
        sent@.raw[i] != sent@.raw[i + 1],
        sent@.raw[i] - sent@.raw[i + 1] != 255,
        sent@.raw[i + 1] - sent@.raw[i] != 255,
    ensures
        !r,
{
    let d = sent@.raw.skip(12);
    let e = received@.raw.skip(12);
    let k = i - 12;
    assert(e =~= d.update(k, d[k + 1]).update(k + 1, d[k]));
    lemma_swap_noticed(d, k);
}

/// What precedes the LSP ID, the remaining lifetime too, is not covered: it does
/// not change the verdict.
pub proof fn lemma_front_not_covered(a: Lsp, b: Lsp, r: bool, s: bool)
    requires
        call_ensures(Lsp::is_checksum_valid, (&a,), r),
        call_ensures(Lsp::is_checksum_valid, (&b,), s),
        a@.raw.len() >= 26,
        b@.raw.len() == a@.raw.len(),
        forall|j: int| 12 <= j < a@.raw.len() ==> #[trigger] b@.raw[j] == a@.raw[j],
    ensures
        r == s,
{
    assert(a@.raw.skip(12) =~= b@.raw.skip(12));
}

/// A new LSP holds what it was made from, and its raw data are what it would be
/// sent as: they carry a checksum, both octets of which are other than zero, and
/// which is valid.
pub proof fn lemma_new_lsp(
    level: LevelNumber,
    rem_lifetime: u16,
    lsp_id: LspId,
    seqno: u32,
    flags: LspFlags,
    tlvs: LspTlvs,
    lsp: Lsp,
    r: bool,
)
    requires
        call_ensures(Lsp::new, (level, rem_lifetime, lsp_id, seqno, flags, tlvs), lsp),
        call_ensures(Lsp::is_checksum_valid, (&lsp,), r),
    ensures
        lsp.hdr.pdu_type == PduType::LspL1 <==> level == LevelNumber::L1,
        lsp.hdr.pdu_type == PduType::LspL2 <==> level == LevelNumber::L2,
        lsp.hdr.max_area_addrs == 0,
        lsp.rem_lifetime == rem_lifetime,
        lsp.lsp_id == lsp_id,
        lsp.seqno == seqno,
        lsp.flags == flags,
        lsp@.tlvs == tlvs@,
        lsp@.raw == lsp@.wire(),
        lsp@.raw.len() == 27 + tlvs@.wire().len(),
        lsp.cksum == 256 * lsp@.raw[24] + lsp@.raw[25],
        lsp@.raw[24] != 0,
        lsp@.raw[25] != 0,
        15 + tlvs@.wire().len() < 0x1_0000 ==> r,
        lsp.base_time matches Some(t) && clock_reading(t),
{
    let made = LspView {
        hdr: lsp.hdr,
        rem_lifetime,
        lsp_id,
        seqno,
        cksum: 0,
        flags,
        tlvs: tlvs@,
        raw: Seq::empty(),
    };
    assert(lsp@ == made.sealed());
    lemma_lsp_octets(lsp@);
    lemma_lsp_lens(lsp@);
}

/// Where the fields of an LSP stand on the wire, octet by octet.
pub proof fn lemma_lsp_octets(v: LspView)
    ensures
        ({
            let s = v.wire();
            &&& s.len() == 27 + v.tlvs.wire().len()
            &&& s.take(8) == header_wire(v.hdr)
            &&& 256 * s[8] + s[9] == s.len() % 0x1_0000
            &&& 256 * s[10] + s[11] == v.rem_lifetime
            &&& s.subrange(12, 18) == v.lsp_id.system_id.octets@
            &&& s[18] == v.lsp_id.pseudonode
            &&& s[19] == v.lsp_id.fragment
            &&& 0x100_0000 * s[20] + 0x1_0000 * s[21] + 0x100 * s[22] + s[23] == v.seqno
            &&& 256 * s[24] + s[25] == v.cksum
            &&& s[26] == v.flags.bits
            &&& s.skip(27) == v.tlvs.wire()
        }),
{
    let s = v.wire();
    let tail = be_bytes(v.rem_lifetime as nat, 2) + v.body(v.cksum);
    lemma_lsp_lens(v);
    v.lsp_id.lemma_wire(Seq::empty());
    v.lsp_id.system_id.lemma_wire(Seq::empty());
    lemma_be_bytes_2(v.rem_lifetime);
    lemma_be_bytes_2(v.cksum);
    lemma_be_bytes_2(((8 + 2 + tail.len()) as nat % 0x1_0000) as u16);
    lemma_be_bytes_len(v.seqno as nat, 4);
    reveal_with_fuel(be_bytes, 5);
    assert(s.take(8) =~= header_wire(v.hdr));
    assert(s.subrange(12, 18) =~= v.lsp_id.system_id.octets@);
    assert(s.skip(27) =~= v.tlvs.wire());
}

/// Each second takes one off the remaining lifetime, until it is zero, and then
/// it stays so. Without a base time nothing is taken off.
pub proof fn lemma_lifetime_runs_out(lsp: Lsp, elapsed: u64, at_once: u16, now: u16, next: u16)
    requires
        call_ensures(Lsp::rem_lifetime_after, (&lsp, 0), at_once),
        call_ensures(Lsp::rem_lifetime_after, (&lsp, elapsed), now),
        elapsed < u64::MAX,
        call_ensures(Lsp::rem_lifetime_after, (&lsp, (elapsed + 1) as u64), next),
    ensures
        at_once == lsp.rem_lifetime,
        lsp.base_time is None ==> now == lsp.rem_lifetime,
        lsp.base_time is Some ==> {
            &&& now > 0 ==> next == now - 1 && now + elapsed == lsp.rem_lifetime
            &&& now == 0 ==> next == 0
        },
{
}

/// What is left of the lifetime is what is left after the seconds that the clock
/// shows to have passed.
pub proof fn lemma_lifetime_by_clock(lsp: Lsp, r: u16)
    requires
        call_ensures(Lsp::rem_lifetime, (&lsp,), r),
    ensures
        match lsp.base_time {
            Some(t) => exists|n: u64| #[trigger]
                seconds_since(t, n) && if n <= lsp.rem_lifetime {
                    r + n == lsp.rem_lifetime
                } else {
                    r == 0
                },
            None => r == lsp.rem_lifetime,
        },
{
}

/// Another remaining lifetime is told by the LSP and by its raw data, and counts
/// from now. Nothing else changes, so that the checksum is as valid as before.
pub proof fn lemma_set_lifetime(a: Lsp, rem_lifetime: u16, b: Lsp, before: bool, after: bool)
    requires
        exists|x: &mut Lsp| #[trigger]
            call_ensures(Lsp::set_rem_lifetime, (x, rem_lifetime), ()) && *x == a && *final(x) == b,
        a@.raw.len() >= 26,
        call_ensures(Lsp::is_checksum_valid, (&a,), before),
        call_ensures(Lsp::is_checksum_valid, (&b,), after),
    ensures
        b.rem_lifetime == rem_lifetime,
        b@.raw.len() == a@.raw.len(),
        256 * b@.raw[10] + b@.raw[11] == rem_lifetime,
        forall|i: int|
            0 <= i < a@.raw.len() && i != 10 && i != 11 ==> #[trigger] b@.raw[i] == a@.raw[i],
        b.hdr == a.hdr,
        b.lsp_id == a.lsp_id,
        b.seqno == a.seqno,
        b.cksum == a.cksum,
        b.flags == a.flags,
        b@.tlvs == a@.tlvs,
        b.base_time matches Some(t) && clock_reading(t),
        after == before,
{
    assert(a@.raw.skip(12) =~= b@.raw.skip(12));
    assert(b@.hdr == b.hdr && b@.lsp_id == b.lsp_id && b@.seqno == b.seqno);
    assert(b@.cksum == b.cksum && b@.flags == b.flags && b@.rem_lifetime == b.rem_lifetime);
}

/// The summary of an LSP names it, and tells its lifetime, sequence number and
/// checksum as they stand in it.
pub proof fn lemma_summary(lsp: Lsp, r: LspEntry)
    requires
        call_ensures(Lsp::as_snp_entry, (&lsp,), r),
    ensures
        r.lsp_id == lsp.lsp_id,
        r.rem_lifetime == lsp.rem_lifetime,
        r.seqno == lsp.seqno,
        r.cksum == lsp.cksum,
{
}

/// The check octets of an LSP without a checksum are the only ones that fit: neither
/// is zero, and no other pair without a zero makes both sums vanish.
pub proof fn lemma_checksum_unique(data: &[u8], r: [u8; 2], x: u8, y: u8)
    requires
        call_ensures(Lsp::checksum, (data,), r),
        14 <= data@.len() < 0x1_0000,
        data@[12] == 0,
        data@[13] == 0,
        x != 0,
        y != 0,
    ensures
        r@[0] != 0,
        r@[1] != 0,
        ({
            let d = data@.update(12, x).update(13, y);
            octet_sum(d) % 255 == 0 && running_sum(d) % 255 == 0
        }) <==> r@[0] == x && r@[1] == y,
{
    lemma_fitting_octets_unique(data@, x, y);
}

} // verus!
