//! The entries of the TLVs that hold lists.

use bytes::{Bytes, BytesMut};
use vstd::prelude::*;

use crate::isis::packet::error::{DecodeError, DecodeResult};
use crate::isis::packet::id::{lsp_id_at, LspId};
use crate::isis::packet::tlv::{
    list_parse, list_wire, value_wire, EntriesTlv, Tlv, TlvEntry, TLV_MAX_LEN,
};
use crate::utils::be::{
    be_bytes, be_field, be_uint, lemma_be_bytes_digit, lemma_be_bytes_len, lemma_be_bytes_of_uint,
    lemma_be_fields, lemma_be_uint_of_bytes, lemma_pow256_values, pow256,
};
use crate::utils::buf::{
    bytes_content, bytes_mut_content, get_u16, get_u32, get_u8, put_slice, put_u16, put_u32, put_u8,
    BytesExt, BytesMutExt,
};
use crate::utils::net::{Ipv4Addr, Ipv6Addr};

verus! {

/// The supported network layer protocols.
pub type ProtocolsSupportedTlv = EntriesTlv<u8>;

/// The area addresses of the system.
pub type AreaAddressesTlv = EntriesTlv<AreaAddr>;

/// The LAN addresses of the neighbors.
pub type NeighborsTlv = EntriesTlv<[u8; 6]>;

/// The IPv4 addresses of the interface or the system.
pub type Ipv4AddressesTlv = EntriesTlv<Ipv4Addr>;

/// The IPv6 addresses of the interface or the system.
pub type Ipv6AddressesTlv = EntriesTlv<Ipv6Addr>;

/// Summaries of LSPs.
pub type LspEntriesTlv = EntriesTlv<LspEntry>;

/// `n`, but no more than `cap`.
pub(crate) fn capped(n: usize, cap: usize) -> (r: usize)
    ensures
        r == (if n <= cap {
            n
        } else {
            cap
        }),
{
    if n <= cap {
        n
    } else {
        cap
    }
}

// ===== protocols =====

impl TlvEntry for u8 {
    open spec fn reserved() -> nat {
        0
    }

    open spec fn wire(v: u8) -> Seq<u8> {
        seq![v]
    }

    open spec fn parse(s: Seq<u8>, tlv_len: u8) -> DecodeResult<(u8, nat)> {
        Ok((s[0], 1))
    }

    open spec fn valid(v: u8) -> bool {
        true
    }

    proof fn lemma_parse_wire(v: u8, rest: Seq<u8>, tlv_len: u8) {
    }

    proof fn lemma_parse_local(s: Seq<u8>, rest: Seq<u8>, tlv_len: u8) {
    }

    fn reserved_len() -> (n: usize) {
        0
    }

    fn capped_len(&self, cap: usize) -> (n: usize) {
        capped(1, cap)
    }

    fn encode(&self, buf: &mut BytesMut) {
        let ghost before = bytes_mut_content(*buf);
        put_u8(buf, *self);
        assert(bytes_mut_content(*buf) =~= before + seq![*self]);
    }

    fn decode(tlv_len: u8, buf: &mut Bytes) -> (r: DecodeResult<u8>) {
        Ok(get_u8(buf))
    }
}

proof fn lemma_protocols_len(l: Seq<u8>)
    ensures
        value_wire::<u8>(l).len() == l.len(),
    decreases l.len(),
{
    if l.len() > 0 {
        lemma_protocols_len(l.skip(1));
    }
}

/// A TLV of at most 255 protocols is valid.
pub(crate) proof fn lemma_protocols_valid(l: Seq<u8>)
    requires
        l.len() <= TLV_MAX_LEN,
    ensures
        ProtocolsSupportedTlv::valid(l),
{
    lemma_protocols_len(l);
}

// ===== area addresses =====

/// An area address.
#[derive(Clone, Debug, PartialEq, Eq)]
pub struct AreaAddr {
    pub octets: Vec<u8>,
}

impl View for AreaAddr {
    type V = Seq<u8>;

    open spec fn view(&self) -> Seq<u8> {
        self.octets@
    }
}

/// The most octets that an area address can have.
pub const AREA_ADDR_MAX_LEN: u8 = 13;

impl TlvEntry for AreaAddr {
    open spec fn reserved() -> nat {
        0
    }

    open spec fn wire(v: Seq<u8>) -> Seq<u8> {
        seq![(v.len() % 256) as u8] + v
    }

    open spec fn parse(s: Seq<u8>, tlv_len: u8) -> DecodeResult<(Seq<u8>, nat)> {
        if s[0] > AREA_ADDR_MAX_LEN || s[0] > s.len() - 1 {
            Err(DecodeError::InvalidAreaAddrLen(s[0]))
        } else {
            Ok((s.subrange(1, 1 + s[0]), 1 + s[0] as nat))
        }
    }

    open spec fn valid(v: Seq<u8>) -> bool {
        v.len() <= AREA_ADDR_MAX_LEN
    }

    proof fn lemma_parse_wire(v: Seq<u8>, rest: Seq<u8>, tlv_len: u8) {
        let s = Self::wire(v) + rest;
        assert(s.subrange(1, 1 + s[0]) =~= v);
    }

    proof fn lemma_parse_local(s: Seq<u8>, rest: Seq<u8>, tlv_len: u8) {
        let t = s.take(1 + s[0]) + rest;
        assert(t.subrange(1, 1 + t[0]) =~= s.subrange(1, 1 + s[0]));
    }

    fn reserved_len() -> (n: usize) {
        0
    }

    fn capped_len(&self, cap: usize) -> (n: usize) {
        if cap == 0 {
            0
        } else {
            1 + capped(self.octets.len(), cap - 1)
        }
    }

    fn encode(&self, buf: &mut BytesMut) {
        let ghost before = bytes_mut_content(*buf);
        put_u8(buf, (self.octets.len() % 256) as u8);
        put_slice(buf, self.octets.as_slice());
        assert(bytes_mut_content(*buf) =~= before + Self::wire(self@));
    }

    fn decode(tlv_len: u8, buf: &mut Bytes) -> (r: DecodeResult<AreaAddr>) {
        let ghost s = bytes_content(*buf);
        let len = get_u8(buf);
        if len > AREA_ADDR_MAX_LEN || len as usize > buf.len() {
            return Err(DecodeError::InvalidAreaAddrLen(len));
        }
        let mut octets: Vec<u8> = Vec::new();
        let mut i: u8 = 0;
        while i < len
            invariant
                i <= len <= s.len() - 1,
                octets@ == s.subrange(1, 1 + i),
                bytes_content(*buf) == s.skip(1 + i),
            decreases len - i,
        {
            octets.push(get_u8(buf));
            i = i + 1;
            proof {
                assert(octets@ =~= s.subrange(1, 1 + i));
                assert(bytes_content(*buf) =~= s.skip(1 + i));
            }
        }
        Ok(AreaAddr { octets })
    }
}

// ===== LAN addresses =====

impl TlvEntry for [u8; 6] {
    open spec fn reserved() -> nat {
        0
    }

    open spec fn wire(v: Seq<u8>) -> Seq<u8> {
        v
    }

    open spec fn parse(s: Seq<u8>, tlv_len: u8) -> DecodeResult<(Seq<u8>, nat)> {
        if s.len() < 6 {
            Err(DecodeError::InvalidTlvLength(tlv_len))
        } else {
            Ok((s.take(6), 6))
        }
    }

    open spec fn valid(v: Seq<u8>) -> bool {
        v.len() == 6
    }

    proof fn lemma_parse_wire(v: Seq<u8>, rest: Seq<u8>, tlv_len: u8) {
        assert((v + rest).take(6) =~= v);
    }

    proof fn lemma_parse_local(s: Seq<u8>, rest: Seq<u8>, tlv_len: u8) {
        assert((s.take(6) + rest).take(6) =~= s.take(6));
    }

    fn reserved_len() -> (n: usize) {
        0
    }

    fn capped_len(&self, cap: usize) -> (n: usize) {
        capped(6, cap)
    }

    fn encode(&self, buf: &mut BytesMut) {
        put_slice(buf, self);
    }

    fn decode(tlv_len: u8, buf: &mut Bytes) -> (r: DecodeResult<[u8; 6]>) {
        if buf.len() < 6 {
            return Err(DecodeError::InvalidTlvLength(tlv_len));
        }
        let ghost s = bytes_content(*buf);
        let octets = [get_u8(buf), get_u8(buf), get_u8(buf), get_u8(buf), get_u8(buf), get_u8(buf)];
        proof {
            assert(octets@ =~= s.take(6));
            assert(bytes_content(*buf) =~= s.skip(6));
        }
        Ok(octets)
    }
}

// ===== IP addresses =====

impl TlvEntry for Ipv4Addr {
    open spec fn reserved() -> nat {
        0
    }

    open spec fn wire(v: Ipv4Addr) -> Seq<u8> {
        be_bytes(v.bits as nat, 4)
    }

    open spec fn parse(s: Seq<u8>, tlv_len: u8) -> DecodeResult<(Ipv4Addr, nat)> {
        if s.len() < 4 {
            Err(DecodeError::InvalidTlvLength(tlv_len))
        } else {
            Ok((Ipv4Addr { bits: be_uint(s.take(4)) as u32 }, 4))
        }
    }

    open spec fn valid(v: Ipv4Addr) -> bool {
        true
    }

    proof fn lemma_parse_wire(v: Ipv4Addr, rest: Seq<u8>, tlv_len: u8) {
        lemma_pow256_values();
        lemma_be_bytes_len(v.bits as nat, 4);
        lemma_be_uint_of_bytes(v.bits as nat, 4);
        assert((Self::wire(v) + rest).take(4) =~= Self::wire(v));
    }

    proof fn lemma_parse_local(s: Seq<u8>, rest: Seq<u8>, tlv_len: u8) {
        assert((s.take(4) + rest).take(4) =~= s.take(4));
    }

    fn reserved_len() -> (n: usize) {
        0
    }

    fn capped_len(&self, cap: usize) -> (n: usize) {
        proof {
            lemma_be_bytes_len(self.bits as nat, 4);
        }
        capped(4, cap)
    }

    fn encode(&self, buf: &mut BytesMut) {
        proof {
            lemma_be_bytes_len(self.bits as nat, 4);
        }
        buf.put_ipv4(self);
    }

    fn decode(tlv_len: u8, buf: &mut Bytes) -> (r: DecodeResult<Ipv4Addr>) {
        if buf.len() < 4 {
            return Err(DecodeError::InvalidTlvLength(tlv_len));
        }
        Ok(buf.get_ipv4())
    }
}

impl TlvEntry for Ipv6Addr {
    open spec fn reserved() -> nat {
        0
    }

    open spec fn wire(v: Ipv6Addr) -> Seq<u8> {
        be_bytes(v.bits as nat, 16)
    }

    open spec fn parse(s: Seq<u8>, tlv_len: u8) -> DecodeResult<(Ipv6Addr, nat)> {
        if s.len() < 16 {
            Err(DecodeError::InvalidTlvLength(tlv_len))
        } else {
            Ok((Ipv6Addr { bits: be_uint(s.take(16)) as u128 }, 16))
        }
    }

    open spec fn valid(v: Ipv6Addr) -> bool {
        true
    }

    proof fn lemma_parse_wire(v: Ipv6Addr, rest: Seq<u8>, tlv_len: u8) {
        lemma_pow256_values();
        lemma_be_bytes_len(v.bits as nat, 16);
        lemma_be_uint_of_bytes(v.bits as nat, 16);
        assert((Self::wire(v) + rest).take(16) =~= Self::wire(v));
    }

    proof fn lemma_parse_local(s: Seq<u8>, rest: Seq<u8>, tlv_len: u8) {
        assert((s.take(16) + rest).take(16) =~= s.take(16));
    }

    fn reserved_len() -> (n: usize) {
        0
    }

    fn capped_len(&self, cap: usize) -> (n: usize) {
        proof {
            lemma_be_bytes_len(self.bits as nat, 16);
        }
        capped(16, cap)
    }

    fn encode(&self, buf: &mut BytesMut) {
        proof {
            lemma_be_bytes_len(self.bits as nat, 16);
        }
        buf.put_ipv6(self);
    }

    fn decode(tlv_len: u8, buf: &mut Bytes) -> (r: DecodeResult<Ipv6Addr>) {
        if buf.len() < 16 {
            return Err(DecodeError::InvalidTlvLength(tlv_len));
        }
        Ok(buf.get_ipv6())
    }
}

// ===== LSP entries =====

/// The summary of an LSP.
#[derive(Clone, Copy, Debug, PartialEq, Eq)]
pub struct LspEntry {
    pub rem_lifetime: u16,
    pub lsp_id: LspId,
    pub seqno: u32,
    pub cksum: u16,
}

impl View for LspEntry {
    type V = LspEntry;

    open spec fn view(&self) -> LspEntry {
        *self
    }
}

/// How many octets an LSP entry takes.
pub const LSP_ENTRY_SIZE: usize = 16;

/// The most LSP entries that fit in a TLV.
pub const LSP_ENTRIES_MAX: usize = 15;

/// How many octets a TLV that is full of LSP entries takes.
pub const LSP_ENTRIES_MAX_SIZE: usize = 242;

impl TlvEntry for LspEntry {
    open spec fn reserved() -> nat {
        0
    }

    open spec fn wire(v: LspEntry) -> Seq<u8> {
        be_bytes(v.rem_lifetime as nat, 2) + v.lsp_id.wire() + be_bytes(v.seqno as nat, 4)
            + be_bytes(v.cksum as nat, 2)
    }

    open spec fn parse(s: Seq<u8>, tlv_len: u8) -> DecodeResult<(LspEntry, nat)> {
        if s.len() < LSP_ENTRY_SIZE {
            Err(DecodeError::InvalidTlvLength(tlv_len))
        } else {
            Ok(
                (
                    LspEntry {
                        rem_lifetime: be_field(s, 0, 2) as u16,
                        lsp_id: lsp_id_at(s.skip(2)),
                        seqno: be_field(s, 10, 4) as u32,
                        cksum: be_field(s, 14, 2) as u16,
                    },
                    LSP_ENTRY_SIZE as nat,
                ),
            )
        }
    }

    open spec fn valid(v: LspEntry) -> bool {
        true
    }

    proof fn lemma_parse_wire(v: LspEntry, rest: Seq<u8>, tlv_len: u8) {
        let s = Self::wire(v) + rest;
        lemma_pow256_values();
        lemma_be_bytes_len(v.rem_lifetime as nat, 2);
        lemma_be_uint_of_bytes(v.rem_lifetime as nat, 2);
        lemma_be_bytes_len(v.seqno as nat, 4);
        lemma_be_uint_of_bytes(v.seqno as nat, 4);
        lemma_be_bytes_len(v.cksum as nat, 2);
        lemma_be_uint_of_bytes(v.cksum as nat, 2);
        v.lsp_id.lemma_wire(s.skip(10));
        assert(s.subrange(0, 2) =~= be_bytes(v.rem_lifetime as nat, 2));
        assert(s.skip(2) =~= v.lsp_id.wire() + s.skip(10));
        assert(s.subrange(10, 14) =~= be_bytes(v.seqno as nat, 4));
        assert(s.subrange(14, 16) =~= be_bytes(v.cksum as nat, 2));
    }

    proof fn lemma_parse_local(s: Seq<u8>, rest: Seq<u8>, tlv_len: u8) {
        let t = s.take(16) + rest;
        assert(t.subrange(0, 2) =~= s.subrange(0, 2));
        assert(t.subrange(10, 14) =~= s.subrange(10, 14));
        assert(t.subrange(14, 16) =~= s.subrange(14, 16));
    }

    fn reserved_len() -> (n: usize) {
        0
    }

    fn capped_len(&self, cap: usize) -> (n: usize) {
        proof {
            Self::lemma_parse_wire(self@, Seq::empty(), 0);
        }
        capped(LSP_ENTRY_SIZE, cap)
    }

    fn encode(&self, buf: &mut BytesMut) {
        let ghost before = bytes_mut_content(*buf);
        proof {
            Self::lemma_parse_wire(self@, Seq::empty(), 0);
            lemma_be_bytes_len(self.rem_lifetime as nat, 2);
            lemma_be_bytes_len(self.seqno as nat, 4);
            lemma_be_bytes_len(self.cksum as nat, 2);
        }
        put_u16(buf, self.rem_lifetime);
        self.lsp_id.encode(buf);
        put_u32(buf, self.seqno);
        put_u16(buf, self.cksum);
        assert(bytes_mut_content(*buf) =~= before + Self::wire(self@));
    }

    fn decode(tlv_len: u8, buf: &mut Bytes) -> (r: DecodeResult<LspEntry>) {
        if buf.len() < LSP_ENTRY_SIZE {
            return Err(DecodeError::InvalidTlvLength(tlv_len));
        }
        let ghost s = bytes_content(*buf);
        assert(s.take(2) =~= s.subrange(0, 2));
        let rem_lifetime = get_u16(buf);
        let lsp_id = LspId::decode(buf);
        assert(bytes_content(*buf).take(4) =~= s.subrange(10, 14));
        let seqno = get_u32(buf);
        assert(bytes_content(*buf).take(2) =~= s.subrange(14, 16));
        let cksum = get_u16(buf);
        assert(bytes_content(*buf) =~= s.skip(16));
        Ok(LspEntry { rem_lifetime, lsp_id, seqno, cksum })
    }
}

// ===== octet by octet =====

/// The protocols of a TLV are the octets of its value.
pub proof fn lemma_protocols_octets(value: Seq<u8>)
    requires
        value.len() <= TLV_MAX_LEN,
    ensures
        ProtocolsSupportedTlv::parse_value(value) == Ok::<Seq<u8>, DecodeError>(value),
        ProtocolsSupportedTlv::value(value) == value,
{
    lemma_protocols_list(value, value.len() as u8);
    assert(value.skip(0) =~= value);
    assert(ProtocolsSupportedTlv::value(value) =~= value) by {
        lemma_protocols_wire(value);
    }
}

proof fn lemma_protocols_list(s: Seq<u8>, tlv_len: u8)
    ensures
        list_parse::<u8>(s, tlv_len) == Ok::<Seq<u8>, DecodeError>(s),
    decreases s.len(),
{
    if s.len() > 0 {
        lemma_protocols_list(s.skip(1), tlv_len);
        assert(seq![s[0]] + s.skip(1) =~= s);
    } else {
        assert(s =~= Seq::empty());
    }
}

proof fn lemma_protocols_wire(l: Seq<u8>)
    ensures
        list_wire::<u8>(l) == l,
    decreases l.len(),
{
    if l.len() > 0 {
        lemma_protocols_wire(l.skip(1));
        assert(seq![l[0]] + l.skip(1) =~= l);
    } else {
        assert(list_wire::<u8>(l) =~= l);
    }
}

/// An area address is told by its length, which is at most 13, and as many
/// octets. If they are not there, the length is refused.
pub proof fn lemma_area_addr_octets(s: Seq<u8>, tlv_len: u8)
    requires
        s.len() > 0,
    ensures
        match AreaAddr::parse(s, tlv_len) {
            Ok((v, n)) => {
                &&& s[0] <= 13
                &&& s.len() >= 1 + s[0]
                &&& n == 1 + s[0]
                &&& v.len() == s[0]
                &&& forall|i: int| 0 <= i < v.len() ==> #[trigger] v[i] == s[1 + i]
            },
            Err(e) => (s[0] > 13 || s.len() < 1 + s[0]) && e == DecodeError::InvalidAreaAddrLen(
                s[0],
            ),
        },
        AreaAddr::reserved() == 0,
{
}

/// A LAN address is six octets. If they are not there, the TLV is refused.
pub proof fn lemma_lan_addr_octets(s: Seq<u8>, tlv_len: u8)
    ensures
        match <[u8; 6]>::parse(s, tlv_len) {
            Ok((v, n)) => {
                &&& s.len() >= 6
                &&& n == 6
                &&& v.len() == 6
                &&& forall|i: int| 0 <= i < 6 ==> #[trigger] v[i] == s[i]
            },
            Err(e) => s.len() < 6 && e == DecodeError::InvalidTlvLength(tlv_len),
        },
        <[u8; 6]>::reserved() == 0,
{
}

/// An IPv4 address is four octets, the first one counting most. If they are not
/// there, the TLV is refused.
pub proof fn lemma_ipv4_octets(s: Seq<u8>, tlv_len: u8)
    ensures
        match Ipv4Addr::parse(s, tlv_len) {
            Ok((v, n)) => {
                &&& s.len() >= 4
                &&& n == 4
                &&& v.bits == 0x100_0000 * s[0] + 0x1_0000 * s[1] + 0x100 * s[2] + s[3]
            },
            Err(e) => s.len() < 4 && e == DecodeError::InvalidTlvLength(tlv_len),
        },
        Ipv4Addr::reserved() == 0,
{
    lemma_be_fields(s, 0);
    assert(s.take(4) =~= s.subrange(0, 4));
}

/// An IPv6 address is sixteen octets, the first one counting most. If they are
/// not there, the TLV is refused.
pub proof fn lemma_ipv6_octets(s: Seq<u8>, tlv_len: u8, i: int)
    requires
        0 <= i < 16,
    ensures
        match Ipv6Addr::parse(s, tlv_len) {
            Ok((v, n)) => {
                &&& s.len() >= 16
                &&& n == 16
                &&& (v.bits as nat / pow256((15 - i) as nat)) % 256 == s[i]
            },
            Err(e) => s.len() < 16 && e == DecodeError::InvalidTlvLength(tlv_len),
        },
        Ipv6Addr::reserved() == 0,
{
    if s.len() >= 16 {
        let t = s.take(16);
        lemma_be_bytes_of_uint(t);
        lemma_pow256_values();
        lemma_be_bytes_digit(be_uint(t), 16, i);
        assert(be_bytes(be_uint(t), 16)[i] == t[i]);
    }
}

/// The summary of an LSP is sixteen octets: the remaining lifetime, the LSP ID,
/// the sequence number and the checksum. If they are not there, the TLV is
/// refused.
pub proof fn lemma_lsp_entry_octets(s: Seq<u8>, tlv_len: u8)
    ensures
        match LspEntry::parse(s, tlv_len) {
            Ok((v, n)) => {
                &&& s.len() >= 16
                &&& n == 16
                &&& v.rem_lifetime == 0x100 * s[0] + s[1]
                &&& v.lsp_id.system_id.octets@ == s.subrange(2, 8)
                &&& v.lsp_id.pseudonode == s[8]
                &&& v.lsp_id.fragment == s[9]
                &&& v.seqno == 0x100_0000 * s[10] + 0x1_0000 * s[11] + 0x100 * s[12] + s[13]
                &&& v.cksum == 0x100 * s[14] + s[15]
            },
            Err(e) => s.len() < 16 && e == DecodeError::InvalidTlvLength(tlv_len),
        },
        LspEntry::reserved() == 0,
{
    lemma_be_fields(s, 0);
    lemma_be_fields(s, 10);
    lemma_be_fields(s, 14);
    if s.len() >= 16 {
        assert(lsp_id_at(s.skip(2)).system_id.octets@ =~= s.subrange(2, 8));
    }
}

/// Entries of these types stand on the wire as they are read: nothing is lost,
/// and nothing is made up.
pub proof fn lemma_entries_wire(s: Seq<u8>, tlv_len: u8)
    ensures
        s.len() > 0 ==> (AreaAddr::parse(s, tlv_len) matches Ok((v, n)) ==> AreaAddr::wire(v)
            == s.take(n as int)),
        <[u8; 6]>::parse(s, tlv_len) matches Ok((v, n)) ==> <[u8; 6]>::wire(v) == s.take(n as int),
        Ipv4Addr::parse(s, tlv_len) matches Ok((v, n)) ==> Ipv4Addr::wire(v) == s.take(n as int),
        Ipv6Addr::parse(s, tlv_len) matches Ok((v, n)) ==> Ipv6Addr::wire(v) == s.take(n as int),
        LspEntry::parse(s, tlv_len) matches Ok((v, n)) ==> LspEntry::wire(v) == s.take(n as int),
{
    lemma_pow256_values();
    if s.len() > 0 {
        if let Ok((v, n)) = AreaAddr::parse(s, tlv_len) {
            assert(AreaAddr::wire(v) =~= s.take(n as int));
        }
    }
    if s.len() >= 4 {
        lemma_be_bytes_of_uint(s.take(4));
    }
    if s.len() >= 16 {
        lemma_be_bytes_of_uint(s.take(16));
        lemma_be_bytes_of_uint(s.subrange(0, 2));
        lemma_be_bytes_of_uint(s.subrange(10, 14));
        lemma_be_bytes_of_uint(s.subrange(14, 16));
        let v = LspEntry::parse(s, tlv_len).unwrap().0;
        assert(v.lsp_id.wire() =~= s.subrange(2, 10)) by {
            assert(v.lsp_id.system_id.octets@ =~= s.subrange(2, 8));
        }
        assert(LspEntry::wire(v) =~= s.take(16));
    }
}

} // verus!
