//! The entries of the TLVs that tell what can be reached.

use bytes::{Bytes, BytesMut};
use vstd::prelude::*;

use crate::isis::packet::entries::capped;
use crate::isis::packet::error::{DecodeError, DecodeResult};
use crate::isis::packet::id::{lan_id_at, LanId};
use crate::isis::packet::tlv::{zeros, EntriesTlv, TlvEntry};
use crate::utils::be::{
    be_bytes, be_field, be_uint, lemma_be_bytes_digit, lemma_be_bytes_len, lemma_be_bytes_of_uint,
    lemma_be_fields, lemma_be_uint_of_bytes, lemma_octet_bits, lemma_pow256_monotone,
    lemma_pow256_values, pow256,
};
use crate::utils::buf::{
    bytes_as_slice, bytes_content, bytes_mut_content, copy_to_bytes, get_u32, get_u8, put_slice,
    put_u32, put_u8, BytesExt, BytesMutExt,
};
use crate::utils::net::{Ipv4Addr, Ipv4Network, Ipv6Addr, Ipv6Network};

verus! {

/// Neighbors, with narrow metrics.
pub type IsReachTlv = EntriesTlv<IsReach>;

/// Neighbors, with wide metrics.
pub type ExtIsReachTlv = EntriesTlv<ExtIsReach>;

/// IPv4 prefixes, with narrow metrics.
pub type Ipv4ReachTlv = EntriesTlv<Ipv4Reach>;

/// IPv4 prefixes, with wide metrics.
pub type ExtIpv4ReachTlv = EntriesTlv<ExtIpv4Reach>;

/// IPv6 prefixes.
pub type Ipv6ReachTlv = EntriesTlv<Ipv6Reach>;

// ===== narrow metrics =====

/// The octet of an optional metric: the most significant bit says that the
/// metric is not supported.
pub open spec fn opt_metric_octet(m: Option<u8>) -> u8 {
    match m {
        Some(m) => m,
        None => 0x80,
    }
}

/// The optional metric that an octet stands for.
pub open spec fn opt_metric_at(octet: u8) -> Option<u8> {
    if octet >= 0x80 {
        None
    } else {
        Some((octet % 0x40) as u8)
    }
}

/// A narrow metric has 6 bits.
pub open spec fn opt_metric_valid(m: Option<u8>) -> bool {
    m matches Some(m) ==> m < 0x40
}

fn put_opt_metric(buf: &mut BytesMut, m: Option<u8>)
    requires
        bytes_mut_content(*old(buf)).len() + 1 <= isize::MAX,
    ensures
        bytes_mut_content(*final(buf)) == bytes_mut_content(*old(buf)).push(opt_metric_octet(m)),
{
    match m {
        Some(m) => put_u8(buf, m),
        None => put_u8(buf, 0x80),
    }
}

fn get_opt_metric(buf: &mut Bytes) -> (m: Option<u8>)
    requires
        bytes_content(*old(buf)).len() >= 1,
    ensures
        m == opt_metric_at(bytes_content(*old(buf))[0]),
        bytes_content(*final(buf)) == bytes_content(*old(buf)).skip(1),
{
    let octet = get_u8(buf);
    if octet >= 0x80 {
        None
    } else {
        Some(octet % 0x40)
    }
}

/// A neighbor, with narrow metrics.
#[derive(Clone, Copy, Debug, PartialEq, Eq)]
pub struct IsReach {
    pub metric: u8,
    pub metric_delay: Option<u8>,
    pub metric_expense: Option<u8>,
    pub metric_error: Option<u8>,
    pub neighbor: LanId,
}

impl View for IsReach {
    type V = IsReach;

    open spec fn view(&self) -> IsReach {
        *self
    }
}

/// How many octets a neighbor with narrow metrics takes.
pub const IS_REACH_SIZE: usize = 11;

impl TlvEntry for IsReach {
    open spec fn reserved() -> nat {
        1
    }

    open spec fn wire(v: IsReach) -> Seq<u8> {
        seq![
            v.metric,
            opt_metric_octet(v.metric_delay),
            opt_metric_octet(v.metric_expense),
            opt_metric_octet(v.metric_error),
        ] + v.neighbor.wire()
    }

    open spec fn parse(s: Seq<u8>, tlv_len: u8) -> DecodeResult<(IsReach, nat)> {
        if s.len() < IS_REACH_SIZE {
            Err(DecodeError::InvalidTlvLength(tlv_len))
        } else {
            Ok(
                (
                    IsReach {
                        metric: (s[0] % 0x40) as u8,
                        metric_delay: opt_metric_at(s[1]),
                        metric_expense: opt_metric_at(s[2]),
                        metric_error: opt_metric_at(s[3]),
                        neighbor: lan_id_at(s.skip(4)),
                    },
                    IS_REACH_SIZE as nat,
                ),
            )
        }
    }

    open spec fn valid(v: IsReach) -> bool {
        &&& v.metric < 0x40
        &&& opt_metric_valid(v.metric_delay)
        &&& opt_metric_valid(v.metric_expense)
        &&& opt_metric_valid(v.metric_error)
    }

    proof fn lemma_parse_wire(v: IsReach, rest: Seq<u8>, tlv_len: u8) {
        let s = Self::wire(v) + rest;
        v.neighbor.lemma_wire(rest);
        assert(s.skip(4) =~= v.neighbor.wire() + rest);
    }

    proof fn lemma_parse_local(s: Seq<u8>, rest: Seq<u8>, tlv_len: u8) {
    }

    fn reserved_len() -> (n: usize) {
        1
    }

    fn capped_len(&self, cap: usize) -> (n: usize) {
        proof {
            self.neighbor.lemma_wire(Seq::empty());
        }
        capped(IS_REACH_SIZE, cap)
    }

    fn encode(&self, buf: &mut BytesMut) {
        let ghost before = bytes_mut_content(*buf);
        proof {
            self.neighbor.lemma_wire(Seq::empty());
        }
        put_u8(buf, self.metric);
        put_opt_metric(buf, self.metric_delay);
        put_opt_metric(buf, self.metric_expense);
        put_opt_metric(buf, self.metric_error);
        self.neighbor.encode(buf);
        assert(bytes_mut_content(*buf) =~= before + Self::wire(self@));
    }

    fn decode(tlv_len: u8, buf: &mut Bytes) -> (r: DecodeResult<IsReach>) {
        if buf.len() < IS_REACH_SIZE {
            return Err(DecodeError::InvalidTlvLength(tlv_len));
        }
        let ghost s = bytes_content(*buf);
        let metric = get_u8(buf) % 0x40;
        let metric_delay = get_opt_metric(buf);
        let metric_expense = get_opt_metric(buf);
        let metric_error = get_opt_metric(buf);
        assert(bytes_content(*buf) =~= s.skip(4));
        let neighbor = LanId::decode(buf);
        assert(bytes_content(*buf) =~= s.skip(11));
        Ok(IsReach { metric, metric_delay, metric_expense, metric_error, neighbor })
    }
}

/// An IPv4 prefix, with narrow metrics. The mask need not be contiguous.
#[derive(Clone, Copy, Debug, PartialEq, Eq)]
pub struct Ipv4Reach {
    pub up_down: bool,
    pub ie_bit: bool,
    pub metric: u8,
    pub metric_delay: Option<u8>,
    pub metric_expense: Option<u8>,
    pub metric_error: Option<u8>,
    pub addr: Ipv4Addr,
    pub mask: Ipv4Addr,
}

impl View for Ipv4Reach {
    type V = Ipv4Reach;

    open spec fn view(&self) -> Ipv4Reach {
        *self
    }
}

/// How many octets an IPv4 prefix with narrow metrics takes.
pub const IPV4_REACH_SIZE: usize = 12;

/// The weight of a flag in an octet.
pub open spec fn flag(b: bool, weight: int) -> int {
    if b {
        weight
    } else {
        0
    }
}

fn flag_octet(b: bool, weight: u8) -> (r: u8)
    ensures
        r == flag(b, weight as int),
{
    if b {
        weight
    } else {
        0
    }
}

impl TlvEntry for Ipv4Reach {
    open spec fn reserved() -> nat {
        0
    }

    open spec fn wire(v: Ipv4Reach) -> Seq<u8> {
        seq![
            (flag(v.up_down, 0x80) + flag(v.ie_bit, 0x40) + v.metric % 0x40) as u8,
            opt_metric_octet(v.metric_delay),
            opt_metric_octet(v.metric_expense),
            opt_metric_octet(v.metric_error),
        ] + be_bytes(v.addr.bits as nat, 4) + be_bytes(v.mask.bits as nat, 4)
    }

    open spec fn parse(s: Seq<u8>, tlv_len: u8) -> DecodeResult<(Ipv4Reach, nat)> {
        if s.len() < IPV4_REACH_SIZE {
            Err(DecodeError::InvalidTlvLength(tlv_len))
        } else {
            Ok(
                (
                    Ipv4Reach {
                        up_down: s[0] >= 0x80,
                        ie_bit: s[0] % 0x80 >= 0x40,
                        metric: (s[0] % 0x40) as u8,
                        metric_delay: opt_metric_at(s[1]),
                        metric_expense: opt_metric_at(s[2]),
                        metric_error: opt_metric_at(s[3]),
                        addr: Ipv4Addr { bits: be_field(s, 4, 4) as u32 },
                        mask: Ipv4Addr { bits: be_field(s, 8, 4) as u32 },
                    },
                    IPV4_REACH_SIZE as nat,
                ),
            )
        }
    }

    open spec fn valid(v: Ipv4Reach) -> bool {
        &&& v.metric < 0x40
        &&& opt_metric_valid(v.metric_delay)
        &&& opt_metric_valid(v.metric_expense)
        &&& opt_metric_valid(v.metric_error)
    }

    proof fn lemma_parse_wire(v: Ipv4Reach, rest: Seq<u8>, tlv_len: u8) {
        let s = Self::wire(v) + rest;
        lemma_pow256_values();
        lemma_be_bytes_len(v.addr.bits as nat, 4);
        lemma_be_bytes_len(v.mask.bits as nat, 4);
        lemma_be_uint_of_bytes(v.addr.bits as nat, 4);
        lemma_be_uint_of_bytes(v.mask.bits as nat, 4);
        assert(s.subrange(4, 8) =~= be_bytes(v.addr.bits as nat, 4));
        assert(s.subrange(8, 12) =~= be_bytes(v.mask.bits as nat, 4));
    }

    proof fn lemma_parse_local(s: Seq<u8>, rest: Seq<u8>, tlv_len: u8) {
        let t = s.take(12) + rest;
        assert(t.subrange(4, 8) =~= s.subrange(4, 8));
        assert(t.subrange(8, 12) =~= s.subrange(8, 12));
    }

    fn reserved_len() -> (n: usize) {
        0
    }

    fn capped_len(&self, cap: usize) -> (n: usize) {
        proof {
            lemma_be_bytes_len(self.addr.bits as nat, 4);
            lemma_be_bytes_len(self.mask.bits as nat, 4);
        }
        capped(IPV4_REACH_SIZE, cap)
    }

    fn encode(&self, buf: &mut BytesMut) {
        let ghost before = bytes_mut_content(*buf);
        proof {
            lemma_be_bytes_len(self.addr.bits as nat, 4);
            lemma_be_bytes_len(self.mask.bits as nat, 4);
        }
        put_u8(
            buf,
            flag_octet(self.up_down, 0x80) + flag_octet(self.ie_bit, 0x40) + self.metric % 0x40,
        );
        put_opt_metric(buf, self.metric_delay);
        put_opt_metric(buf, self.metric_expense);
        put_opt_metric(buf, self.metric_error);
        buf.put_ipv4(&self.addr);
        buf.put_ipv4(&self.mask);
        assert(bytes_mut_content(*buf) =~= before + Self::wire(self@));
    }

    fn decode(tlv_len: u8, buf: &mut Bytes) -> (r: DecodeResult<Ipv4Reach>) {
        if buf.len() < IPV4_REACH_SIZE {
            return Err(DecodeError::InvalidTlvLength(tlv_len));
        }
        let ghost s = bytes_content(*buf);
        let octet = get_u8(buf);
        let metric_delay = get_opt_metric(buf);
        let metric_expense = get_opt_metric(buf);
        let metric_error = get_opt_metric(buf);
        assert(bytes_content(*buf).take(4) =~= s.subrange(4, 8));
        let addr = buf.get_ipv4();
        assert(bytes_content(*buf).take(4) =~= s.subrange(8, 12));
        let mask = buf.get_ipv4();
        assert(bytes_content(*buf) =~= s.skip(12));
        Ok(
            Ipv4Reach {
                up_down: octet >= 0x80,
                ie_bit: octet % 0x80 >= 0x40,
                metric: octet % 0x40,
                metric_delay,
                metric_expense,
                metric_error,
                addr,
                mask,
            },
        )
    }
}

// ===== wide metrics =====

/// A neighbor, with a wide metric. The sub-TLVs are kept as they stand on the
/// wire.
#[derive(Clone, Debug, PartialEq, Eq)]
pub struct ExtIsReach {
    pub neighbor: LanId,
    pub metric: u32,
    pub sub_tlvs: Bytes,
}

/// What an `ExtIsReach` stands for.
#[verifier::ext_equal]
pub struct ExtIsReachView {
    pub neighbor: LanId,
    pub metric: u32,
    pub sub_tlvs: Seq<u8>,
}

impl View for ExtIsReach {
    type V = ExtIsReachView;

    open spec fn view(&self) -> ExtIsReachView {
        ExtIsReachView {
            neighbor: self.neighbor,
            metric: self.metric,
            sub_tlvs: bytes_content(self.sub_tlvs),
        }
    }
}

/// A block of sub-TLVs, after its length.
pub open spec fn block_wire(block: Seq<u8>) -> Seq<u8> {
    seq![(block.len() % 256) as u8] + block
}

/// The block of sub-TLVs at the start of `s`, if there is a whole one.
pub open spec fn block_at(s: Seq<u8>) -> Option<Seq<u8>> {
    if s.len() == 0 || s[0] > s.len() - 1 {
        None
    } else {
        Some(s.subrange(1, 1 + s[0]))
    }
}

fn put_block(buf: &mut BytesMut, block: &Bytes)
    requires
        bytes_mut_content(*old(buf)).len() + 1 + bytes_content(*block).len() <= isize::MAX,
    ensures
        bytes_mut_content(*final(buf)) == bytes_mut_content(*old(buf)) + block_wire(
            bytes_content(*block),
        ),
{
    let ghost before = bytes_mut_content(*buf);
    put_u8(buf, (block.len() % 256) as u8);
    put_slice(buf, bytes_as_slice(block));
    assert(bytes_mut_content(*buf) =~= before + block_wire(bytes_content(*block)));
}

fn get_block(buf: &mut Bytes) -> (r: Option<Bytes>)
    ensures
        match r {
            Some(b) => block_at(bytes_content(*old(buf))) == Some(bytes_content(b))
                && bytes_content(*final(buf)) == bytes_content(*old(buf)).skip(
                1 + bytes_content(b).len() as int,
            ),
            None => block_at(bytes_content(*old(buf))) is None,
        },
{
    let ghost s = bytes_content(*buf);
    if buf.len() == 0 {
        return None;
    }
    let len = get_u8(buf) as usize;
    if len > buf.len() {
        return None;
    }
    let block = copy_to_bytes(buf, len);
    proof {
        assert(bytes_content(block) =~= s.subrange(1, 1 + s[0]));
        assert(bytes_content(*buf) =~= s.skip(1 + s[0]));
    }
    Some(block)
}

proof fn lemma_block_at(block: Seq<u8>, rest: Seq<u8>)
    requires
        block.len() <= 255,
    ensures
        block_at(block_wire(block) + rest) == Some(block),
{
    let s = block_wire(block) + rest;
    assert(s.subrange(1, 1 + s[0]) =~= block);
}

/// How many octets a neighbor with a wide metric takes, without sub-TLVs.
pub const EXT_IS_REACH_SIZE: usize = 11;

impl TlvEntry for ExtIsReach {
    open spec fn reserved() -> nat {
        0
    }

    open spec fn wire(v: ExtIsReachView) -> Seq<u8> {
        v.neighbor.wire() + be_bytes(v.metric as nat, 3) + block_wire(v.sub_tlvs)
    }

    open spec fn parse(s: Seq<u8>, tlv_len: u8) -> DecodeResult<(ExtIsReachView, nat)> {
        if s.len() < EXT_IS_REACH_SIZE {
            Err(DecodeError::InvalidTlvLength(tlv_len))
        } else {
            match block_at(s.skip(10)) {
                None => Err(DecodeError::InvalidTlvLength(tlv_len)),
                Some(sub_tlvs) => Ok(
                    (
                        ExtIsReachView {
                            neighbor: lan_id_at(s),
                            metric: be_field(s, 7, 3) as u32,
                            sub_tlvs,
                        },
                        EXT_IS_REACH_SIZE as nat + sub_tlvs.len(),
                    ),
                ),
            }
        }
    }

    open spec fn valid(v: ExtIsReachView) -> bool {
        &&& v.metric < 0x100_0000
        &&& v.sub_tlvs.len() <= 255
    }

    proof fn lemma_parse_wire(v: ExtIsReachView, rest: Seq<u8>, tlv_len: u8) {
        let s = Self::wire(v) + rest;
        lemma_pow256_values();
        lemma_be_bytes_len(v.metric as nat, 3);
        lemma_be_uint_of_bytes(v.metric as nat, 3);
        v.neighbor.lemma_wire(s.skip(7));
        lemma_block_at(v.sub_tlvs, rest);
        assert(s =~= v.neighbor.wire() + s.skip(7));
        assert(s.subrange(7, 10) =~= be_bytes(v.metric as nat, 3));
        assert(s.skip(10) =~= block_wire(v.sub_tlvs) + rest);
    }

    proof fn lemma_parse_local(s: Seq<u8>, rest: Seq<u8>, tlv_len: u8) {
        let n = 11 + s[10];
        let t = s.take(n) + rest;
        assert(t.subrange(7, 10) =~= s.subrange(7, 10));
        assert(t.skip(10).subrange(1, 1 + s[10]) =~= s.skip(10).subrange(1, 1 + s[10]));
    }

    fn reserved_len() -> (n: usize) {
        0
    }

    fn capped_len(&self, cap: usize) -> (n: usize) {
        proof {
            self.neighbor.lemma_wire(Seq::empty());
            lemma_be_bytes_len(self.metric as nat, 3);
        }
        if cap < EXT_IS_REACH_SIZE {
            cap
        } else {
            EXT_IS_REACH_SIZE + capped(self.sub_tlvs.len(), cap - EXT_IS_REACH_SIZE)
        }
    }

    fn encode(&self, buf: &mut BytesMut) {
        let ghost before = bytes_mut_content(*buf);
        proof {
            self.neighbor.lemma_wire(Seq::empty());
            lemma_be_bytes_len(self.metric as nat, 3);
        }
        self.neighbor.encode(buf);
        buf.put_u24(self.metric);
        put_block(buf, &self.sub_tlvs);
        assert(bytes_mut_content(*buf) =~= before + Self::wire(self@));
    }

    fn decode(tlv_len: u8, buf: &mut Bytes) -> (r: DecodeResult<ExtIsReach>) {
        if buf.len() < EXT_IS_REACH_SIZE {
            return Err(DecodeError::InvalidTlvLength(tlv_len));
        }
        let ghost s = bytes_content(*buf);
        let neighbor = LanId::decode(buf);
        assert(bytes_content(*buf).take(3) =~= s.subrange(7, 10));
        let metric = buf.get_u24();
        assert(bytes_content(*buf) =~= s.skip(10));
        match get_block(buf) {
            None => Err(DecodeError::InvalidTlvLength(tlv_len)),
            Some(sub_tlvs) => {
                assert(bytes_content(*buf) =~= s.skip(11 + bytes_content(sub_tlvs).len() as int));
                Ok(ExtIsReach { neighbor, metric, sub_tlvs })
            },
        }
    }
}

// ===== prefixes =====

/// How many octets hold a prefix of the given length.
pub open spec fn prefix_octets(prefix: int) -> int {
    (prefix + 7) / 8
}

/// The number that the octets `s` denote once they are filled up with zeros
/// to `k` octets.
pub open spec fn padded_uint(s: Seq<u8>, k: int) -> nat {
    be_uint(s + zeros((k - s.len()) as nat))
}

/// Whether an address has no bit set behind the octets of its prefix.
pub open spec fn prefix_fits(bits: nat, prefix: int, k: nat) -> bool {
    be_bytes(bits, k).skip(prefix_octets(prefix)) == zeros((k - prefix_octets(prefix)) as nat)
}

proof fn lemma_padded_uint(bits: nat, prefix: int, k: nat)
    requires
        bits < pow256(k),
        0 <= prefix <= 8 * k,
        prefix_fits(bits, prefix, k),
    ensures
        padded_uint(be_bytes(bits, k).take(prefix_octets(prefix)), k as int) == bits,
{
    let n = prefix_octets(prefix);
    lemma_be_bytes_len(bits, k);
    lemma_be_uint_of_bytes(bits, k);
    assert(be_bytes(bits, k).take(n) + be_bytes(bits, k).skip(n) =~= be_bytes(bits, k));
}

/// Takes the octets of a prefix off the buffer: the first `n` of `k`.
fn get_prefix(buf: &mut Bytes, n: usize, k: usize) -> (r: u128)
    requires
        n <= k <= 16,
        bytes_content(*old(buf)).len() >= n,
    ensures
        r == padded_uint(bytes_content(*old(buf)).take(n as int), k as int),
        r < pow256(k as nat),
        bytes_content(*final(buf)) == bytes_content(*old(buf)).skip(n as int),
{
    let ghost s = bytes_content(*buf);
    let ghost padded = s.take(n as int) + zeros((k - n) as nat);
    let mut r: u128 = 0;
    let mut i: usize = 0;
    proof {
        assert(padded.take(0) =~= Seq::empty());
        assert(s.skip(0) =~= s);
    }
    while i < k
        invariant
            i <= k <= 16,
            n <= k,
            n <= s.len(),
            padded == s.take(n as int) + zeros((k - n) as nat),
            r == be_uint(padded.take(i as int)),
            r < pow256(i as nat),
            bytes_content(*buf) == s.skip(if i < n { i as int } else { n as int }),
        decreases k - i,
    {
        let octet: u8 = if i < n {
            get_u8(buf)
        } else {
            0
        };
        proof {
            lemma_pow256_monotone((i + 1) as nat, 16);
            lemma_pow256_values();
            assert(padded.take(i + 1).drop_last() =~= padded.take(i as int));
            assert(octet == padded[i as int]);
            assert(bytes_content(*buf) =~= s.skip(if i + 1 < n { i + 1 } else { n as int }));
        }
        r = r * 256 + octet as u128;
        i = i + 1;
    }
    assert(padded.take(k as int) =~= padded);
    r
}

/// Appends the first `n` octets of `octets` to the buffer.
fn put_prefix(buf: &mut BytesMut, octets: &[u8], n: usize)
    requires
        n <= octets@.len(),
        bytes_mut_content(*old(buf)).len() + n <= isize::MAX,
    ensures
        bytes_mut_content(*final(buf)) == bytes_mut_content(*old(buf)) + octets@.take(n as int),
{
    let ghost before = bytes_mut_content(*buf);
    let mut i: usize = 0;
    assert(before =~= before + octets@.take(0));
    while i < n
        invariant
            i <= n <= octets@.len(),
            before.len() + n <= isize::MAX,
            bytes_mut_content(*buf) == before + octets@.take(i as int),
        decreases n - i,
    {
        put_u8(buf, octets[i]);
        i = i + 1;
        assert(bytes_mut_content(*buf) =~= before + octets@.take(i as int));
    }
}

/// A block of sub-TLVs that stands on the wire only where it is not empty.
pub open spec fn opt_block_wire(block: Seq<u8>) -> Seq<u8> {
    if block.len() == 0 {
        Seq::empty()
    } else {
        block_wire(block)
    }
}

/// Where the parts of a prefix entry are found.
proof fn lemma_prefix_layout(
    metric: Seq<u8>,
    control: Seq<u8>,
    octets: Seq<u8>,
    block: Seq<u8>,
    rest: Seq<u8>,
)
    requires
        metric.len() == 4,
    ensures
        ({
            let s = (metric + control + octets + block) + rest;
            let at = 4 + control.len() as int;
            &&& s.len() == at + octets.len() + block.len() + rest.len()
            &&& s.subrange(0, 4) == metric
            &&& forall|i: int| 0 <= i < control.len() ==> s[4 + i] == #[trigger] control[i]
            &&& s.subrange(at, at + octets.len()) == octets
            &&& s.skip(at + octets.len()) == block + rest
        }),
{
    let s = (metric + control + octets + block) + rest;
    let at = 4 + control.len() as int;
    assert(s.subrange(0, 4) =~= metric);
    assert(s.subrange(at, at + octets.len()) =~= octets);
    assert(s.skip(at + octets.len()) =~= block + rest);
}

/// An IPv4 prefix, with a wide metric. The sub-TLVs are kept as they stand on
/// the wire.
#[derive(Clone, Debug, PartialEq, Eq)]
pub struct ExtIpv4Reach {
    pub metric: u32,
    pub up_down: bool,
    pub prefix: Ipv4Network,
    pub sub_tlvs: Bytes,
}

/// What an `ExtIpv4Reach` stands for.
#[verifier::ext_equal]
pub struct ExtIpv4ReachView {
    pub metric: u32,
    pub up_down: bool,
    pub prefix: Ipv4Network,
    pub sub_tlvs: Seq<u8>,
}

impl View for ExtIpv4Reach {
    type V = ExtIpv4ReachView;

    open spec fn view(&self) -> ExtIpv4ReachView {
        ExtIpv4ReachView {
            metric: self.metric,
            up_down: self.up_down,
            prefix: self.prefix,
            sub_tlvs: bytes_content(self.sub_tlvs),
        }
    }
}

impl TlvEntry for ExtIpv4Reach {
    open spec fn reserved() -> nat {
        0
    }

    open spec fn wire(v: ExtIpv4ReachView) -> Seq<u8> {
        be_bytes(v.metric as nat, 4) + seq![
            (flag(v.up_down, 0x80) + flag(v.sub_tlvs.len() > 0, 0x40) + v.prefix.prefix % 0x40) as u8,
        ] + be_bytes(v.prefix.addr.bits as nat, 4).take(
            if v.prefix.prefix <= 32 {
                prefix_octets(v.prefix.prefix as int)
            } else {
                4
            },
        ) + opt_block_wire(v.sub_tlvs)
    }

    open spec fn parse(s: Seq<u8>, tlv_len: u8) -> DecodeResult<(ExtIpv4ReachView, nat)> {
        let prefix = s[4] % 0x40;
        let n = prefix_octets(prefix as int);
        if s.len() < 5 {
            Err(DecodeError::InvalidTlvLength(tlv_len))
        } else if prefix > 32 {
            Err(DecodeError::InvalidPrefixLen(prefix as u8))
        } else if s.len() < 5 + n {
            Err(DecodeError::InvalidTlvLength(tlv_len))
        } else {
            let head = ExtIpv4ReachView {
                metric: be_field(s, 0, 4) as u32,
                up_down: s[4] >= 0x80,
                prefix: Ipv4Network {
                    addr: Ipv4Addr { bits: padded_uint(s.subrange(5, 5 + n), 4) as u32 },
                    prefix: prefix as u8,
                },
                sub_tlvs: Seq::empty(),
            };
            if s[4] % 0x80 < 0x40 {
                Ok((head, (5 + n) as nat))
            } else {
                match block_at(s.skip(5 + n)) {
                    None => Err(DecodeError::InvalidTlvLength(tlv_len)),
                    Some(sub_tlvs) => Ok(
                        (ExtIpv4ReachView { sub_tlvs, ..head }, (6 + n + sub_tlvs.len()) as nat),
                    ),
                }
            }
        }
    }

    open spec fn valid(v: ExtIpv4ReachView) -> bool {
        &&& v.prefix.prefix <= 32
        &&& prefix_fits(v.prefix.addr.bits as nat, v.prefix.prefix as int, 4)
        &&& v.sub_tlvs.len() <= 255
    }

    #[verifier::spinoff_prover]
    #[verifier::rlimit(60)]
    proof fn lemma_parse_wire(v: ExtIpv4ReachView, rest: Seq<u8>, tlv_len: u8) {
        let s = Self::wire(v) + rest;
        let n = prefix_octets(v.prefix.prefix as int);
        let control = seq![
            (flag(v.up_down, 0x80) + flag(v.sub_tlvs.len() > 0, 0x40) + v.prefix.prefix % 0x40) as u8,
        ];
        lemma_pow256_values();
        lemma_be_bytes_len(v.metric as nat, 4);
        lemma_be_uint_of_bytes(v.metric as nat, 4);
        lemma_be_bytes_len(v.prefix.addr.bits as nat, 4);
        lemma_padded_uint(v.prefix.addr.bits as nat, v.prefix.prefix as int, 4);
        lemma_prefix_layout(
            be_bytes(v.metric as nat, 4),
            control,
            be_bytes(v.prefix.addr.bits as nat, 4).take(n),
            opt_block_wire(v.sub_tlvs),
            rest,
        );
        assert(s[4] == control[0]);
        assert(s[4] % 0x40 == v.prefix.prefix);
        assert(s[4] % 0x80 >= 0x40 <==> v.sub_tlvs.len() > 0);
        assert(s[4] >= 0x80 <==> v.up_down);
        if v.sub_tlvs.len() > 0 {
            lemma_block_at(v.sub_tlvs, rest);
        } else {
            assert(v.sub_tlvs =~= Seq::empty());
        }
    }

    proof fn lemma_parse_local(s: Seq<u8>, rest: Seq<u8>, tlv_len: u8) {
        let k = Self::parse(s, tlv_len).unwrap().1 as int;
        let n = prefix_octets((s[4] % 0x40) as int);
        let t = s.take(k) + rest;
        assert(t.subrange(0, 4) =~= s.subrange(0, 4));
        assert(t.subrange(5, 5 + n) =~= s.subrange(5, 5 + n));
        if s[4] % 0x80 >= 0x40 {
            let m = s[5 + n] as int;
            assert(t.skip(5 + n).subrange(1, 1 + m) =~= s.skip(5 + n).subrange(1, 1 + m));
        }
    }

    fn reserved_len() -> (n: usize) {
        0
    }

    fn capped_len(&self, cap: usize) -> (n: usize) {
        proof {
            lemma_be_bytes_len(self.metric as nat, 4);
            lemma_be_bytes_len(self.prefix.addr.bits as nat, 4);
        }
        let octets: usize = if self.prefix.prefix <= 32 {
            (self.prefix.prefix as usize + 7) / 8
        } else {
            4
        };
        if self.sub_tlvs.len() == 0 {
            capped(5 + octets, cap)
        } else if cap < 6 + octets {
            cap
        } else {
            6 + octets + capped(self.sub_tlvs.len(), cap - 6 - octets)
        }
    }

    fn encode(&self, buf: &mut BytesMut) {
        let ghost before = bytes_mut_content(*buf);
        proof {
            lemma_be_bytes_len(self.metric as nat, 4);
            lemma_be_bytes_len(self.prefix.addr.bits as nat, 4);
        }
        let octets: usize = if self.prefix.prefix <= 32 {
            (self.prefix.prefix as usize + 7) / 8
        } else {
            4
        };
        put_u32(buf, self.metric);
        put_u8(
            buf,
            flag_octet(self.up_down, 0x80) + flag_octet(self.sub_tlvs.len() > 0, 0x40)
                + self.prefix.prefix % 0x40,
        );
        put_prefix(buf, &self.prefix.addr.octets(), octets);
        if self.sub_tlvs.len() > 0 {
            put_block(buf, &self.sub_tlvs);
        }
        assert(bytes_mut_content(*buf) =~= before + Self::wire(self@));
    }

    fn decode(tlv_len: u8, buf: &mut Bytes) -> (r: DecodeResult<ExtIpv4Reach>) {
        if buf.len() < 5 {
            return Err(DecodeError::InvalidTlvLength(tlv_len));
        }
        let ghost s = bytes_content(*buf);
        assert(s.take(4) =~= s.subrange(0, 4));
        let metric = get_u32(buf);
        let octet = get_u8(buf);
        let prefix = octet % 0x40;
        if prefix > 32 {
            return Err(DecodeError::InvalidPrefixLen(prefix));
        }
        let octets: usize = (prefix as usize + 7) / 8;
        if buf.len() < octets {
            return Err(DecodeError::InvalidTlvLength(tlv_len));
        }
        assert(bytes_content(*buf).take(octets as int) =~= s.subrange(5, 5 + octets));
        let bits = get_prefix(buf, octets, 4);
        proof {
            lemma_pow256_values();
            assert(bytes_content(*buf) =~= s.skip(5 + octets));
        }
        let addr = Ipv4Addr::from_bits(bits as u32);
        let sub_tlvs = if octet % 0x80 >= 0x40 {
            match get_block(buf) {
                None => return Err(DecodeError::InvalidTlvLength(tlv_len)),
                Some(sub_tlvs) => {
                    assert(bytes_content(*buf) =~= s.skip(
                        6 + octets + bytes_content(sub_tlvs).len(),
                    ));
                    sub_tlvs
                },
            }
        } else {
            Bytes::new()
        };
        Ok(
            ExtIpv4Reach {
                metric,
                up_down: octet >= 0x80,
                prefix: Ipv4Network { addr, prefix },
                sub_tlvs,
            },
        )
    }
}

/// An IPv6 prefix. The sub-TLVs are kept as they stand on the wire.
#[derive(Clone, Debug, PartialEq, Eq)]
pub struct Ipv6Reach {
    pub metric: u32,
    pub up_down: bool,
    pub external: bool,
    pub prefix: Ipv6Network,
    pub sub_tlvs: Bytes,
}

/// What an `Ipv6Reach` stands for.
#[verifier::ext_equal]
pub struct Ipv6ReachView {
    pub metric: u32,
    pub up_down: bool,
    pub external: bool,
    pub prefix: Ipv6Network,
    pub sub_tlvs: Seq<u8>,
}

impl View for Ipv6Reach {
    type V = Ipv6ReachView;

    open spec fn view(&self) -> Ipv6ReachView {
        Ipv6ReachView {
            metric: self.metric,
            up_down: self.up_down,
            external: self.external,
            prefix: self.prefix,
            sub_tlvs: bytes_content(self.sub_tlvs),
        }
    }
}

impl TlvEntry for Ipv6Reach {
    open spec fn reserved() -> nat {
        0
    }

    open spec fn wire(v: Ipv6ReachView) -> Seq<u8> {
        be_bytes(v.metric as nat, 4) + seq![
            (flag(v.up_down, 0x80) + flag(v.external, 0x40) + flag(
                v.sub_tlvs.len() > 0,
                0x20,
            )) as u8,
            v.prefix.prefix,
        ] + be_bytes(v.prefix.addr.bits as nat, 16).take(
            if v.prefix.prefix <= 128 {
                prefix_octets(v.prefix.prefix as int)
            } else {
                16
            },
        ) + opt_block_wire(v.sub_tlvs)
    }

    open spec fn parse(s: Seq<u8>, tlv_len: u8) -> DecodeResult<(Ipv6ReachView, nat)> {
        let prefix = s[5];
        let n = prefix_octets(prefix as int);
        if s.len() < 6 {
            Err(DecodeError::InvalidTlvLength(tlv_len))
        } else if prefix > 128 {
            Err(DecodeError::InvalidPrefixLen(prefix))
        } else if s.len() < 6 + n {
            Err(DecodeError::InvalidTlvLength(tlv_len))
        } else {
            let head = Ipv6ReachView {
                metric: be_field(s, 0, 4) as u32,
                up_down: s[4] >= 0x80,
                external: s[4] % 0x80 >= 0x40,
                prefix: Ipv6Network {
                    addr: Ipv6Addr { bits: padded_uint(s.subrange(6, 6 + n), 16) as u128 },
                    prefix,
                },
                sub_tlvs: Seq::empty(),
            };
            if s[4] % 0x40 < 0x20 {
                Ok((head, (6 + n) as nat))
            } else {
                match block_at(s.skip(6 + n)) {
                    None => Err(DecodeError::InvalidTlvLength(tlv_len)),
                    Some(sub_tlvs) => Ok(
                        (Ipv6ReachView { sub_tlvs, ..head }, (7 + n + sub_tlvs.len()) as nat),
                    ),
                }
            }
        }
    }

    open spec fn valid(v: Ipv6ReachView) -> bool {
        &&& v.prefix.prefix <= 128
        &&& prefix_fits(v.prefix.addr.bits as nat, v.prefix.prefix as int, 16)
        &&& v.sub_tlvs.len() <= 255
    }

    #[verifier::spinoff_prover]
    #[verifier::rlimit(60)]
    proof fn lemma_parse_wire(v: Ipv6ReachView, rest: Seq<u8>, tlv_len: u8) {
        let s = Self::wire(v) + rest;
        let n = prefix_octets(v.prefix.prefix as int);
        let control = seq![
            (flag(v.up_down, 0x80) + flag(v.external, 0x40) + flag(
                v.sub_tlvs.len() > 0,
                0x20,
            )) as u8,
            v.prefix.prefix,
        ];
        lemma_pow256_values();
        lemma_be_bytes_len(v.metric as nat, 4);
        lemma_be_uint_of_bytes(v.metric as nat, 4);
        lemma_be_bytes_len(v.prefix.addr.bits as nat, 16);
        lemma_padded_uint(v.prefix.addr.bits as nat, v.prefix.prefix as int, 16);
        lemma_prefix_layout(
            be_bytes(v.metric as nat, 4),
            control,
            be_bytes(v.prefix.addr.bits as nat, 16).take(n),
            opt_block_wire(v.sub_tlvs),
            rest,
        );
        assert(s[4] == control[0]);
        assert(s[5] == control[1]);
        if v.sub_tlvs.len() > 0 {
            lemma_block_at(v.sub_tlvs, rest);
        } else {
            assert(v.sub_tlvs =~= Seq::empty());
        }
    }

    proof fn lemma_parse_local(s: Seq<u8>, rest: Seq<u8>, tlv_len: u8) {
        let k = Self::parse(s, tlv_len).unwrap().1 as int;
        let n = prefix_octets(s[5] as int);
        let t = s.take(k) + rest;
        assert(t.subrange(0, 4) =~= s.subrange(0, 4));
        assert(t.subrange(6, 6 + n) =~= s.subrange(6, 6 + n));
        if s[4] % 0x40 >= 0x20 {
            let m = s[6 + n] as int;
            assert(t.skip(6 + n).subrange(1, 1 + m) =~= s.skip(6 + n).subrange(1, 1 + m));
        }
    }

    fn reserved_len() -> (n: usize) {
        0
    }

    fn capped_len(&self, cap: usize) -> (n: usize) {
        proof {
            lemma_be_bytes_len(self.metric as nat, 4);
            lemma_be_bytes_len(self.prefix.addr.bits as nat, 16);
        }
        let octets: usize = if self.prefix.prefix <= 128 {
            (self.prefix.prefix as usize + 7) / 8
        } else {
            16
        };
        if self.sub_tlvs.len() == 0 {
            capped(6 + octets, cap)
        } else if cap < 7 + octets {
            cap
        } else {
            7 + octets + capped(self.sub_tlvs.len(), cap - 7 - octets)
        }
    }

    #[verifier::rlimit(40)]
    fn encode(&self, buf: &mut BytesMut) {
        let ghost before = bytes_mut_content(*buf);
        proof {
            lemma_be_bytes_len(self.metric as nat, 4);
            lemma_be_bytes_len(self.prefix.addr.bits as nat, 16);
        }
        let octets: usize = if self.prefix.prefix <= 128 {
            (self.prefix.prefix as usize + 7) / 8
        } else {
            16
        };
        put_u32(buf, self.metric);
        put_u8(
            buf,
            flag_octet(self.up_down, 0x80) + flag_octet(self.external, 0x40) + flag_octet(
                self.sub_tlvs.len() > 0,
                0x20,
            ),
        );
        put_u8(buf, self.prefix.prefix);
        put_prefix(buf, &self.prefix.addr.octets(), octets);
        if self.sub_tlvs.len() > 0 {
            put_block(buf, &self.sub_tlvs);
        }
        assert(bytes_mut_content(*buf) =~= before + Self::wire(self@));
    }

    fn decode(tlv_len: u8, buf: &mut Bytes) -> (r: DecodeResult<Ipv6Reach>) {
        if buf.len() < 6 {
            return Err(DecodeError::InvalidTlvLength(tlv_len));
        }
        let ghost s = bytes_content(*buf);
        assert(s.take(4) =~= s.subrange(0, 4));
        let metric = get_u32(buf);
        let octet = get_u8(buf);
        let prefix = get_u8(buf);
        if prefix > 128 {
            return Err(DecodeError::InvalidPrefixLen(prefix));
        }
        let octets: usize = (prefix as usize + 7) / 8;
        if buf.len() < octets {
            return Err(DecodeError::InvalidTlvLength(tlv_len));
        }
        assert(bytes_content(*buf).take(octets as int) =~= s.subrange(6, 6 + octets));
        let bits = get_prefix(buf, octets, 16);
        assert(bytes_content(*buf) =~= s.skip(6 + octets));
        let addr = Ipv6Addr::from_bits(bits);
        let sub_tlvs = if octet % 0x40 >= 0x20 {
            match get_block(buf) {
                None => return Err(DecodeError::InvalidTlvLength(tlv_len)),
                Some(sub_tlvs) => {
                    assert(bytes_content(*buf) =~= s.skip(
                        7 + octets + bytes_content(sub_tlvs).len(),
                    ));
                    sub_tlvs
                },
            }
        } else {
            Bytes::new()
        };
        Ok(
            Ipv6Reach {
                metric,
                up_down: octet >= 0x80,
                external: octet % 0x80 >= 0x40,
                prefix: Ipv6Network { addr, prefix },
                sub_tlvs,
            },
        )
    }
}

// ===== octet by octet =====

/// A neighbor with narrow metrics is eleven octets: four metrics, each in the
/// lower six bits of its octet, of which all but the first may be marked as not
/// supported by the highest bit, and the ID of the neighbor. Other bits are
/// ignored. One octet is reserved in front of all neighbors. If octets are
/// missing, the TLV is refused.
pub proof fn lemma_is_reach_octets(s: Seq<u8>, tlv_len: u8)
    ensures
        match IsReach::parse(s, tlv_len) {
            Ok((v, n)) => {
                &&& s.len() >= 11
                &&& n == 11
                &&& v.metric == s[0] & 0x3F
                &&& v.metric_delay is None <==> s[1] & 0x80 != 0
                &&& v.metric_delay matches Some(m) ==> m == s[1] & 0x3F
                &&& v.metric_expense is None <==> s[2] & 0x80 != 0
                &&& v.metric_expense matches Some(m) ==> m == s[2] & 0x3F
                &&& v.metric_error is None <==> s[3] & 0x80 != 0
                &&& v.metric_error matches Some(m) ==> m == s[3] & 0x3F
                &&& v.neighbor.system_id.octets@ == s.subrange(4, 10)
                &&& v.neighbor.pseudonode == s[10]
            },
            Err(e) => s.len() < 11 && e == DecodeError::InvalidTlvLength(tlv_len),
        },
        IsReach::reserved() == 1,
{
    if s.len() >= 11 {
        lemma_octet_bits(s[0]);
        lemma_octet_bits(s[1]);
        lemma_octet_bits(s[2]);
        lemma_octet_bits(s[3]);
        assert(lan_id_at(s.skip(4)).system_id.octets@ =~= s.subrange(4, 10));
    }
}

/// An IPv4 prefix with narrow metrics is twelve octets: four metrics, the first
/// of which shares its octet with the up/down bit and the I/E bit, the address
/// and the mask. If octets are missing, the TLV is refused.
pub proof fn lemma_ipv4_reach_octets(s: Seq<u8>, tlv_len: u8)
    ensures
        match Ipv4Reach::parse(s, tlv_len) {
            Ok((v, n)) => {
                &&& s.len() >= 12
                &&& n == 12
                &&& v.up_down <==> s[0] & 0x80 != 0
                &&& v.ie_bit <==> s[0] & 0x40 != 0
                &&& v.metric == s[0] & 0x3F
                &&& v.metric_delay is None <==> s[1] & 0x80 != 0
                &&& v.metric_delay matches Some(m) ==> m == s[1] & 0x3F
                &&& v.metric_expense is None <==> s[2] & 0x80 != 0
                &&& v.metric_expense matches Some(m) ==> m == s[2] & 0x3F
                &&& v.metric_error is None <==> s[3] & 0x80 != 0
                &&& v.metric_error matches Some(m) ==> m == s[3] & 0x3F
                &&& v.addr.bits == 0x100_0000 * s[4] + 0x1_0000 * s[5] + 0x100 * s[6] + s[7]
                &&& v.mask.bits == 0x100_0000 * s[8] + 0x1_0000 * s[9] + 0x100 * s[10] + s[11]
            },
            Err(e) => s.len() < 12 && e == DecodeError::InvalidTlvLength(tlv_len),
        },
        Ipv4Reach::reserved() == 0,
{
    if s.len() >= 12 {
        lemma_octet_bits(s[0]);
        lemma_octet_bits(s[1]);
        lemma_octet_bits(s[2]);
        lemma_octet_bits(s[3]);
        lemma_be_fields(s, 4);
        lemma_be_fields(s, 8);
    }
}

/// A neighbor with a wide metric is its ID, three octets of metric, and a block
/// of sub-TLVs behind its length. If octets are missing, the TLV is refused.
pub proof fn lemma_ext_is_reach_octets(s: Seq<u8>, tlv_len: u8)
    ensures
        match ExtIsReach::parse(s, tlv_len) {
            Ok((v, n)) => {
                &&& s.len() >= 11
                &&& s.len() >= 11 + s[10]
                &&& n == 11 + s[10]
                &&& v.neighbor.system_id.octets@ == s.subrange(0, 6)
                &&& v.neighbor.pseudonode == s[6]
                &&& v.metric == 0x1_0000 * s[7] + 0x100 * s[8] + s[9]
                &&& v.sub_tlvs == s.subrange(11, 11 + s[10])
            },
            Err(e) => (s.len() < 11 || s.len() < 11 + s[10]) && e == DecodeError::InvalidTlvLength(
                tlv_len,
            ),
        },
        ExtIsReach::reserved() == 0,
{
    if s.len() >= 11 {
        lemma_be_fields(s, 7);
        assert(lan_id_at(s).system_id.octets@ =~= s.subrange(0, 6));
        if s.len() >= 11 + s[10] {
            assert(s.skip(10).subrange(1, 1 + s[10]) =~= s.subrange(11, 11 + s[10]));
        }
    }
}

proof fn lemma_padded_octet(s: Seq<u8>, k: nat, i: int)
    requires
        s.len() <= k,
        0 <= i < k,
    ensures
        (padded_uint(s, k as int) / pow256((k - 1 - i) as nat)) % 256 == (if i < s.len() {
            s[i] as nat
        } else {
            0
        }),
        padded_uint(s, k as int) < pow256(k),
{
    let t = s + zeros((k - s.len()) as nat);
    lemma_be_bytes_of_uint(t);
    lemma_be_bytes_digit(be_uint(t), k, i);
    assert(be_bytes(be_uint(t), k)[i] == t[i]);
}

/// An IPv4 prefix with a wide metric is four octets of metric, an octet with the
/// up/down bit, the sub-TLV bit and the prefix length, and as many octets of
/// address as the prefix takes: the others are zero. A block of sub-TLVs behind
/// its length follows only if the bit says so. A prefix length of more than 32
/// is refused, and so is the TLV if octets are missing. `i` is any octet of the
/// address.
pub proof fn lemma_ext_ipv4_reach_octets(s: Seq<u8>, tlv_len: u8, i: int)
    requires
        0 <= i < 4,
    ensures
        ({
            let n = ((s[4] & 0x3F) + 7) / 8;
            let with_subs = s[4] & 0x40 != 0;
            match ExtIpv4Reach::parse(s, tlv_len) {
                Ok((v, len)) => {
                    &&& s.len() >= 5 + n
                    &&& s[4] & 0x3F <= 32
                    &&& v.metric == 0x100_0000 * s[0] + 0x1_0000 * s[1] + 0x100 * s[2] + s[3]
                    &&& v.up_down <==> s[4] & 0x80 != 0
                    &&& v.prefix.prefix == s[4] & 0x3F
                    &&& (v.prefix.addr.bits as nat / pow256((3 - i) as nat)) % 256 == (if i < n {
                        s[5 + i] as nat
                    } else {
                        0
                    })
                    &&& !with_subs ==> len == 5 + n && v.sub_tlvs.len() == 0
                    &&& with_subs ==> {
                        &&& s.len() >= 6 + n
                        &&& s.len() >= 6 + n + s[5 + n]
                        &&& len == 6 + n + s[5 + n]
                        &&& v.sub_tlvs == s.subrange(6 + n, 6 + n + s[5 + n])
                    }
                },
                Err(DecodeError::InvalidPrefixLen(x)) => s.len() >= 5 && x == s[4] & 0x3F && x > 32,
                Err(DecodeError::InvalidTlvLength(x)) => x == tlv_len && (s.len() < 5 || (s[4] & 0x3F
                    <= 32 && (s.len() < 5 + n || (with_subs && (s.len() < 6 + n || s.len() < 6 + n
                    + s[5 + n]))))),
                Err(_) => false,
            }
        }),
        ExtIpv4Reach::reserved() == 0,
{
    if s.len() >= 5 {
        lemma_octet_bits(s[4]);
        lemma_be_fields(s, 0);
        lemma_pow256_values();
        let n = prefix_octets((s[4] % 0x40) as int);
        if s[4] % 0x40 <= 32 && s.len() >= 5 + n {
            lemma_padded_octet(s.subrange(5, 5 + n), 4, i);
            if s.len() >= 6 + n && s.len() >= 6 + n + s[5 + n] {
                assert(s.skip(5 + n).subrange(1, 1 + s[5 + n]) =~= s.subrange(
                    6 + n,
                    6 + n + s[5 + n],
                ));
            }
        }
    }
}

/// An IPv6 prefix is four octets of metric, an octet with the up/down bit, the
/// external bit and the sub-TLV bit, the prefix length, and as many octets of
/// address as the prefix takes: the others are zero. A block of sub-TLVs behind
/// its length follows only if the bit says so. A prefix length of more than 128
/// is refused, and so is the TLV if octets are missing. `i` is any octet of the
/// address.
pub proof fn lemma_ipv6_reach_octets(s: Seq<u8>, tlv_len: u8, i: int)
    requires
        0 <= i < 16,
    ensures
        ({
            let n = (s[5] + 7) / 8;
            let with_subs = s[4] & 0x20 != 0;
            match Ipv6Reach::parse(s, tlv_len) {
                Ok((v, len)) => {
                    &&& s.len() >= 6 + n
                    &&& s[5] <= 128
                    &&& v.metric == 0x100_0000 * s[0] + 0x1_0000 * s[1] + 0x100 * s[2] + s[3]
                    &&& v.up_down <==> s[4] & 0x80 != 0
                    &&& v.external <==> s[4] & 0x40 != 0
                    &&& v.prefix.prefix == s[5]
                    &&& (v.prefix.addr.bits as nat / pow256((15 - i) as nat)) % 256 == (if i < n {
                        s[6 + i] as nat
                    } else {
                        0
                    })
                    &&& !with_subs ==> len == 6 + n && v.sub_tlvs.len() == 0
                    &&& with_subs ==> {
                        &&& s.len() >= 7 + n
                        &&& s.len() >= 7 + n + s[6 + n]
                        &&& len == 7 + n + s[6 + n]
                        &&& v.sub_tlvs == s.subrange(7 + n, 7 + n + s[6 + n])
                    }
                },
                Err(DecodeError::InvalidPrefixLen(x)) => s.len() >= 6 && x == s[5] && x > 128,
                Err(DecodeError::InvalidTlvLength(x)) => x == tlv_len && (s.len() < 6 || (s[5] <= 128
                    && (s.len() < 6 + n || (with_subs && (s.len() < 7 + n || s.len() < 7 + n + s[6
                    + n]))))),
                Err(_) => false,
            }
        }),
        Ipv6Reach::reserved() == 0,
{
    if s.len() >= 6 {
        lemma_octet_bits(s[4]);
        lemma_be_fields(s, 0);
        lemma_pow256_values();
        let n = prefix_octets(s[5] as int);
        if s[5] <= 128 && s.len() >= 6 + n {
            lemma_padded_octet(s.subrange(6, 6 + n), 16, i);
            if s.len() >= 7 + n && s.len() >= 7 + n + s[6 + n] {
                assert(s.skip(6 + n).subrange(1, 1 + s[6 + n]) =~= s.subrange(
                    7 + n,
                    7 + n + s[6 + n],
                ));
            }
        }
    }
}

/// How the entries with narrow metrics stand on the wire: a metric that is not
/// supported is the highest bit alone, and a metric that is too wide for the
/// octet that it shares with flags is cut to its six bits.
pub proof fn lemma_narrow_wire(a: IsReach, b: Ipv4Reach)
    ensures
        ({
            let s = IsReach::wire(a);
            &&& s.len() == 11
            &&& s[0] == a.metric
            &&& a.metric_delay matches Some(m) ==> s[1] == m
            &&& a.metric_delay is None ==> s[1] == 0x80
            &&& a.metric_expense matches Some(m) ==> s[2] == m
            &&& a.metric_expense is None ==> s[2] == 0x80
            &&& a.metric_error matches Some(m) ==> s[3] == m
            &&& a.metric_error is None ==> s[3] == 0x80
            &&& s.subrange(4, 10) == a.neighbor.system_id.octets@
            &&& s[10] == a.neighbor.pseudonode
        }),
        ({
            let s = Ipv4Reach::wire(b);
            &&& s.len() == 12
            &&& s[0] & 0x80 != 0 <==> b.up_down
            &&& s[0] & 0x40 != 0 <==> b.ie_bit
            &&& s[0] & 0x3F == b.metric & 0x3F
            &&& b.metric_delay matches Some(m) ==> s[1] == m
            &&& b.metric_delay is None ==> s[1] == 0x80
            &&& b.metric_expense matches Some(m) ==> s[2] == m
            &&& b.metric_expense is None ==> s[2] == 0x80
            &&& b.metric_error matches Some(m) ==> s[3] == m
            &&& b.metric_error is None ==> s[3] == 0x80
            &&& s.subrange(4, 8) == be_bytes(b.addr.bits as nat, 4)
            &&& s.subrange(8, 12) == be_bytes(b.mask.bits as nat, 4)
        }),
{
    a.neighbor.lemma_wire(Seq::empty());
    a.neighbor.system_id.lemma_wire(Seq::empty());
    let s = IsReach::wire(a);
    assert(s.subrange(4, 10) =~= a.neighbor.system_id.octets@);
    lemma_be_bytes_len(b.addr.bits as nat, 4);
    lemma_be_bytes_len(b.mask.bits as nat, 4);
    let t = Ipv4Reach::wire(b);
    lemma_octet_bits(t[0]);
    lemma_octet_bits(b.metric);
    assert(t.subrange(4, 8) =~= be_bytes(b.addr.bits as nat, 4));
    assert(t.subrange(8, 12) =~= be_bytes(b.mask.bits as nat, 4));
}

/// How the entries with wide metrics stand on the wire: of an address only the
/// octets that its prefix takes, and of the sub-TLVs, where an entry may do
/// without, nothing at all if there are none. The flags that have no meaning are
/// zero.
pub proof fn lemma_wide_wire(a: ExtIsReachView, b: ExtIpv4ReachView, c: Ipv6ReachView)
    ensures
        ({
            let s = ExtIsReach::wire(a);
            &&& s.len() == 11 + a.sub_tlvs.len()
            &&& s.subrange(0, 6) == a.neighbor.system_id.octets@
            &&& s[6] == a.neighbor.pseudonode
            &&& s.subrange(7, 10) == be_bytes(a.metric as nat, 3)
            &&& s[10] == a.sub_tlvs.len() % 256
            &&& s.skip(11) == a.sub_tlvs
        }),
        b.prefix.prefix <= 32 ==> {
            let s = ExtIpv4Reach::wire(b);
            let n = (b.prefix.prefix + 7) / 8;
            &&& s.subrange(0, 4) == be_bytes(b.metric as nat, 4)
            &&& s[4] & 0x80 != 0 <==> b.up_down
            &&& s[4] & 0x40 != 0 <==> b.sub_tlvs.len() > 0
            &&& s[4] & 0x3F == b.prefix.prefix
            &&& s.subrange(5, 5 + n) == be_bytes(b.prefix.addr.bits as nat, 4).subrange(0, n)
            &&& b.sub_tlvs.len() == 0 ==> s.len() == 5 + n
            &&& b.sub_tlvs.len() > 0 ==> s[5 + n] == b.sub_tlvs.len() % 256 && s.skip(6 + n)
                == b.sub_tlvs
        },
        c.prefix.prefix <= 128 ==> {
            let s = Ipv6Reach::wire(c);
            let n = (c.prefix.prefix + 7) / 8;
            &&& s.subrange(0, 4) == be_bytes(c.metric as nat, 4)
            &&& s[4] & 0x80 != 0 <==> c.up_down
            &&& s[4] & 0x40 != 0 <==> c.external
            &&& s[4] & 0x20 != 0 <==> c.sub_tlvs.len() > 0
            &&& s[4] % 0x20 == 0
            &&& s[5] == c.prefix.prefix
            &&& s.subrange(6, 6 + n) == be_bytes(c.prefix.addr.bits as nat, 16).subrange(0, n)
            &&& c.sub_tlvs.len() == 0 ==> s.len() == 6 + n
            &&& c.sub_tlvs.len() > 0 ==> s[6 + n] == c.sub_tlvs.len() % 256 && s.skip(7 + n)
                == c.sub_tlvs
        },
{
    lemma_ext_is_reach_wire(a);
    if b.prefix.prefix <= 32 {
        lemma_ext_ipv4_reach_wire(b);
    }
    if c.prefix.prefix <= 128 {
        lemma_ipv6_reach_wire(c);
    }
}

proof fn lemma_ext_is_reach_wire(a: ExtIsReachView)
    ensures
        ({
            let s = ExtIsReach::wire(a);
            &&& s.len() == 11 + a.sub_tlvs.len()
            &&& s.subrange(0, 6) == a.neighbor.system_id.octets@
            &&& s[6] == a.neighbor.pseudonode
            &&& s.subrange(7, 10) == be_bytes(a.metric as nat, 3)
            &&& s[10] == a.sub_tlvs.len() % 256
            &&& s.skip(11) == a.sub_tlvs
        }),
{
    let s = ExtIsReach::wire(a);
    a.neighbor.lemma_wire(Seq::empty());
    a.neighbor.system_id.lemma_wire(Seq::empty());
    lemma_be_bytes_len(a.metric as nat, 3);
    assert(s.subrange(0, 6) =~= a.neighbor.system_id.octets@);
    assert(s.subrange(7, 10) =~= be_bytes(a.metric as nat, 3));
    assert(s.skip(11) =~= a.sub_tlvs);
}

proof fn lemma_ext_ipv4_reach_wire(b: ExtIpv4ReachView)
    requires
        b.prefix.prefix <= 32,
    ensures
        ({
            let s = ExtIpv4Reach::wire(b);
            let n = (b.prefix.prefix + 7) / 8;
            &&& s.subrange(0, 4) == be_bytes(b.metric as nat, 4)
            &&& s[4] & 0x80 != 0 <==> b.up_down
            &&& s[4] & 0x40 != 0 <==> b.sub_tlvs.len() > 0
            &&& s[4] & 0x3F == b.prefix.prefix
            &&& s.subrange(5, 5 + n) == be_bytes(b.prefix.addr.bits as nat, 4).subrange(0, n)
            &&& b.sub_tlvs.len() == 0 ==> s.len() == 5 + n
            &&& b.sub_tlvs.len() > 0 ==> s[5 + n] == b.sub_tlvs.len() % 256 && s.skip(6 + n)
                == b.sub_tlvs
        }),
{
    let s = ExtIpv4Reach::wire(b);
    let n = (b.prefix.prefix + 7) / 8;
    lemma_be_bytes_len(b.metric as nat, 4);
    lemma_be_bytes_len(b.prefix.addr.bits as nat, 4);
    lemma_octet_bits(s[4]);
    assert(s.subrange(0, 4) =~= be_bytes(b.metric as nat, 4));
    assert(s.subrange(5, 5 + n) =~= be_bytes(b.prefix.addr.bits as nat, 4).subrange(0, n));
    if b.sub_tlvs.len() > 0 {
        assert(s.skip(6 + n) =~= b.sub_tlvs);
    }
}

proof fn lemma_ipv6_reach_wire(c: Ipv6ReachView)
    requires
        c.prefix.prefix <= 128,
    ensures
        ({
            let s = Ipv6Reach::wire(c);
            let n = (c.prefix.prefix + 7) / 8;
            &&& s.subrange(0, 4) == be_bytes(c.metric as nat, 4)
            &&& s[4] & 0x80 != 0 <==> c.up_down
            &&& s[4] & 0x40 != 0 <==> c.external
            &&& s[4] & 0x20 != 0 <==> c.sub_tlvs.len() > 0
            &&& s[4] % 0x20 == 0
            &&& s[5] == c.prefix.prefix
            &&& s.subrange(6, 6 + n) == be_bytes(c.prefix.addr.bits as nat, 16).subrange(0, n)
            &&& c.sub_tlvs.len() == 0 ==> s.len() == 6 + n
            &&& c.sub_tlvs.len() > 0 ==> s[6 + n] == c.sub_tlvs.len() % 256 && s.skip(7 + n)
                == c.sub_tlvs
        }),
{
    let s = Ipv6Reach::wire(c);
    let n = (c.prefix.prefix + 7) / 8;
    lemma_be_bytes_len(c.metric as nat, 4);
    lemma_be_bytes_len(c.prefix.addr.bits as nat, 16);
    lemma_octet_bits(s[4]);
    assert(s.subrange(0, 4) =~= be_bytes(c.metric as nat, 4));
    assert(s.subrange(6, 6 + n) =~= be_bytes(c.prefix.addr.bits as nat, 16).subrange(0, n));
    if c.sub_tlvs.len() > 0 {
        assert(s.skip(7 + n) =~= c.sub_tlvs);
    }
}

/// Entries with wide metrics stand for all they hold.
pub proof fn lemma_reach_views(a: ExtIsReach, b: ExtIpv4Reach, c: Ipv6Reach)
    ensures
        a@.neighbor == a.neighbor && a@.metric == a.metric,
        a@.sub_tlvs == bytes_content(a.sub_tlvs),
        b@.metric == b.metric && b@.up_down == b.up_down && b@.prefix == b.prefix,
        b@.sub_tlvs == bytes_content(b.sub_tlvs),
        c@.metric == c.metric && c@.up_down == c.up_down && c@.external == c.external,
        c@.prefix == c.prefix,
        c@.sub_tlvs == bytes_content(c.sub_tlvs),
{
}

} // verus!
