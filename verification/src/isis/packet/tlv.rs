//! The type-length-value triples that PDUs carry.

use bytes::{Bytes, BytesMut};
use vstd::prelude::*;

use crate::isis::packet::consts::{PduType, TlvType};
use crate::isis::packet::error::{DecodeError, DecodeResult};
use crate::utils::be::{
    be_bytes, be_uint, lemma_be_bytes_2, lemma_be_bytes_len, lemma_be_fields,
    lemma_be_uint_of_bytes, lemma_pow256_values,
};
use crate::utils::buf::{
    bytes_content, bytes_mut_content, copy_to_bytes, get_u16, get_u8, put_u16, put_u8, set_octet,
};

verus! {

/// TLV header size.
pub const TLV_HDR_SIZE: usize = 2;

/// The most octets that the value of a TLV can have.
pub const TLV_MAX_LEN: usize = 255;

/// How a TLV stands on the wire.
pub open spec fn tlv_wire(tlv_type: u8, value: Seq<u8>) -> Seq<u8> {
    seq![tlv_type, (value.len() % 256) as u8] + value
}

/// `n` zero octets.
pub open spec fn zeros(n: nat) -> Seq<u8> {
    Seq::new(n, |i: int| 0u8)
}

/// Appends zero octets to the buffer.
pub(crate) fn put_zeros(buf: &mut BytesMut, n: usize)
    requires
        bytes_mut_content(*old(buf)).len() + n <= isize::MAX,
    ensures
        bytes_mut_content(*final(buf)) == bytes_mut_content(*old(buf)) + zeros(n as nat),
{
    let ghost before = bytes_mut_content(*buf);
    assert(before =~= before + zeros(0));
    let mut i: usize = 0;
    while i < n
        invariant
            i <= n,
            before.len() + n <= isize::MAX,
            bytes_mut_content(*buf) == before + zeros(i as nat),
        decreases n - i,
    {
        put_u8(buf, 0);
        i = i + 1;
        assert(bytes_mut_content(*buf) =~= before + zeros(i as nat));
    }
}

/// An element of the list that the value of a TLV is made of.
pub trait TlvEntry: Sized + View {
    /// How many reserved octets stand in front of the list.
    spec fn reserved() -> nat;

    /// How an entry stands on the wire.
    spec fn wire(v: Self::V) -> Seq<u8>;

    /// The entry at the start of `s`, and how many octets it takes. `tlv_len`
    /// is the length of the whole TLV.
    spec fn parse(s: Seq<u8>, tlv_len: u8) -> DecodeResult<(Self::V, nat)>;

    /// Whether the wire can tell the entry from all others.
    spec fn valid(v: Self::V) -> bool;

    /// What stands on the wire is read back.
    proof fn lemma_parse_wire(v: Self::V, rest: Seq<u8>, tlv_len: u8)
        requires
            Self::valid(v),
        ensures
            Self::parse(Self::wire(v) + rest, tlv_len) == Ok::<(Self::V, nat), DecodeError>(
                (v, Self::wire(v).len()),
            ),
            Self::wire(v).len() > 0,
    ;

    /// An entry is told by the octets that it takes, and by them alone.
    proof fn lemma_parse_local(s: Seq<u8>, rest: Seq<u8>, tlv_len: u8)
        requires
            s.len() > 0,
            Self::parse(s, tlv_len) is Ok,
        ensures
            0 < Self::parse(s, tlv_len).unwrap().1 <= s.len(),
            Self::parse(s.take(Self::parse(s, tlv_len).unwrap().1 as int) + rest, tlv_len)
                == Self::parse(s, tlv_len),
    ;

    /// How many reserved octets stand in front of the list.
    fn reserved_len() -> (n: usize)
        ensures
            n == Self::reserved(),
            n <= 1,
    ;

    /// How many octets the entry takes, but no more than `cap`.
    fn capped_len(&self, cap: usize) -> (n: usize)
        ensures
            n == (if Self::wire(self@).len() <= cap {
                Self::wire(self@).len() as int
            } else {
                cap as int
            }),
    ;

    /// Appends the entry to the buffer.
    fn encode(&self, buf: &mut BytesMut)
        requires
            bytes_mut_content(*old(buf)).len() + Self::wire(self@).len() <= isize::MAX,
        ensures
            bytes_mut_content(*final(buf)) == bytes_mut_content(*old(buf)) + Self::wire(self@),
    ;

    /// Takes an entry off the buffer.
    fn decode(tlv_len: u8, buf: &mut Bytes) -> (r: DecodeResult<Self>)
        requires
            bytes_content(*old(buf)).len() > 0,
        ensures
            match r {
                Ok(e) => {
                    &&& Self::parse(bytes_content(*old(buf)), tlv_len) matches Ok((v, n))
                    &&& e@ == v
                    &&& 0 < n <= bytes_content(*old(buf)).len()
                    &&& bytes_content(*final(buf)) == bytes_content(*old(buf)).skip(n as int)
                },
                Err(err) => Self::parse(bytes_content(*old(buf)), tlv_len) == Err::<
                    (Self::V, nat),
                    DecodeError,
                >(err),
            },
    ;
}

/// How a list of entries stands on the wire.
pub open spec fn list_wire<E: TlvEntry>(l: Seq<E::V>) -> Seq<u8>
    decreases l.len(),
{
    if l.len() == 0 {
        Seq::empty()
    } else {
        E::wire(l[0]) + list_wire::<E>(l.skip(1))
    }
}

/// The entries that `s` is made of.
pub open spec fn list_parse<E: TlvEntry>(s: Seq<u8>, tlv_len: u8) -> DecodeResult<Seq<E::V>>
    decreases s.len(),
{
    if s.len() == 0 {
        Ok(Seq::empty())
    } else {
        match E::parse(s, tlv_len) {
            Err(e) => Err(e),
            Ok((v, n)) => if 0 < n <= s.len() {
                match list_parse::<E>(s.skip(n as int), tlv_len) {
                    Err(e) => Err(e),
                    Ok(l) => Ok(seq![v] + l),
                }
            } else {
                Err(DecodeError::InvalidTlvLength(tlv_len))
            },
        }
    }
}

/// The value of a TLV with the given entries.
pub open spec fn value_wire<E: TlvEntry>(l: Seq<E::V>) -> Seq<u8> {
    zeros(E::reserved()) + list_wire::<E>(l)
}

/// The entries of a TLV with the given value.
pub open spec fn value_parse<E: TlvEntry>(value: Seq<u8>) -> DecodeResult<Seq<E::V>> {
    if value.len() < E::reserved() {
        Err(DecodeError::InvalidTlvLength(value.len() as u8))
    } else {
        list_parse::<E>(value.skip(E::reserved() as int), value.len() as u8)
    }
}

/// Whether the wire can tell the list of entries from all others: all entries
/// are valid, and they fit in a TLV.
pub open spec fn list_valid<E: TlvEntry>(l: Seq<E::V>) -> bool {
    &&& forall|i: int| 0 <= i < l.len() ==> E::valid(#[trigger] l[i])
    &&& value_wire::<E>(l).len() <= TLV_MAX_LEN
}

proof fn lemma_list_parse_wire<E: TlvEntry>(l: Seq<E::V>, tlv_len: u8)
    requires
        forall|i: int| 0 <= i < l.len() ==> E::valid(#[trigger] l[i]),
    ensures
        list_parse::<E>(list_wire::<E>(l), tlv_len) == Ok::<Seq<E::V>, DecodeError>(l),
    decreases l.len(),
{
    if l.len() == 0 {
        assert(l =~= Seq::empty());
    } else {
        let tail = list_wire::<E>(l.skip(1));
        let s = E::wire(l[0]) + tail;
        E::lemma_parse_wire(l[0], tail, tlv_len);
        assert forall|i: int| 0 <= i < l.skip(1).len() implies E::valid(#[trigger] l.skip(1)[i]) by {
            assert(l.skip(1)[i] == l[i + 1]);
        }
        lemma_list_parse_wire::<E>(l.skip(1), tlv_len);
        assert(s.skip(E::wire(l[0]).len() as int) =~= tail);
        assert(seq![l[0]] + l.skip(1) =~= l);
    }
}

/// The entries of a TLV are read back.
pub proof fn lemma_value_parse_wire<E: TlvEntry>(l: Seq<E::V>)
    requires
        list_valid::<E>(l),
    ensures
        value_parse::<E>(value_wire::<E>(l)) == Ok::<Seq<E::V>, DecodeError>(l),
{
    let value = value_wire::<E>(l);
    assert(value.skip(E::reserved() as int) =~= list_wire::<E>(l));
    lemma_list_parse_wire::<E>(l, value.len() as u8);
}

/// A TLV. What its type is, is left to the PDU that carries it.
pub trait Tlv: Sized + View {
    /// The value of the TLV, as it stands on the wire.
    spec fn value(v: Self::V) -> Seq<u8>;

    /// The TLV that a value stands for.
    spec fn parse_value(value: Seq<u8>) -> DecodeResult<Self::V>;

    /// Whether the wire can tell the TLV from all others.
    spec fn valid(v: Self::V) -> bool;

    /// What stands on the wire is read back.
    proof fn lemma_parse_value(v: Self::V)
        requires
            Self::valid(v),
        ensures
            Self::parse_value(Self::value(v)) == Ok::<Self::V, DecodeError>(v),
            Self::value(v).len() <= TLV_MAX_LEN,
    ;

    /// Decodes the value of a TLV, which is all that the buffer holds.
    fn decode(tlv_len: u8, buf: &mut Bytes) -> (r: DecodeResult<Self>)
        requires
            bytes_content(*old(buf)).len() == tlv_len,
        ensures
            match r {
                Ok(tlv) => Self::parse_value(bytes_content(*old(buf))) == Ok::<
                    Self::V,
                    DecodeError,
                >(tlv@),
                Err(e) => Self::parse_value(bytes_content(*old(buf))) == Err::<
                    Self::V,
                    DecodeError,
                >(e),
            },
    ;

    /// Appends the TLV to the buffer.
    fn encode(&self, tlv_type: TlvType, buf: &mut BytesMut)
        requires
            bytes_mut_content(*old(buf)).len() + 2 + Self::value(self@).len() <= isize::MAX,
        ensures
            bytes_mut_content(*final(buf)) == bytes_mut_content(*old(buf)) + tlv_wire(
                tlv_type.code(),
                Self::value(self@),
            ),
    ;

    /// How many octets the TLV takes, if it fits in the room that is left.
    fn len_within(&self, room: usize) -> (r: Option<usize>)
        ensures
            r == (if 2 + Self::value(self@).len() <= room {
                Some((2 + Self::value(self@).len()) as usize)
            } else {
                None
            }),
    ;
}

/// A TLV whose value is a list of entries.
#[derive(Clone, Debug, PartialEq, Eq)]
pub struct EntriesTlv<E> {
    pub list: Vec<E>,
}

/// What a list of values stands for.
pub open spec fn views<E: View>(l: Seq<E>) -> Seq<E::V> {
    Seq::new(l.len(), |i: int| l[i]@)
}

impl<E: View> View for EntriesTlv<E> {
    type V = Seq<E::V>;

    open spec fn view(&self) -> Seq<E::V> {
        views(self.list@)
    }
}

impl<E: TlvEntry> Tlv for EntriesTlv<E> {
    open spec fn value(v: Seq<E::V>) -> Seq<u8> {
        value_wire::<E>(v)
    }

    open spec fn parse_value(value: Seq<u8>) -> DecodeResult<Seq<E::V>> {
        value_parse::<E>(value)
    }

    open spec fn valid(v: Seq<E::V>) -> bool {
        list_valid::<E>(v)
    }

    proof fn lemma_parse_value(v: Seq<E::V>) {
        lemma_value_parse_wire::<E>(v);
    }

    fn decode(tlv_len: u8, buf: &mut Bytes) -> (r: DecodeResult<EntriesTlv<E>>) {
        let ghost value = bytes_content(*buf);
        let reserved = E::reserved_len();
        if buf.len() < reserved {
            return Err(DecodeError::InvalidTlvLength(tlv_len));
        }
        let _ = copy_to_bytes(buf, reserved);
        let ghost whole = bytes_content(*buf);
        let mut list: Vec<E> = Vec::new();
        proof {
            assert(views(list@) =~= Seq::empty());
            assert(match list_parse::<E>(whole, tlv_len) {
                Ok(l) => Seq::<E::V>::empty() + l =~= l,
                Err(e) => true,
            });
        }
        while buf.len() > 0
            invariant
                list_parse::<E>(whole, tlv_len) == (match list_parse::<E>(
                    bytes_content(*buf),
                    tlv_len,
                ) {
                    Ok(l) => Ok::<Seq<E::V>, DecodeError>(views(list@) + l),
                    Err(e) => Err(e),
                }),
                value == bytes_content(*old(buf)),
                value.len() == tlv_len,
                value.len() >= E::reserved(),
                whole == value.skip(E::reserved() as int),
            decreases bytes_content(*buf).len(),
        {
            let ghost s = bytes_content(*buf);
            let ghost before = views(list@);
            match E::decode(tlv_len, buf) {
                Ok(e) => {
                    let ghost v = e@;
                    list.push(e);
                    proof {
                        assert(views(list@) =~= before.push(v));
                        match list_parse::<E>(bytes_content(*buf), tlv_len) {
                            Ok(l) => {
                                assert(before + (seq![v] + l) =~= views(list@) + l);
                            },
                            Err(e) => {},
                        }
                    }
                },
                Err(e) => {
                    return Err(e);
                },
            }
        }
        assert(views(list@) + Seq::<E::V>::empty() =~= views(list@));
        Ok(EntriesTlv { list })
    }

    fn encode(&self, tlv_type: TlvType, buf: &mut BytesMut) {
        let ghost before = bytes_mut_content(*buf);
        let ghost l = self@;
        put_u8(buf, tlv_type.as_u8());
        // The TLV length will be initialized later.
        let len_pos: usize = buf.len();
        put_u8(buf, 0);
        put_zeros(buf, E::reserved_len());
        let ghost head = bytes_mut_content(*buf);
        assert(l.skip(0) =~= l);
        let mut i: usize = 0;
        while i < self.list.len()
            invariant
                i <= self.list.len(),
                l == self@,
                head.len() + list_wire::<E>(l).len() <= isize::MAX,
                bytes_mut_content(*buf) + list_wire::<E>(l.skip(i as int)) == head
                    + list_wire::<E>(l),
            decreases self.list.len() - i,
        {
            let ghost prev = bytes_mut_content(*buf);
            proof {
                assert(l.skip(i as int).skip(1) =~= l.skip(i + 1));
                assert(l.skip(i as int)[0] == self.list[i as int]@);
                assert((prev + list_wire::<E>(l.skip(i as int))).len() == (head + list_wire::<E>(
                    l,
                )).len());
            }
            self.list[i].encode(buf);
            i = i + 1;
            assert(bytes_mut_content(*buf) + list_wire::<E>(l.skip(i as int)) =~= prev + (
            E::wire(self.list[i - 1]@) + list_wire::<E>(l.skip(i as int))));
        }
        proof {
            assert(list_wire::<E>(l.skip(i as int)) =~= Seq::empty());
            assert(bytes_mut_content(*buf) =~= head + list_wire::<E>(l));
        }
        let len: usize = buf.len() - len_pos - 1;
        set_octet(buf, len_pos, (len % 256) as u8);
        assert(bytes_mut_content(*buf) =~= before + tlv_wire(tlv_type.code(), value_wire::<E>(l)));
    }

    fn len_within(&self, room: usize) -> (r: Option<usize>) {
        let ghost l = self@;
        let mut n: usize = TLV_HDR_SIZE + E::reserved_len();
        if n > room {
            return None;
        }
        let mut i: usize = 0;
        assert(l.skip(0) =~= l);
        while i < self.list.len()
            invariant
                i <= self.list.len(),
                l == self@,
                2 <= n <= room,
                n + list_wire::<E>(l.skip(i as int)).len() == 2 + value_wire::<E>(l).len(),
            decreases self.list.len() - i,
        {
            proof {
                assert(l.skip(i as int).skip(1) =~= l.skip(i + 1));
                assert(l.skip(i as int)[0] == self.list[i as int]@);
            }
            let entry_len = self.list[i].capped_len(room - n + 1);
            if entry_len > room - n {
                return None;
            }
            n = n + entry_len;
            i = i + 1;
        }
        Some(n)
    }
}

/// Padding: a TLV of zeros.
#[derive(Clone, Copy, Debug, PartialEq, Eq, Structural)]
pub struct PaddingTlv {
    pub length: u8,
}

impl View for PaddingTlv {
    type V = PaddingTlv;

    open spec fn view(&self) -> PaddingTlv {
        *self
    }
}

impl Tlv for PaddingTlv {
    open spec fn value(v: PaddingTlv) -> Seq<u8> {
        zeros(v.length as nat)
    }

    /// What padding is made of is ignored.
    open spec fn parse_value(value: Seq<u8>) -> DecodeResult<PaddingTlv> {
        Ok(PaddingTlv { length: value.len() as u8 })
    }

    open spec fn valid(v: PaddingTlv) -> bool {
        true
    }

    proof fn lemma_parse_value(v: PaddingTlv) {
    }

    fn decode(tlv_len: u8, buf: &mut Bytes) -> (r: DecodeResult<PaddingTlv>) {
        Ok(PaddingTlv { length: tlv_len })
    }

    fn encode(&self, tlv_type: TlvType, buf: &mut BytesMut) {
        let ghost before = bytes_mut_content(*buf);
        put_u8(buf, tlv_type.as_u8());
        put_u8(buf, self.length);
        put_zeros(buf, self.length as usize);
        assert(bytes_mut_content(*buf) =~= before + tlv_wire(
            tlv_type.code(),
            zeros(self.length as nat),
        ));
    }

    fn len_within(&self, room: usize) -> (r: Option<usize>) {
        let len: usize = TLV_HDR_SIZE + self.length as usize;
        if len <= room {
            Some(len)
        } else {
            None
        }
    }
}

/// The maximum sized LSP which may be generated.
#[derive(Clone, Copy, Debug, PartialEq, Eq, Structural)]
pub struct LspBufferSizeTlv {
    pub size: u16,
}

impl View for LspBufferSizeTlv {
    type V = LspBufferSizeTlv;

    open spec fn view(&self) -> LspBufferSizeTlv {
        *self
    }
}

impl Tlv for LspBufferSizeTlv {
    open spec fn value(v: LspBufferSizeTlv) -> Seq<u8> {
        be_bytes(v.size as nat, 2)
    }

    open spec fn parse_value(value: Seq<u8>) -> DecodeResult<LspBufferSizeTlv> {
        if value.len() == 2 {
            Ok(LspBufferSizeTlv { size: be_uint(value) as u16 })
        } else {
            Err(DecodeError::InvalidTlvLength(value.len() as u8))
        }
    }

    open spec fn valid(v: LspBufferSizeTlv) -> bool {
        true
    }

    proof fn lemma_parse_value(v: LspBufferSizeTlv) {
        lemma_pow256_values();
        lemma_be_bytes_len(v.size as nat, 2);
        lemma_be_uint_of_bytes(v.size as nat, 2);
    }

    fn decode(tlv_len: u8, buf: &mut Bytes) -> (r: DecodeResult<LspBufferSizeTlv>) {
        if tlv_len != 2 {
            return Err(DecodeError::InvalidTlvLength(tlv_len));
        }
        assert(bytes_content(*buf).take(2) =~= bytes_content(*buf));
        let size = get_u16(buf);
        Ok(LspBufferSizeTlv { size })
    }

    fn encode(&self, tlv_type: TlvType, buf: &mut BytesMut) {
        let ghost before = bytes_mut_content(*buf);
        proof {
            lemma_be_bytes_len(self.size as nat, 2);
        }
        put_u8(buf, tlv_type.as_u8());
        put_u8(buf, 2);
        put_u16(buf, self.size);
        assert(bytes_mut_content(*buf) =~= before + tlv_wire(
            tlv_type.code(),
            be_bytes(self.size as nat, 2),
        ));
    }

    fn len_within(&self, room: usize) -> (r: Option<usize>) {
        proof {
            lemma_be_bytes_len(self.size as nat, 2);
        }
        if TLV_HDR_SIZE + 2 <= room {
            Some(TLV_HDR_SIZE + 2)
        } else {
            None
        }
    }
}

/// A TLV that is kept as it came.
#[derive(Clone, Debug, PartialEq, Eq)]
pub struct UnknownTlv {
    pub tlv_type: u8,
    pub length: u8,
    pub value: Bytes,
}

/// What an unknown TLV holds.
#[verifier::ext_equal]
pub struct RawTlv {
    pub tlv_type: u8,
    pub length: u8,
    pub value: Seq<u8>,
}

impl View for UnknownTlv {
    type V = RawTlv;

    open spec fn view(&self) -> RawTlv {
        RawTlv {
            tlv_type: self.tlv_type,
            length: self.length,
            value: bytes_content(self.value),
        }
    }
}

impl UnknownTlv {
    /// Puts a TLV together.
    pub fn new(tlv_type: u8, length: u8, value: Bytes) -> (r: UnknownTlv)
        ensures
            r@ == (RawTlv { tlv_type, length, value: bytes_content(value) }),
    {
        UnknownTlv { tlv_type, length, value }
    }
}

/// How many octets a TLV takes.
pub open spec fn tlv_len<T: Tlv>(v: T::V) -> nat {
    2 + T::value(v).len()
}

/// How many octets some TLVs take.
pub open spec fn group_len<T: Tlv>(l: Seq<T::V>) -> nat
    decreases l.len(),
{
    if l.len() == 0 {
        0
    } else {
        tlv_len::<T>(l[0]) + group_len::<T>(l.skip(1))
    }
}

/// How some TLVs of one type stand on the wire.
#[verifier::opaque]
pub open spec fn group_wire<T: Tlv>(tlv_type: TlvType, l: Seq<T::V>) -> Seq<u8>
    decreases l.len(),
{
    if l.len() == 0 {
        Seq::empty()
    } else {
        tlv_wire(tlv_type.code(), T::value(l[0])) + group_wire::<T>(tlv_type, l.skip(1))
    }
}

/// How a TLV that may be missing stands on the wire.
pub open spec fn opt_wire<T: Tlv>(tlv_type: TlvType, o: Option<T::V>) -> Seq<u8> {
    match o {
        Some(v) => tlv_wire(tlv_type.code(), T::value(v)),
        None => Seq::empty(),
    }
}

/// What an optional value stands for.
pub open spec fn opt_view<T: View>(o: Option<T>) -> Option<T::V> {
    match o {
        Some(t) => Some(t@),
        None => None,
    }
}

/// The length of a group is the length of what stands on the wire.
pub proof fn lemma_group_len<T: Tlv>(tlv_type: TlvType, l: Seq<T::V>)
    ensures
        group_wire::<T>(tlv_type, l).len() == group_len::<T>(l),
    decreases l.len(),
{
    reveal(group_wire);
    if l.len() > 0 {
        lemma_group_len::<T>(tlv_type, l.skip(1));
    }
}

/// Appends some TLVs of one type to the buffer.
pub(crate) fn encode_group<T: Tlv>(tlv_type: TlvType, tlvs: &Vec<T>, buf: &mut BytesMut)
    requires
        bytes_mut_content(*old(buf)).len() + group_wire::<T>(tlv_type, views(tlvs@)).len()
            <= isize::MAX,
    ensures
        bytes_mut_content(*final(buf)) == bytes_mut_content(*old(buf)) + group_wire::<T>(
            tlv_type,
            views(tlvs@),
        ),
{
    let ghost before = bytes_mut_content(*buf);
    let ghost l = views(tlvs@);
    assert(l.skip(0) =~= l);
    let mut i: usize = 0;
    while i < tlvs.len()
        invariant
            i <= tlvs.len(),
            l == views(tlvs@),
            before.len() + group_wire::<T>(tlv_type, l).len() <= isize::MAX,
            bytes_mut_content(*buf) + group_wire::<T>(tlv_type, l.skip(i as int)) == before
                + group_wire::<T>(tlv_type, l),
        decreases tlvs.len() - i,
    {
        let ghost prev = bytes_mut_content(*buf);
        let ghost tail = group_wire::<T>(tlv_type, l.skip(i + 1));
        proof {
            reveal(group_wire);
            assert(l.skip(i as int).skip(1) =~= l.skip(i + 1));
            assert(l.skip(i as int)[0] == tlvs[i as int]@);
            assert((prev + group_wire::<T>(tlv_type, l.skip(i as int))).len() == (before
                + group_wire::<T>(tlv_type, l)).len());
        }
        tlvs[i].encode(tlv_type, buf);
        assert(bytes_mut_content(*buf) + tail =~= prev + (tlv_wire(
            tlv_type.code(),
            T::value(tlvs[i as int]@),
        ) + tail));
        i = i + 1;
    }
    reveal(group_wire);
    assert(group_wire::<T>(tlv_type, l.skip(i as int)) =~= Seq::empty());
    assert(bytes_mut_content(*buf) =~= before + group_wire::<T>(tlv_type, l));
}

/// Appends a TLV that may be missing to the buffer.
pub(crate) fn encode_opt<T: Tlv>(tlv_type: TlvType, tlv: &Option<T>, buf: &mut BytesMut)
    requires
        bytes_mut_content(*old(buf)).len() + opt_wire::<T>(tlv_type, opt_view(*tlv)).len()
            <= isize::MAX,
    ensures
        bytes_mut_content(*final(buf)) == bytes_mut_content(*old(buf)) + opt_wire::<T>(
            tlv_type,
            opt_view(*tlv),
        ),
{
    match tlv {
        Some(tlv) => tlv.encode(tlv_type, buf),
        None => {
            assert(bytes_mut_content(*buf) + Seq::<u8>::empty() =~= bytes_mut_content(*buf));
        },
    }
}

/// Takes the octets of some TLVs of one type off the room, if there is enough
/// of it.
pub(crate) fn take_group<T: Tlv>(tlv_type: TlvType, tlvs: &Vec<T>, room: usize) -> (r: Option<usize>)
    ensures
        r == (if group_wire::<T>(tlv_type, views(tlvs@)).len() <= room {
            Some((room - group_wire::<T>(tlv_type, views(tlvs@)).len()) as usize)
        } else {
            None
        }),
{
    let ghost l = views(tlvs@);
    let mut left: usize = room;
    let mut i: usize = 0;
    proof {
        lemma_group_len::<T>(tlv_type, l);
        assert(l.skip(0) =~= l);
    }
    while i < tlvs.len()
        invariant
            i <= tlvs.len(),
            l == views(tlvs@),
            left <= room,
            room - left + group_len::<T>(l.skip(i as int)) == group_len::<T>(l),
            group_wire::<T>(tlv_type, l).len() == group_len::<T>(l),
        decreases tlvs.len() - i,
    {
        proof {
            assert(l.skip(i as int).skip(1) =~= l.skip(i + 1));
            assert(l.skip(i as int)[0] == tlvs[i as int]@);
        }
        match tlvs[i].len_within(left) {
            Some(len) => {
                left = left - len;
            },
            None => return None,
        }
        i = i + 1;
    }
    Some(left)
}

/// Takes the octets of a TLV that may be missing off the room, if there is
/// enough of it.
pub(crate) fn take_opt<T: Tlv>(tlv_type: TlvType, tlv: &Option<T>, room: usize) -> (r: Option<usize>)
    ensures
        r == (if opt_wire::<T>(tlv_type, opt_view(*tlv)).len() <= room {
            Some((room - opt_wire::<T>(tlv_type, opt_view(*tlv)).len()) as usize)
        } else {
            None
        }),
{
    match tlv {
        Some(tlv) => match tlv.len_within(room) {
            Some(len) => Some(room - len),
            None => None,
        },
        None => Some(room),
    }
}

/// How many of the leading TLVs fit in the room.
pub open spec fn fit_count<T: Tlv>(l: Seq<T::V>, room: nat) -> nat
    decreases l.len(),
{
    if l.len() == 0 || tlv_len::<T>(l[0]) > room {
        0
    } else {
        1 + fit_count::<T>(l.skip(1), (room - tlv_len::<T>(l[0])) as nat)
    }
}

/// The TLVs that fit are among those that there are, and do fit; the next one
/// does not.
pub proof fn lemma_fit_count<T: Tlv>(l: Seq<T::V>, room: nat)
    ensures
        fit_count::<T>(l, room) <= l.len(),
        group_len::<T>(l.take(fit_count::<T>(l, room) as int)) <= room,
        fit_count::<T>(l, room) < l.len() ==> group_len::<T>(
            l.take(fit_count::<T>(l, room) as int),
        ) + tlv_len::<T>(l[fit_count::<T>(l, room) as int]) > room,
    decreases l.len(),
{
    let k = fit_count::<T>(l, room);
    if k > 0 {
        let rest = (room - tlv_len::<T>(l[0])) as nat;
        lemma_fit_count::<T>(l.skip(1), rest);
        assert(l.take(k as int).skip(1) =~= l.skip(1).take(k - 1));
    }
}

/// How many of the leading TLVs fit in the room, and how much room they leave.
pub(crate) fn fit_prefix<T: Tlv>(tlvs: &Vec<T>, room: usize) -> (r: (usize, usize))
    ensures
        r.0 == fit_count::<T>(views(tlvs@), room as nat),
        r.0 <= tlvs@.len(),
        r.1 == room - group_len::<T>(views(tlvs@).take(r.0 as int)),
{
    let ghost l = views(tlvs@);
    let mut left: usize = room;
    let mut count: usize = 0;
    proof {
        assert(l.skip(0) =~= l);
        assert(l.take(0) =~= Seq::empty());
    }
    while count < tlvs.len()
        invariant_except_break
            fit_count::<T>(l, room as nat) == count + fit_count::<T>(
                l.skip(count as int),
                left as nat,
            ),
        invariant
            count <= tlvs.len(),
            l == views(tlvs@),
            left + group_len::<T>(l.take(count as int)) == room,
        ensures
            fit_count::<T>(l, room as nat) == count,
        decreases tlvs.len() - count,
    {
        assert(l.skip(count as int)[0] == tlvs[count as int]@);
        match tlvs[count].len_within(left) {
            Some(len) => {
                proof {
                    assert(l.skip(count as int).skip(1) =~= l.skip(count + 1));
                    lemma_group_len_push::<T>(l.take(count as int), l[count as int]);
                    assert(l.take(count + 1) =~= l.take(count as int).push(l[count as int]));
                }
                left = left - len;
                count = count + 1;
            },
            None => {
                break ;
            },
        }
    }
    (count, left)
}

/// Takes as many TLVs as possible from the start of the list, without
/// exceeding the room that is left, which shrinks by what they take.
pub(crate) fn tlv_take_max<T: Tlv>(tlvs: &mut Vec<T>, rem_len: &mut usize) -> (r: Vec<T>)
    ensures
        ({
            let k = fit_count::<T>(views(old(tlvs)@), *old(rem_len) as nat) as int;
            &&& k <= old(tlvs)@.len()
            &&& r@ == old(tlvs)@.take(k)
            &&& final(tlvs)@ == old(tlvs)@.skip(k)
            &&& *final(rem_len) == *old(rem_len) - group_len::<T>(views(old(tlvs)@).take(k))
        }),
{
    let (count, left) = fit_prefix(tlvs, *rem_len);
    *rem_len = left;
    let mut r = tlvs.split_off(count);
    std::mem::swap(tlvs, &mut r);
    proof {
        assert(r@ =~= old(tlvs)@.take(count as int));
        assert(tlvs@ =~= old(tlvs)@.skip(count as int));
    }
    r
}

proof fn lemma_group_len_push<T: Tlv>(l: Seq<T::V>, v: T::V)
    ensures
        group_len::<T>(l.push(v)) == group_len::<T>(l) + tlv_len::<T>(v),
    decreases l.len(),
{
    if l.len() == 0 {
        reveal_with_fuel(group_len, 2);
        assert(l.push(v).skip(1) =~= Seq::empty());
    } else {
        lemma_group_len_push::<T>(l.skip(1), v);
        assert(l.push(v).skip(1) =~= l.skip(1).push(v));
    }
}

/// How many of the leading entries fit in the room.
pub open spec fn fill_count<E: TlvEntry>(l: Seq<E::V>, room: nat) -> nat
    decreases l.len(),
{
    if l.len() == 0 || E::wire(l[0]).len() > room {
        0
    } else {
        1 + fill_count::<E>(l.skip(1), (room - E::wire(l[0]).len()) as nat)
    }
}

/// How many of the leading entries go in one TLV: as many as fit, but at least
/// one.
pub open spec fn first_count<E: TlvEntry>(l: Seq<E::V>) -> nat {
    let k = fill_count::<E>(l, (TLV_MAX_LEN - E::reserved()) as nat);
    if k == 0 {
        1
    } else {
        k
    }
}

/// The entries, split in as few TLVs as their order allows.
pub open spec fn split<E: TlvEntry>(l: Seq<E::V>) -> Seq<Seq<E::V>>
    decreases l.len(),
{
    let k = first_count::<E>(l) as int;
    if l.len() == 0 {
        Seq::empty()
    } else if k >= l.len() {
        seq![l]
    } else {
        seq![l.take(k)] + split::<E>(l.skip(k))
    }
}

/// All elements of some lists, in order.
pub open spec fn flatten<A>(l: Seq<Seq<A>>) -> Seq<A>
    decreases l.len(),
{
    if l.len() == 0 {
        Seq::empty()
    } else {
        l[0] + flatten(l.skip(1))
    }
}

proof fn lemma_fill_count<E: TlvEntry>(l: Seq<E::V>, room: nat)
    ensures
        fill_count::<E>(l, room) <= l.len(),
        list_wire::<E>(l.take(fill_count::<E>(l, room) as int)).len() <= room,
    decreases l.len(),
{
    let k = fill_count::<E>(l, room);
    if k > 0 {
        lemma_fill_count::<E>(l.skip(1), (room - E::wire(l[0]).len()) as nat);
        assert(l.take(k as int).skip(1) =~= l.skip(1).take(k - 1));
    }
}

/// Splitting entries in TLVs loses none of them and keeps their order, leaves
/// no TLV empty, and overfills no TLV if every entry fits in one.
pub proof fn lemma_split<E: TlvEntry>(l: Seq<E::V>)
    ensures
        flatten(split::<E>(l)) == l,
        forall|i: int| 0 <= i < split::<E>(l).len() ==> #[trigger] split::<E>(l)[i].len() > 0,
        (E::reserved() <= TLV_MAX_LEN && forall|i: int|
            0 <= i < l.len() ==> E::wire(#[trigger] l[i]).len() + E::reserved() <= TLV_MAX_LEN)
            ==> forall|i: int|
            0 <= i < split::<E>(l).len() ==> value_wire::<E>(#[trigger] split::<E>(l)[i]).len()
                <= TLV_MAX_LEN,
    decreases l.len(),
{
    reveal_with_fuel(flatten, 2);
    let room = (TLV_MAX_LEN - E::reserved()) as nat;
    let k = first_count::<E>(l) as int;
    lemma_fill_count::<E>(l, room);
    if l.len() == 0 {
        assert(flatten(split::<E>(l)) =~= l);
    } else if k >= l.len() {
        assert(split::<E>(l).skip(1) =~= Seq::empty());
        assert(flatten(split::<E>(l)) =~= l);
        if fill_count::<E>(l, room) == 0 {
            assert(E::wire(l[0]).len() > room);
        } else {
            assert(l.take(k) =~= l);
        }
    } else {
        let tail = split::<E>(l.skip(k));
        lemma_split::<E>(l.skip(k));
        assert(split::<E>(l).skip(1) =~= tail);
        assert(flatten(split::<E>(l)) =~= l);
        assert forall|i: int| 0 <= i < split::<E>(l).len() implies #[trigger] split::<E>(
            l,
        )[i].len() > 0 by {
            if i > 0 {
                assert(split::<E>(l)[i] == tail[i - 1]);
            }
        }
        if E::reserved() <= TLV_MAX_LEN && forall|i: int|
            0 <= i < l.len() ==> E::wire(#[trigger] l[i]).len() + E::reserved() <= TLV_MAX_LEN {
            assert(E::wire(l[0]).len() <= room);
            assert forall|i: int| 0 <= i < l.skip(k).len() implies E::wire(
                #[trigger] l.skip(k)[i],
            ).len() + E::reserved() <= TLV_MAX_LEN by {
                assert(l.skip(k)[i] == l[i + k]);
            }
            assert forall|i: int| 0 <= i < split::<E>(l).len() implies value_wire::<E>(
                #[trigger] split::<E>(l)[i],
            ).len() <= TLV_MAX_LEN by {
                if i > 0 {
                    assert(split::<E>(l)[i] == tail[i - 1]);
                }
            }
        }
    }
}

/// Whether all entries are valid, and each one fits in a TLV.
pub open spec fn entries_fit<E: TlvEntry>(l: Seq<E::V>) -> bool {
    &&& E::reserved() <= TLV_MAX_LEN
    &&& forall|i: int|
        0 <= i < l.len() ==> E::valid(#[trigger] l[i]) && E::wire(l[i]).len() + E::reserved()
            <= TLV_MAX_LEN
}

/// Splitting valid entries that each fit in a TLV gives valid TLVs.
pub proof fn lemma_split_valid<E: TlvEntry>(l: Seq<E::V>)
    requires
        entries_fit::<E>(l),
    ensures
        forall|i: int| 0 <= i < split::<E>(l).len() ==> list_valid::<E>(#[trigger] split::<E>(l)[i]),
    decreases l.len(),
{
    lemma_split::<E>(l);
    let k = first_count::<E>(l) as int;
    if l.len() > 0 && k < l.len() {
        let rest = l.skip(k);
        assert forall|i: int| 0 <= i < rest.len() implies E::valid(#[trigger] rest[i]) && E::wire(
            rest[i],
        ).len() + E::reserved() <= TLV_MAX_LEN by {
            assert(rest[i] == l[i + k]);
        }
        lemma_split_valid::<E>(rest);
        assert forall|i: int| 0 <= i < split::<E>(l).len() implies list_valid::<E>(
            #[trigger] split::<E>(l)[i],
        ) by {
            if i > 0 {
                assert(split::<E>(l)[i] == split::<E>(rest)[i - 1]);
            }
        }
    }
}

/// Splits entries in as few TLVs as their order allows.
pub(crate) fn tlv_entries_split<E: TlvEntry>(entries: Vec<E>) -> (r: Vec<EntriesTlv<E>>)
    ensures
        views(r@) == split::<E>(views(entries@)),
{
    let ghost whole = views(entries@);
    let mut r: Vec<EntriesTlv<E>> = Vec::new();
    let mut rest = entries;
    assert(views(r@) + split::<E>(whole) =~= split::<E>(whole));
    while rest.len() > 0
        invariant
            split::<E>(whole) == views(r@) + split::<E>(views(rest@)),
        decreases rest.len(),
    {
        let ghost before = views(r@);
        let ghost l = views(rest@);
        let room: usize = TLV_MAX_LEN - E::reserved_len();
        let mut left: usize = room;
        let mut count: usize = 0;
        proof {
            assert(l.skip(0) =~= l);
            lemma_fill_count::<E>(l, room as nat);
        }
        while count < rest.len()
            invariant_except_break
                fill_count::<E>(l, room as nat) == count + fill_count::<E>(
                    l.skip(count as int),
                    left as nat,
                ),
            invariant
                count <= rest.len(),
                l == views(rest@),
                left <= room <= TLV_MAX_LEN,
            ensures
                fill_count::<E>(l, room as nat) == count,
            decreases rest.len() - count,
        {
            assert(l.skip(count as int)[0] == rest[count as int]@);
            let entry_len = rest[count].capped_len(left + 1);
            if entry_len > left {
                break ;
            }
            assert(l.skip(count as int).skip(1) =~= l.skip(count + 1));
            left = left - entry_len;
            count = count + 1;
        }
        if count == 0 {
            count = 1;
        }
        assert(count == first_count::<E>(l));
        let ghost list = rest@;
        let tail = rest.split_off(count);
        r.push(EntriesTlv { list: rest });
        proof {
            assert(list.take(count as int) =~= list.subrange(0, count as int));
            assert(views(rest@) =~= l.take(count as int));
            assert(views(tail@) =~= l.skip(count as int));
            assert(views(r@) =~= before.push(l.take(count as int)));
            if count >= l.len() {
                assert(l.take(count as int) =~= l);
                assert(views(tail@) =~= Seq::empty());
                assert(before + seq![l] =~= views(r@) + split::<E>(views(tail@)));
            } else {
                assert(before + (seq![l.take(count as int)] + split::<E>(l.skip(count as int)))
                    =~= views(r@) + split::<E>(views(tail@)));
            }
        }
        rest = tail;
    }
    assert(views(r@) + split::<E>(views(rest@)) =~= views(r@));
    r
}

/// The lists of some TLVs.
pub open spec fn lists<E>(tlvs: Seq<EntriesTlv<E>>) -> Seq<Seq<E>> {
    Seq::new(tlvs.len(), |i: int| tlvs[i].list@)
}

proof fn lemma_flatten_views<E: View>(tlvs: Seq<EntriesTlv<E>>)
    ensures
        views(flatten(lists(tlvs))) == flatten(views(tlvs)),
    decreases tlvs.len(),
{
    if tlvs.len() == 0 {
        assert(views(flatten(lists(tlvs))) =~= flatten(views(tlvs)));
    } else {
        let tail = tlvs.skip(1);
        lemma_flatten_views(tail);
        assert(lists(tlvs).skip(1) =~= lists(tail));
        assert(views(tlvs).skip(1) =~= views(tail));
        assert(views(tlvs[0].list@ + flatten(lists(tail))) =~= views(tlvs[0].list@) + views(
            flatten(lists(tail)),
        ));
    }
}

/// All entries of some TLVs, in order.
pub(crate) fn all_entries<E: View>(tlvs: &Vec<EntriesTlv<E>>) -> (r: Vec<&E>)
    ensures
        r@.unref() == flatten(lists(tlvs@)),
        views(r@.unref()) == flatten(views(tlvs@)),
{
    proof {
        lemma_flatten_views(tlvs@);
    }
    let mut r: Vec<&E> = Vec::new();
    let ghost l = lists(tlvs@);
    let mut i: usize = 0;
    proof {
        assert(l.skip(0) =~= l);
        assert(r@.unref() + flatten(l) =~= flatten(l));
    }
    while i < tlvs.len()
        invariant
            i <= tlvs.len(),
            l == lists(tlvs@),
            r@.unref() + flatten(l.skip(i as int)) == flatten(l),
        decreases tlvs.len() - i,
    {
        let list = &tlvs[i].list;
        let ghost before = r@.unref();
        let ghost tail = flatten(l.skip(i + 1));
        let mut j: usize = 0;
        proof {
            assert(l.skip(i as int).skip(1) =~= l.skip(i + 1));
            assert(l.skip(i as int)[0] == list@);
            assert(list@.take(0) =~= Seq::empty());
            assert(before + list@.take(0) =~= before);
        }
        while j < list.len()
            invariant
                j <= list.len(),
                r@.unref() == before + list@.take(j as int),
            decreases list.len() - j,
        {
            let ghost prev = r@;
            r.push(&list[j]);
            proof {
                assert(r@.unref() =~= prev.unref().push(list@[j as int]));
                assert(list@.take(j + 1) =~= list@.take(j as int).push(list@[j as int]));
            }
            j = j + 1;
            assert(r@.unref() =~= before + list@.take(j as int));
        }
        proof {
            assert(list@.take(j as int) =~= list@);
            assert(r@.unref() + tail =~= before + (list@ + tail));
        }
        i = i + 1;
    }
    assert(r@.unref() + flatten(l.skip(i as int)) =~= r@.unref());
    r
}

/// The TLVs of a PDU, sorted by type.
pub trait TlvSet: Sized + View {
    /// The set with one more TLV.
    spec fn with(v: Self::V, pdu_type: PduType, tlv_type: u8, value: Seq<u8>) -> DecodeResult<
        Self::V,
    >;

    /// Adds a TLV, whose value is all that the buffer holds.
    fn add(&mut self, pdu_type: PduType, tlv_type: u8, tlv_len: u8, buf: &mut Bytes) -> (r:
        DecodeResult<()>)
        requires
            bytes_content(*old(buf)).len() == tlv_len,
        ensures
            match r {
                Ok(_) => Self::with(
                    old(self)@,
                    pdu_type,
                    tlv_type,
                    bytes_content(*old(buf)),
                ) == Ok::<Self::V, DecodeError>(final(self)@),
                Err(e) => Self::with(
                    old(self)@,
                    pdu_type,
                    tlv_type,
                    bytes_content(*old(buf)),
                ) == Err::<Self::V, DecodeError>(e),
            },
    ;
}

/// The set with all the TLVs that `s` is made of. An octet that is left over
/// is ignored.
#[verifier::opaque]
pub open spec fn tlvs_parse<S: TlvSet>(v: S::V, pdu_type: PduType, s: Seq<u8>) -> DecodeResult<S::V>
    decreases s.len(),
{
    if s.len() < TLV_HDR_SIZE {
        Ok(v)
    } else if s[1] > s.len() - 2 {
        Err(DecodeError::InvalidTlvLength(s[1]))
    } else {
        match S::with(v, pdu_type, s[0], s.subrange(2, 2 + s[1])) {
            Ok(w) => tlvs_parse::<S>(w, pdu_type, s.skip(2 + s[1])),
            Err(e) => Err(e),
        }
    }
}

/// What is left of `s` behind its last whole TLV.
pub open spec fn tlvs_rest(s: Seq<u8>) -> Seq<u8>
    decreases s.len(),
{
    if s.len() < TLV_HDR_SIZE || s[1] > s.len() - 2 {
        s
    } else {
        tlvs_rest(s.skip(2 + s[1]))
    }
}

/// What decoding the TLVs that `s` is made of leaves of it. A TLV that is
/// refused is taken off, and so is the header of one that is cut off.
#[verifier::opaque]
pub open spec fn tlvs_left<S: TlvSet>(v: S::V, pdu_type: PduType, s: Seq<u8>) -> Seq<u8>
    decreases s.len(),
{
    if s.len() < TLV_HDR_SIZE {
        s
    } else if s[1] > s.len() - 2 {
        s.skip(2)
    } else {
        match S::with(v, pdu_type, s[0], s.subrange(2, 2 + s[1])) {
            Ok(w) => tlvs_left::<S>(w, pdu_type, s.skip(2 + s[1])),
            Err(e) => s.skip(2 + s[1]),
        }
    }
}

/// Decodes top-level TLVs up to the end of the buffer.
pub(crate) fn decode_tlvs<S: TlvSet>(tlvs: &mut S, pdu_type: PduType, buf: &mut Bytes) -> (r:
    DecodeResult<()>)
    ensures
        match r {
            Ok(_) => tlvs_parse::<S>(old(tlvs)@, pdu_type, bytes_content(*old(buf))) == Ok::<
                S::V,
                DecodeError,
            >(final(tlvs)@),
            Err(e) => tlvs_parse::<S>(old(tlvs)@, pdu_type, bytes_content(*old(buf))) == Err::<
                S::V,
                DecodeError,
            >(e),
        },
        bytes_content(*final(buf)) == tlvs_left::<S>(
            old(tlvs)@,
            pdu_type,
            bytes_content(*old(buf)),
        ),
        r is Ok ==> bytes_content(*final(buf)) == tlvs_rest(bytes_content(*old(buf))),
{
    while buf.len() >= TLV_HDR_SIZE
        invariant
            tlvs_rest(bytes_content(*old(buf))) == tlvs_rest(bytes_content(*buf)),
            tlvs_left::<S>(old(tlvs)@, pdu_type, bytes_content(*old(buf))) == tlvs_left::<S>(
                tlvs@,
                pdu_type,
                bytes_content(*buf),
            ),
            tlvs_parse::<S>(old(tlvs)@, pdu_type, bytes_content(*old(buf))) == tlvs_parse::<S>(
                tlvs@,
                pdu_type,
                bytes_content(*buf),
            ),
        decreases bytes_content(*buf).len(),
    {
        let ghost s = bytes_content(*buf);
        reveal(tlvs_parse);
        reveal(tlvs_left);
        // Parse TLV type.
        let tlv_type = get_u8(buf);
        // Parse and validate TLV length.
        let tlv_len = get_u8(buf);
        assert(bytes_content(*buf) =~= s.skip(2));
        if tlv_len as usize > buf.len() {
            return Err(DecodeError::InvalidTlvLength(tlv_len));
        }
        // Parse TLV value.
        let mut buf_tlv = copy_to_bytes(buf, tlv_len as usize);
        proof {
            assert(bytes_content(buf_tlv) =~= s.subrange(2, 2 + s[1]));
            assert(bytes_content(*buf) =~= s.skip(2 + s[1]));
        }
        match tlvs.add(pdu_type, tlv_type, tlv_len, &mut buf_tlv) {
            Ok(_) => {},
            Err(e) => {
                return Err(e);
            },
        }
    }
    reveal(tlvs_parse);
    reveal(tlvs_left);
    Ok(())
}

/// TLVs that are decoded are used up: not even a header is left of them.
pub proof fn lemma_tlvs_used_up<S: TlvSet>(v: S::V, pdu_type: PduType, s: Seq<u8>)
    requires
        tlvs_parse::<S>(v, pdu_type, s) is Ok,
    ensures
        tlvs_left::<S>(v, pdu_type, s) == tlvs_rest(s),
        tlvs_rest(s).len() < TLV_HDR_SIZE,
    decreases s.len(),
{
    reveal(tlvs_parse);
    reveal(tlvs_left);
    if s.len() >= TLV_HDR_SIZE && s[1] <= s.len() - 2 {
        match S::with(v, pdu_type, s[0], s.subrange(2, 2 + s[1])) {
            Ok(w) => lemma_tlvs_used_up::<S>(w, pdu_type, s.skip(2 + s[1])),
            Err(e) => {},
        }
    }
}

/// One TLV at the start is added to the set.
pub proof fn lemma_tlvs_parse_one<S: TlvSet>(
    v: S::V,
    pdu_type: PduType,
    tlv_type: u8,
    value: Seq<u8>,
    rest: Seq<u8>,
)
    requires
        value.len() <= TLV_MAX_LEN,
    ensures
        tlvs_parse::<S>(v, pdu_type, tlv_wire(tlv_type, value) + rest) == (match S::with(
            v,
            pdu_type,
            tlv_type,
            value,
        ) {
            Ok(w) => tlvs_parse::<S>(w, pdu_type, rest),
            Err(e) => Err(e),
        }),
{
    reveal(tlvs_parse);
    let s = tlv_wire(tlv_type, value) + rest;
    assert(s.subrange(2, 2 + s[1]) =~= value);
    assert(s.skip(2 + s[1]) =~= rest);
}

/// A TLV that may be missing is read back: `put` tells the set with and
/// without it.
pub(crate) proof fn lemma_tlvs_parse_opt<S: TlvSet, T: Tlv>(
    pdu_type: PduType,
    tlv_type: TlvType,
    o: Option<T::V>,
    rest: Seq<u8>,
    put: spec_fn(Option<T::V>) -> S::V,
)
    requires
        o matches Some(t) ==> T::valid(t) && S::with(
            put(None),
            pdu_type,
            tlv_type.code(),
            T::value(t),
        ) == Ok::<S::V, DecodeError>(put(o)),
    ensures
        tlvs_parse::<S>(put(None), pdu_type, opt_wire::<T>(tlv_type, o) + rest) == tlvs_parse::<S>(
            put(o),
            pdu_type,
            rest,
        ),
{
    match o {
        Some(t) => {
            T::lemma_parse_value(t);
            lemma_tlvs_parse_one::<S>(put(None), pdu_type, tlv_type.code(), T::value(t), rest);
        },
        None => {
            assert(opt_wire::<T>(tlv_type, o) + rest =~= rest);
        },
    }
}

/// A group of TLVs is read back: `put` tells the set with a given list of
/// them.
pub(crate) proof fn lemma_tlvs_parse_group<S: TlvSet, T: Tlv>(
    pdu_type: PduType,
    tlv_type: TlvType,
    l: Seq<T::V>,
    rest: Seq<u8>,
    put: spec_fn(Seq<T::V>) -> S::V,
)
    requires
        forall|i: int| 0 <= i < l.len() ==> T::valid(#[trigger] l[i]),
        forall|a: Seq<T::V>, t: T::V|
            T::valid(t) ==> #[trigger] S::with(put(a), pdu_type, tlv_type.code(), T::value(t))
                == Ok::<S::V, DecodeError>(put(a.push(t))),
    ensures
        tlvs_parse::<S>(put(Seq::empty()), pdu_type, group_wire::<T>(tlv_type, l) + rest)
            == tlvs_parse::<S>(put(l), pdu_type, rest),
{
    assert(l.skip(0) =~= l);
    assert(l.take(0) =~= Seq::empty());
    lemma_tlvs_parse_from::<S, T>(pdu_type, tlv_type, l, 0, rest, put);
}

proof fn lemma_tlvs_parse_from<S: TlvSet, T: Tlv>(
    pdu_type: PduType,
    tlv_type: TlvType,
    l: Seq<T::V>,
    k: int,
    rest: Seq<u8>,
    put: spec_fn(Seq<T::V>) -> S::V,
)
    requires
        0 <= k <= l.len(),
        forall|i: int| 0 <= i < l.len() ==> T::valid(#[trigger] l[i]),
        forall|a: Seq<T::V>, t: T::V|
            T::valid(t) ==> #[trigger] S::with(put(a), pdu_type, tlv_type.code(), T::value(t))
                == Ok::<S::V, DecodeError>(put(a.push(t))),
    ensures
        tlvs_parse::<S>(put(l.take(k)), pdu_type, group_wire::<T>(tlv_type, l.skip(k)) + rest)
            == tlvs_parse::<S>(put(l), pdu_type, rest),
    decreases l.len() - k,
{
    reveal(group_wire);
    if k == l.len() {
        assert(l.take(k) =~= l);
        assert(group_wire::<T>(tlv_type, l.skip(k)) + rest =~= rest);
    } else {
        let value = T::value(l[k]);
        let tail = group_wire::<T>(tlv_type, l.skip(k + 1));
        T::lemma_parse_value(l[k]);
        assert(l.skip(k).skip(1) =~= l.skip(k + 1));
        assert(group_wire::<T>(tlv_type, l.skip(k)) + rest =~= tlv_wire(tlv_type.code(), value) + (
        tail + rest));
        lemma_tlvs_parse_one::<S>(put(l.take(k)), pdu_type, tlv_type.code(), value, tail + rest);
        assert(l.take(k).push(l[k]) =~= l.take(k + 1));
        lemma_tlvs_parse_from::<S, T>(pdu_type, tlv_type, l, k + 1, rest, put);
    }
}

/// Every valid TLV is read back.
pub(crate) proof fn lemma_parse_values<T: Tlv>()
    ensures
        forall|t: T::V| T::valid(t) ==> #[trigger] T::parse_value(T::value(t)) == Ok::<
            T::V,
            DecodeError,
        >(t),
{
    assert forall|t: T::V| T::valid(t) implies #[trigger] T::parse_value(T::value(t)) == Ok::<
        T::V,
        DecodeError,
    >(t) by {
        T::lemma_parse_value(t);
    }
}

/// The whole TLVs that `s` starts with, one after the other: a type, a length,
/// and as many octets.
pub open spec fn raw_tlvs(s: Seq<u8>) -> Seq<RawTlv>
    decreases s.len(),
{
    if s.len() < 2 || s.len() < 2 + s[1] {
        Seq::empty()
    } else {
        seq![RawTlv { tlv_type: s[0], length: s[1], value: s.subrange(2, 2 + s[1]) }] + raw_tlvs(
            s.skip(2 + s[1]),
        )
    }
}

/// Whether `s` is made of whole TLVs, but for a single octet at the end.
pub open spec fn whole_tlvs(s: Seq<u8>) -> bool
    decreases s.len(),
{
    if s.len() < 2 {
        true
    } else {
        s.len() >= 2 + s[1] && whole_tlvs(s.skip(2 + s[1]))
    }
}

/// The values of the TLVs of one type, in order of appearance.
pub open spec fn values_of(l: Seq<RawTlv>, tlv_type: u8) -> Seq<Seq<u8>>
    decreases l.len(),
{
    if l.len() == 0 {
        Seq::empty()
    } else if l[0].tlv_type == tlv_type {
        seq![l[0].value] + values_of(l.skip(1), tlv_type)
    } else {
        values_of(l.skip(1), tlv_type)
    }
}

/// The TLVs of all but the given types, in order of appearance.
pub open spec fn others_of(l: Seq<RawTlv>, types: Set<u8>) -> Seq<RawTlv>
    decreases l.len(),
{
    if l.len() == 0 {
        Seq::empty()
    } else if types.contains(l[0].tlv_type) {
        others_of(l.skip(1), types)
    } else {
        seq![l[0]] + others_of(l.skip(1), types)
    }
}

/// Whether the TLVs `l` are the ones that the values stand for, all of them and
/// in order.
pub open spec fn stand_for<T: Tlv>(l: Seq<T::V>, values: Seq<Seq<u8>>) -> bool {
    &&& l.len() == values.len()
    &&& forall|i: int|
        0 <= i < values.len() ==> T::parse_value(#[trigger] values[i]) == Ok::<T::V, DecodeError>(
            l[i],
        )
}

/// Whether the value stands for no TLV, for the given reason.
pub open spec fn refused<T: Tlv>(value: Seq<u8>, e: DecodeError) -> bool {
    T::parse_value(value) == Err::<T::V, DecodeError>(e)
}

/// One TLV more in front, for the one type that it has.
pub(crate) proof fn lemma_values_of(t: RawTlv, l: Seq<RawTlv>, tlv_type: u8)
    ensures
        values_of(seq![t] + l, tlv_type) == (if t.tlv_type == tlv_type {
            seq![t.value] + values_of(l, tlv_type)
        } else {
            values_of(l, tlv_type)
        }),
{
    assert((seq![t] + l).skip(1) =~= l);
}

pub(crate) proof fn lemma_others_of(t: RawTlv, l: Seq<RawTlv>, types: Set<u8>)
    ensures
        others_of(seq![t] + l, types) == (if types.contains(t.tlv_type) {
            others_of(l, types)
        } else {
            seq![t] + others_of(l, types)
        }),
{
    assert((seq![t] + l).skip(1) =~= l);
}

/// A group that grew by the TLVs of one type, told from before the first of them
/// and from behind it.
pub(crate) proof fn lemma_stand_for_step<T: Tlv>(
    before: Seq<T::V>,
    after: Seq<T::V>,
    value: Seq<u8>,
    values: Seq<Seq<u8>>,
)
    requires
        T::parse_value(value) is Ok,
        ({
            let l = before.push(T::parse_value(value).unwrap());
            &&& l.len() <= after.len()
            &&& after.take(l.len() as int) == l
            &&& stand_for::<T>(after.skip(l.len() as int), values)
        }),
    ensures
        before.len() <= after.len(),
        after.take(before.len() as int) == before,
        stand_for::<T>(after.skip(before.len() as int), seq![value] + values),
{
    let t = T::parse_value(value).unwrap();
    let l = before.push(t);
    let n = before.len() as int;
    let all = seq![value] + values;
    assert(after.take(n) =~= after.take(n + 1).take(n));
    assert(l.take(n) =~= before);
    assert(after[n] == after.take(n + 1)[n]);
    assert forall|i: int| 0 <= i < all.len() implies T::parse_value(#[trigger] all[i]) == Ok::<
        T::V,
        DecodeError,
    >(after.skip(n)[i]) by {
        if i > 0 {
            assert(all[i] == values[i - 1]);
            assert(after.skip(n)[i] == after.skip(n + 1)[i - 1]);
        }
    }
}

/// Whether a group grew from `before` to `after` by the TLVs that the values
/// stand for.
pub open spec fn grew<T: Tlv>(before: Seq<T::V>, after: Seq<T::V>, values: Seq<Seq<u8>>) -> bool {
    &&& before.len() <= after.len()
    &&& after.take(before.len() as int) == before
    &&& stand_for::<T>(after.skip(before.len() as int), values)
}

/// Without TLVs a group does not grow.
pub(crate) proof fn lemma_grew_not<T: Tlv>(l: Seq<T::V>)
    ensures
        grew::<T>(l, l, Seq::empty()),
{
    assert(l.take(l.len() as int) =~= l);
}

/// A group that was empty has grown to what it is.
pub(crate) proof fn lemma_grew_from_none<T: Tlv>(after: Seq<T::V>, values: Seq<Seq<u8>>)
    requires
        grew::<T>(Seq::empty(), after, values),
    ensures
        stand_for::<T>(after, values),
{
    assert(after.skip(0) =~= after);
}

/// TLVs are only accepted if they are whole.
pub proof fn lemma_accepted_whole<S: TlvSet>(v: S::V, pdu_type: PduType, s: Seq<u8>)
    requires
        tlvs_parse::<S>(v, pdu_type, s) is Ok,
    ensures
        whole_tlvs(s),
    decreases s.len(),
{
    reveal(tlvs_parse);
    if s.len() >= 2 && s[1] <= s.len() - 2 {
        let w = S::with(v, pdu_type, s[0], s.subrange(2, 2 + s[1])).unwrap();
        lemma_accepted_whole::<S>(w, pdu_type, s.skip(2 + s[1]));
    }
}

/// TLVs are decoded one after the other: what comes behind whole TLVs changes
/// nothing in them, and they leave it to be decoded as if it came alone.
pub proof fn lemma_tlvs_one_by_one<S: TlvSet>(
    v: S::V,
    pdu_type: PduType,
    s: Seq<u8>,
    rest: Seq<u8>,
)
    requires
        whole_tlvs(s),
        tlvs_rest(s).len() == 0,
    ensures
        tlvs_parse::<S>(v, pdu_type, s + rest) == (match tlvs_parse::<S>(v, pdu_type, s) {
            Ok(w) => tlvs_parse::<S>(w, pdu_type, rest),
            Err(e) => Err(e),
        }),
        raw_tlvs(s + rest) == raw_tlvs(s) + raw_tlvs(rest),
        whole_tlvs(s + rest) == whole_tlvs(rest),
    decreases s.len(),
{
    reveal(tlvs_parse);
    if s.len() < 2 {
        assert(s + rest =~= rest);
        assert(raw_tlvs(s) + raw_tlvs(rest) =~= raw_tlvs(rest));
    } else {
        let n = 2 + s[1];
        let t = s.skip(n);
        assert((s + rest).subrange(2, n) =~= s.subrange(2, n));
        assert((s + rest).skip(n) =~= t + rest);
        let head = seq![RawTlv { tlv_type: s[0], length: s[1], value: s.subrange(2, n) }];
        assert(head + (raw_tlvs(t) + raw_tlvs(rest)) =~= (head + raw_tlvs(t)) + raw_tlvs(rest));
        match S::with(v, pdu_type, s[0], s.subrange(2, n)) {
            Ok(w) => lemma_tlvs_one_by_one::<S>(w, pdu_type, t, rest),
            Err(e) => lemma_tlvs_one_by_one::<S>(v, pdu_type, t, rest),
        }
    }
}

/// Where decoding fails: at the first TLV that is cut off or refused, behind
/// whole TLVs that are accepted.
pub(crate) proof fn lemma_first_refused<S: TlvSet>(
    v: S::V,
    pdu_type: PduType,
    s: Seq<u8>,
    e: DecodeError,
) -> (n: int)
    requires
        tlvs_parse::<S>(v, pdu_type, s) == Err::<S::V, DecodeError>(e),
    ensures
        0 <= n <= s.len() - 2,
        whole_tlvs(s.take(n)),
        tlvs_rest(s.take(n)).len() == 0,
        tlvs_parse::<S>(v, pdu_type, s.take(n)) is Ok,
        ({
            let w = tlvs_parse::<S>(v, pdu_type, s.take(n)).unwrap();
            if s.len() - n < 2 + s[n + 1] {
                e == DecodeError::InvalidTlvLength(s[n + 1])
            } else {
                S::with(w, pdu_type, s[n], s.subrange(n + 2, n + 2 + s[n + 1])) == Err::<
                    S::V,
                    DecodeError,
                >(e)
            }
        }),
    decreases s.len(),
{
    reveal(tlvs_parse);
    let k = 2 + s[1];
    if s.len() >= k && S::with(v, pdu_type, s[0], s.subrange(2, k)) is Ok {
        let w = S::with(v, pdu_type, s[0], s.subrange(2, k)).unwrap();
        let rest = s.skip(k);
        let m = lemma_first_refused::<S>(w, pdu_type, rest, e);
        let n = k + m;
        let p = s.take(n);
        assert(p.subrange(2, k) =~= s.subrange(2, k));
        assert(p.skip(k) =~= rest.take(m));
        if rest.len() - m >= 2 + rest[m + 1] {
            assert(rest.subrange(m + 2, m + 2 + rest[m + 1]) =~= s.subrange(
                n + 2,
                n + 2 + s[n + 1],
            ));
        }
        n
    } else {
        assert(s.take(0).len() == 0);
        0
    }
}

/// A group grows by the first TLV if it has the type of the group, and then by
/// the others.
pub(crate) proof fn lemma_grew_step<T: Tlv>(
    before: Seq<T::V>,
    next: Seq<T::V>,
    after: Seq<T::V>,
    tlv_type: u8,
    t: RawTlv,
    rest: Seq<RawTlv>,
)
    requires
        t.tlv_type == tlv_type ==> T::parse_value(t.value) is Ok && next == before.push(
            T::parse_value(t.value).unwrap(),
        ),
        t.tlv_type != tlv_type ==> next == before,
        grew::<T>(next, after, values_of(rest, tlv_type)),
    ensures
        grew::<T>(before, after, values_of(seq![t] + rest, tlv_type)),
{
    lemma_values_of(t, rest, tlv_type);
    if t.tlv_type == tlv_type {
        lemma_stand_for_step::<T>(before, after, t.value, values_of(rest, tlv_type));
    }
}

/// Entries are read one after the other: what comes behind whole entries changes
/// nothing in them, and they leave it to be read as if it came alone. If an
/// entry is refused, so is the list, and where nothing is left there are no more
/// entries.
pub proof fn lemma_entries_one_by_one<E: TlvEntry>(s: Seq<u8>, rest: Seq<u8>, tlv_len: u8)
    ensures
        list_parse::<E>(seq![], tlv_len) == Ok::<Seq<E::V>, DecodeError>(seq![]),
        s.len() > 0 ==> match E::parse(s, tlv_len) {
            Ok((v, n)) => n <= s.len() && list_parse::<E>(s.take(n as int), tlv_len) == Ok::<
                Seq<E::V>,
                DecodeError,
            >(seq![v]),
            Err(e) => list_parse::<E>(s, tlv_len) == Err::<Seq<E::V>, DecodeError>(e),
        },
        list_parse::<E>(s, tlv_len) matches Ok(l) ==> list_parse::<E>(s + rest, tlv_len) == (
        match list_parse::<E>(rest, tlv_len) {
            Ok(m) => Ok::<Seq<E::V>, DecodeError>(l + m),
            Err(e) => Err(e),
        }),
    decreases s.len(),
{
    reveal_with_fuel(list_parse, 3);
    if s.len() > 0 && E::parse(s, tlv_len) is Ok {
        let (v, n) = E::parse(s, tlv_len).unwrap();
        E::lemma_parse_local(s, Seq::empty(), tlv_len);
        let one = s.take(n as int);
        assert(one + Seq::empty() =~= one);
        assert(one.skip(n as int) =~= Seq::empty());
        assert(seq![v] + Seq::<E::V>::empty() =~= seq![v]);
        if list_parse::<E>(s, tlv_len) is Ok {
            let tail = s.skip(n as int);
            lemma_entries_one_by_one::<E>(tail, rest, tlv_len);
            E::lemma_parse_local(s, tail + rest, tlv_len);
            assert(one + (tail + rest) =~= s + rest);
            assert((s + rest).skip(n as int) =~= tail + rest);
            let l = list_parse::<E>(tail, tlv_len).unwrap();
            if let Ok(m) = list_parse::<E>(rest, tlv_len) {
                assert(seq![v] + (l + m) =~= (seq![v] + l) + m);
            }
        }
    } else if s.len() == 0 {
        assert(s + rest =~= rest);
        if let Ok(m) = list_parse::<E>(rest, tlv_len) {
            assert(Seq::<E::V>::empty() + m =~= m);
        }
    }
}

/// The value of a TLV is its entries, behind the reserved octets, which may be
/// anything but have to be there. The length that entries are told is that of
/// the whole value.
pub proof fn lemma_value_entries<E: TlvEntry>(value: Seq<u8>, n: nat)
    requires
        E::reserved() == n,
        value.len() <= TLV_MAX_LEN,
    ensures
        value.len() < n ==> EntriesTlv::<E>::parse_value(value) == Err::<Seq<E::V>, DecodeError>(
            DecodeError::InvalidTlvLength(value.len() as u8),
        ),
        value.len() >= n ==> EntriesTlv::<E>::parse_value(value) == list_parse::<E>(
            value.skip(n as int),
            value.len() as u8,
        ),
{
}

/// A buffer size is two octets, no more and no less. Padding is as long as it
/// is, whatever it is made of, and is sent as zeros.
pub proof fn lemma_single_values(value: Seq<u8>, size: LspBufferSizeTlv, padding: PaddingTlv)
    requires
        value.len() <= TLV_MAX_LEN,
    ensures
        match LspBufferSizeTlv::parse_value(value) {
            Ok(t) => value.len() == 2 && t.size == 0x100 * value[0] + value[1],
            Err(e) => value.len() != 2 && e == DecodeError::InvalidTlvLength(value.len() as u8),
        },
        LspBufferSizeTlv::value(size).len() == 2,
        0x100 * LspBufferSizeTlv::value(size)[0] + LspBufferSizeTlv::value(size)[1] == size.size,
        PaddingTlv::parse_value(value) matches Ok(t) && t.length == value.len(),
        PaddingTlv::value(padding).len() == padding.length,
        forall|i: int|
            0 <= i < padding.length ==> #[trigger] PaddingTlv::value(padding)[i] == 0,
{
    lemma_be_fields(value, 0);
    if value.len() == 2 {
        assert(value.subrange(0, 2) =~= value);
    }
    lemma_be_bytes_2(size.size);
}

/// How a list of entries stands on the wire: the entries one after the other,
/// behind zeros where octets are reserved.
pub proof fn lemma_value_wire<E: TlvEntry>(l: Seq<E::V>, v: E::V, n: nat)
    requires
        E::reserved() == n,
    ensures
        EntriesTlv::<E>::value(seq![]) == Seq::new(n, |i: int| 0u8),
        EntriesTlv::<E>::value(l.push(v)) == EntriesTlv::<E>::value(l) + E::wire(v),
{
    assert(EntriesTlv::<E>::value(seq![]) =~= Seq::new(n, |i: int| 0u8));
    lemma_list_wire_push::<E>(l, v);
    assert(zeros(n) + (list_wire::<E>(l) + E::wire(v)) =~= (zeros(n) + list_wire::<E>(l)) + E::wire(
        v,
    ));
}

proof fn lemma_list_wire_push<E: TlvEntry>(l: Seq<E::V>, v: E::V)
    ensures
        list_wire::<E>(l.push(v)) == list_wire::<E>(l) + E::wire(v),
    decreases l.len(),
{
    if l.len() == 0 {
        reveal_with_fuel(list_wire, 2);
        assert(l.push(v).skip(1) =~= Seq::empty());
        assert(E::wire(v) + Seq::<u8>::empty() =~= Seq::<u8>::empty() + E::wire(v));
    } else {
        lemma_list_wire_push::<E>(l.skip(1), v);
        assert(l.push(v).skip(1) =~= l.skip(1).push(v));
        assert(E::wire(l[0]) + (list_wire::<E>(l.skip(1)) + E::wire(v)) =~= (E::wire(l[0])
            + list_wire::<E>(l.skip(1))) + E::wire(v));
    }
}

/// Entries are split so that each TLV takes as many as fit: the first entry of the
/// next TLV would not have fit in it any more. An entry that fits in no TLV has
/// one to itself.
pub proof fn lemma_split_full<E: TlvEntry>(l: Seq<E::V>, i: int)
    requires
        E::reserved() <= TLV_MAX_LEN,
        0 <= i < split::<E>(l).len(),
    ensures
        i + 1 < split::<E>(l).len() ==> split::<E>(l)[i + 1].len() > 0 && value_wire::<E>(
            split::<E>(l)[i].push(split::<E>(l)[i + 1][0]),
        ).len() > TLV_MAX_LEN,
        value_wire::<E>(split::<E>(l)[i]).len() <= TLV_MAX_LEN || split::<E>(l)[i].len() == 1,
    decreases l.len(),
{
    let room = (TLV_MAX_LEN - E::reserved()) as nat;
    let k = first_count::<E>(l) as int;
    let filled = fill_count::<E>(l, room) as int;
    lemma_fill_count::<E>(l, room);
    lemma_split::<E>(l);
    if l.len() > 0 {
        if k >= l.len() {
            if filled > 0 {
                assert(l.take(filled) =~= l);
            }
        } else {
            let rest = l.skip(k);
            let tail = split::<E>(rest);
            lemma_split::<E>(rest);
            if i > 0 {
                lemma_split_full::<E>(rest, i - 1);
                assert(split::<E>(l)[i] == tail[i - 1]);
                if i + 1 < split::<E>(l).len() {
                    assert(split::<E>(l)[i + 1] == tail[i]);
                }
            } else {
                assert(split::<E>(l)[0] == l.take(k));
                if split::<E>(l).len() > 1 {
                    assert(split::<E>(l)[1] == tail[0]);
                    assert(tail[0][0] == rest[0]) by {
                        let j = first_count::<E>(rest) as int;
                        if j < rest.len() {
                            assert(tail[0] == rest.take(j));
                        }
                    }
                    lemma_fill_border::<E>(l, room);
                    lemma_list_wire_push::<E>(l.take(k), l[k]);
                    if filled == 0 {
                        lemma_list_wire_push::<E>(Seq::empty(), l[0]);
                        assert(l.take(1) =~= Seq::empty().push(l[0]));
                    }
                }
            }
        }
    }
}

proof fn lemma_fill_border<E: TlvEntry>(l: Seq<E::V>, room: nat)
    ensures
        ({
            let k = fill_count::<E>(l, room) as int;
            k < l.len() ==> list_wire::<E>(l.take(k)).len() + E::wire(l[k]).len() > room
        }),
    decreases l.len(),
{
    let k = fill_count::<E>(l, room) as int;
    if k > 0 {
        let rest = (room - E::wire(l[0]).len()) as nat;
        lemma_fill_border::<E>(l.skip(1), rest);
        lemma_fill_count::<E>(l, room);
        assert(l.take(k).skip(1) =~= l.skip(1).take(k - 1));
    }
}

/// The entries of some lists are those of the first ones and those of the last
/// one.
pub proof fn lemma_flatten<A>(l: Seq<Seq<A>>, last: Seq<A>)
    ensures
        flatten(Seq::<Seq<A>>::empty()) == Seq::<A>::empty(),
        flatten(l.push(last)) == flatten(l) + last,
    decreases l.len(),
{
    if l.len() == 0 {
        reveal_with_fuel(flatten, 2);
        assert(l.push(last).skip(1) =~= Seq::empty());
        assert(flatten(l.push(last)) =~= flatten(l) + last);
    } else {
        lemma_flatten(l.skip(1), last);
        assert(l.push(last).skip(1) =~= l.skip(1).push(last));
        assert(l[0] + (flatten(l.skip(1)) + last) =~= (l[0] + flatten(l.skip(1))) + last);
    }
}

/// A list of entries stands for what its entries stand for, one by one, and an
/// unknown TLV for all it holds.
pub proof fn lemma_tlv_views<E: View>(tlv: EntriesTlv<E>, unknown: UnknownTlv)
    ensures
        tlv@.len() == tlv.list@.len(),
        forall|i: int| 0 <= i < tlv.list@.len() ==> #[trigger] tlv@[i] == tlv.list@[i]@,
        unknown@.tlv_type == unknown.tlv_type,
        unknown@.length == unknown.length,
        unknown@.value == bytes_content(unknown.value),
{
}

/// An unknown TLV keeps its type, its length and its value.
pub proof fn lemma_new_unknown(tlv_type: u8, length: u8, value: Bytes, r: UnknownTlv)
    requires
        call_ensures(UnknownTlv::new, (tlv_type, length, value), r),
    ensures
        r.tlv_type == tlv_type,
        r.length == length,
        bytes_content(r.value) == bytes_content(value),
{
    assert(r@.tlv_type == r.tlv_type && r@.length == r.length);
    assert(r@.value == bytes_content(r.value));
}

/// Lists are taken one by one: those of some TLVs, and what some values stand for.
pub proof fn lemma_lists_and_views<E: View>(tlvs: Seq<EntriesTlv<E>>, l: Seq<E>, i: int)
    ensures
        lists(tlvs).len() == tlvs.len(),
        0 <= i < tlvs.len() ==> lists(tlvs)[i] == tlvs[i].list@,
        views(l).len() == l.len(),
        0 <= i < l.len() ==> views(l)[i] == l[i]@,
{
}

} // verus!
