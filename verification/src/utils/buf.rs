//! Byte buffers, with extension methods for the integers and addresses that
//! routing protocols put on the wire.

use bytes::{Buf, BufMut, Bytes, BytesMut};
use vstd::prelude::*;

use crate::utils::be::{
    be_bytes, be_uint, lemma_be_bytes_len, lemma_be_bytes_of_uint, lemma_be_fields,
    lemma_be_uint_of_bytes, lemma_pow256_values, pow256,
};
use crate::utils::net::{IpAddr, Ipv4Addr, Ipv6Addr};

verus! {

#[verifier::external_type_specification]
#[verifier::external_body]
pub struct ExBytes(Bytes);

#[verifier::external_type_specification]
#[verifier::external_body]
pub struct ExBytesMut(BytesMut);

/// The octets that a `Bytes` still holds, from its current position on.
pub uninterp spec fn bytes_content(b: Bytes) -> Seq<u8>;

/// The octets that a `BytesMut` holds.
pub uninterp spec fn bytes_mut_content(b: BytesMut) -> Seq<u8>;

/// A read that asked for more octets than were left.
#[derive(Clone, Copy, Debug, PartialEq, Eq, Structural)]
pub struct TryGetError {
    pub requested: usize,
    pub available: usize,
}

/// `Bytes::len` counts the octets that are left.
pub assume_specification[ Bytes::len ](b: &Bytes) -> (n: usize)
    ensures
        n == bytes_content(*b).len(),
;

/// `Bytes::new` holds nothing.
pub assume_specification[ Bytes::new ]() -> (b: Bytes)
    ensures
        bytes_content(b) == Seq::<u8>::empty(),
;

/// `BytesMut::len` counts the octets.
pub assume_specification[ BytesMut::len ](b: &BytesMut) -> (n: usize)
    ensures
        n == bytes_mut_content(*b).len(),
;

/// `BytesMut::new` holds nothing.
pub assume_specification[ BytesMut::new ]() -> (b: BytesMut)
    ensures
        bytes_mut_content(b) == Seq::<u8>::empty(),
;

/// `BytesMut::freeze` hands over the octets unchanged.
pub assume_specification[ BytesMut::freeze ](b: BytesMut) -> (r: Bytes)
    ensures
        bytes_content(r) == bytes_mut_content(b),
;

/// `Bytes::clone` gives a second handle on the same octets.
pub assume_specification[ <Bytes as Clone>::clone ](b: &Bytes) -> (r: Bytes)
    ensures
        bytes_content(r) == bytes_content(*b),
;

/// `Bytes::as_ref` shows the octets that are left.
#[verifier::external_body]
pub(crate) fn bytes_as_slice(buf: &Bytes) -> (r: &[u8])
    ensures
        r@ == bytes_content(*buf),
{
    buf.as_ref()
}

/// `Buf::get_u8` takes the first octet off; it panics where none is left.
#[verifier::external_body]
pub(crate) fn get_u8(buf: &mut Bytes) -> (n: u8)
    requires
        bytes_content(*old(buf)).len() >= 1,
    ensures
        n == bytes_content(*old(buf))[0],
        bytes_content(*final(buf)) == bytes_content(*old(buf)).skip(1),
{
    buf.get_u8()
}

/// `Buf::get_u16` takes a big-endian number of 2 octets off; it panics where
/// fewer are left.
#[verifier::external_body]
pub(crate) fn get_u16(buf: &mut Bytes) -> (n: u16)
    requires
        bytes_content(*old(buf)).len() >= 2,
    ensures
        n == be_uint(bytes_content(*old(buf)).take(2)),
        bytes_content(*final(buf)) == bytes_content(*old(buf)).skip(2),
{
    buf.get_u16()
}

/// `Buf::get_u32` takes a big-endian number of 4 octets off; it panics where
/// fewer are left.
#[verifier::external_body]
pub(crate) fn get_u32(buf: &mut Bytes) -> (n: u32)
    requires
        bytes_content(*old(buf)).len() >= 4,
    ensures
        n == be_uint(bytes_content(*old(buf)).take(4)),
        bytes_content(*final(buf)) == bytes_content(*old(buf)).skip(4),
{
    buf.get_u32()
}

/// `Buf::copy_to_bytes` takes `len` octets off, as a buffer of their own; it
/// panics where fewer are left.
#[verifier::external_body]
pub(crate) fn copy_to_bytes(buf: &mut Bytes, len: usize) -> (r: Bytes)
    requires
        bytes_content(*old(buf)).len() >= len,
    ensures
        bytes_content(r) == bytes_content(*old(buf)).take(len as int),
        bytes_content(*final(buf)) == bytes_content(*old(buf)).skip(len as int),
{
    buf.copy_to_bytes(len)
}

/// What a read of `k` octets gives and leaves: all of them, big-endian, or an
/// error with the buffer as it was.
pub open spec fn read_be(before: Seq<u8>, k: nat, r: Result<nat, TryGetError>, after: Seq<u8>) -> bool {
    if before.len() >= k {
        r == Ok::<nat, TryGetError>(be_uint(before.take(k as int))) && after == before.skip(k as int)
    } else {
        r == Err::<nat, TryGetError>(
            TryGetError { requested: k as usize, available: before.len() as usize },
        ) && after == before
    }
}

/// `Buf::try_get_u32` takes a big-endian number of 4 octets off, or fails and
/// leaves the buffer as it was where fewer are left.
#[verifier::external_body]
fn try_get_u32(buf: &mut Bytes) -> (r: Result<u32, TryGetError>)
    ensures
        read_be(
            bytes_content(*old(buf)),
            4,
            match r {
                Ok(n) => Ok(n as nat),
                Err(e) => Err(e),
            },
            bytes_content(*final(buf)),
        ),
{
    match buf.try_get_u32() {
        Ok(n) => Ok(n),
        Err(e) => Err(TryGetError { requested: e.requested, available: e.available }),
    }
}

/// `Buf::try_get_u128` takes a big-endian number of 16 octets off, or fails
/// and leaves the buffer as it was where fewer are left.
#[verifier::external_body]
fn try_get_u128(buf: &mut Bytes) -> (r: Result<u128, TryGetError>)
    ensures
        read_be(
            bytes_content(*old(buf)),
            16,
            match r {
                Ok(n) => Ok(n as nat),
                Err(e) => Err(e),
            },
            bytes_content(*final(buf)),
        ),
{
    match buf.try_get_u128() {
        Ok(n) => Ok(n),
        Err(e) => Err(TryGetError { requested: e.requested, available: e.available }),
    }
}

/// `Buf::try_copy_to_slice` takes three octets off, or fails and leaves the
/// buffer as it was where fewer are left.
#[verifier::external_body]
fn try_copy_3(buf: &mut Bytes) -> (r: Result<[u8; 3], TryGetError>)
    ensures
        match r {
            Ok(a) => bytes_content(*old(buf)).len() >= 3 && a@ == bytes_content(*old(buf)).take(3)
                && bytes_content(*final(buf)) == bytes_content(*old(buf)).skip(3),
            Err(e) => bytes_content(*old(buf)).len() < 3 && e == (TryGetError {
                requested: 3,
                available: bytes_content(*old(buf)).len() as usize,
            }) && bytes_content(*final(buf)) == bytes_content(*old(buf)),
        },
{
    let mut a = [0; 3];
    match buf.try_copy_to_slice(&mut a) {
        Ok(()) => Ok(a),
        Err(e) => Err(TryGetError { requested: e.requested, available: e.available }),
    }
}

/// `BufMut::put_u8` appends one octet; a buffer holds at most `isize::MAX`.
#[verifier::external_body]
pub(crate) fn put_u8(buf: &mut BytesMut, n: u8)
    requires
        bytes_mut_content(*old(buf)).len() + 1 <= isize::MAX,
    ensures
        bytes_mut_content(*final(buf)) == bytes_mut_content(*old(buf)).push(n),
{
    buf.put_u8(n)
}

/// `BufMut::put_u16` appends 2 octets, big-endian; a buffer holds at most
/// `isize::MAX`.
#[verifier::external_body]
pub(crate) fn put_u16(buf: &mut BytesMut, n: u16)
    requires
        bytes_mut_content(*old(buf)).len() + 2 <= isize::MAX,
    ensures
        bytes_mut_content(*final(buf)) == bytes_mut_content(*old(buf)) + be_bytes(n as nat, 2),
{
    buf.put_u16(n)
}

/// `BufMut::put_u32` appends 4 octets, big-endian; a buffer holds at most
/// `isize::MAX`.
#[verifier::external_body]
pub(crate) fn put_u32(buf: &mut BytesMut, n: u32)
    requires
        bytes_mut_content(*old(buf)).len() + 4 <= isize::MAX,
    ensures
        bytes_mut_content(*final(buf)) == bytes_mut_content(*old(buf)) + be_bytes(n as nat, 4),
{
    buf.put_u32(n)
}

/// `BufMut::put_slice` appends the octets of a slice; a buffer holds at most
/// `isize::MAX`.
#[verifier::external_body]
pub(crate) fn put_slice(buf: &mut BytesMut, s: &[u8])
    requires
        bytes_mut_content(*old(buf)).len() + s@.len() <= isize::MAX,
    ensures
        bytes_mut_content(*final(buf)) == bytes_mut_content(*old(buf)) + s@,
{
    buf.put_slice(s)
}

/// `BytesMut::deref_mut` gives the octets as a slice, whose element `i` is
/// then overwritten.
#[verifier::external_body]
pub(crate) fn set_octet(buf: &mut BytesMut, i: usize, n: u8)
    requires
        i < bytes_mut_content(*old(buf)).len(),
    ensures
        bytes_mut_content(*final(buf)) == bytes_mut_content(*old(buf)).update(i as int, n),
{
    buf[i] = n
}

/// `BytesMut::deref` shows the octets.
#[verifier::external_body]
pub(crate) fn bytes_mut_as_slice(buf: &BytesMut) -> (r: &[u8])
    ensures
        r@ == bytes_mut_content(*buf),
{
    buf
}

/// `BytesMut::from` copies the octets of a slice.
#[verifier::external_body]
pub(crate) fn bytes_mut_from(s: &[u8]) -> (r: BytesMut)
    ensures
        bytes_mut_content(r) == s@,
{
    BytesMut::from(s)
}

/// Extension methods for `Bytes`.
pub trait BytesExt {
    /// The octets that are left to read.
    spec fn unread(&self) -> Seq<u8>;

    /// Gets an unsigned 24 bit integer from `self` in the big-endian byte
    /// order. The current position is advanced by 3.
    fn get_u24(&mut self) -> (n: u32)
        requires
            old(self).unread().len() >= 3,
        ensures
            n == be_uint(old(self).unread().take(3)),
            final(self).unread() == old(self).unread().skip(3),
    ;

    /// Gets an unsigned 24 bit integer from `self` in the big-endian byte
    /// order. The current position is advanced by 3. Fails when there are not
    /// enough remaining octets to read the value.
    fn try_get_u24(&mut self) -> (r: Result<u32, TryGetError>)
        ensures
            read_be(
                old(self).unread(),
                3,
                match r {
                    Ok(n) => Ok(n as nat),
                    Err(e) => Err(e),
                },
                final(self).unread(),
            ),
    ;

    /// Gets an IPv4 addr from `self` in big-endian byte order. The current
    /// position is advanced by 4.
    fn get_ipv4(&mut self) -> (a: Ipv4Addr)
        requires
            old(self).unread().len() >= 4,
        ensures
            a.bits == be_uint(old(self).unread().take(4)),
            final(self).unread() == old(self).unread().skip(4),
    ;

    /// Gets an IPv4 addr from `self` in big-endian byte order. The current
    /// position is advanced by 4. Fails when there are not enough remaining
    /// octets to read the value.
    fn try_get_ipv4(&mut self) -> (r: Result<Ipv4Addr, TryGetError>)
        ensures
            read_be(
                old(self).unread(),
                4,
                match r {
                    Ok(a) => Ok(a.bits as nat),
                    Err(e) => Err(e),
                },
                final(self).unread(),
            ),
    ;

    /// Gets an optional IPv4 addr from `self` in big-endian byte order: the
    /// unspecified address stands for none. The current position is advanced
    /// by 4.
    fn get_opt_ipv4(&mut self) -> (r: Option<Ipv4Addr>)
        requires
            old(self).unread().len() >= 4,
        ensures
            be_uint(old(self).unread().take(4)) == (match r {
                Some(a) => a.bits as nat,
                None => 0,
            }),
            r matches Some(a) ==> a.bits != 0,
            final(self).unread() == old(self).unread().skip(4),
    ;

    /// Gets an optional IPv4 addr from `self` in big-endian byte order: the
    /// unspecified address stands for none. The current position is advanced
    /// by 4. Fails when there are not enough remaining octets to read the
    /// value.
    fn try_get_opt_ipv4(&mut self) -> (r: Result<Option<Ipv4Addr>, TryGetError>)
        ensures
            read_be(
                old(self).unread(),
                4,
                match r {
                    Ok(Some(a)) => Ok(a.bits as nat),
                    Ok(None) => Ok(0),
                    Err(e) => Err(e),
                },
                final(self).unread(),
            ),
            r matches Ok(Some(a)) ==> a.bits != 0,
    ;

    /// Gets an IPv6 addr from `self` in big-endian byte order. The current
    /// position is advanced by 16.
    fn get_ipv6(&mut self) -> (a: Ipv6Addr)
        requires
            old(self).unread().len() >= 16,
        ensures
            a.bits == be_uint(old(self).unread().take(16)),
            final(self).unread() == old(self).unread().skip(16),
    ;

    /// Gets an IPv6 addr from `self` in big-endian byte order. The current
    /// position is advanced by 16. Fails when there are not enough remaining
    /// octets to read the value.
    fn try_get_ipv6(&mut self) -> (r: Result<Ipv6Addr, TryGetError>)
        ensures
            read_be(
                old(self).unread(),
                16,
                match r {
                    Ok(a) => Ok(a.bits as nat),
                    Err(e) => Err(e),
                },
                final(self).unread(),
            ),
    ;

    /// Gets an optional IPv6 addr from `self` in big-endian byte order: the
    /// unspecified address stands for none. The current position is advanced
    /// by 16.
    fn get_opt_ipv6(&mut self) -> (r: Option<Ipv6Addr>)
        requires
            old(self).unread().len() >= 16,
        ensures
            be_uint(old(self).unread().take(16)) == (match r {
                Some(a) => a.bits as nat,
                None => 0,
            }),
            r matches Some(a) ==> a.bits != 0,
            final(self).unread() == old(self).unread().skip(16),
    ;

    /// Gets an optional IPv6 addr from `self` in big-endian byte order: the
    /// unspecified address stands for none. The current position is advanced
    /// by 16. Fails when there are not enough remaining octets to read the
    /// value.
    fn try_get_opt_ipv6(&mut self) -> (r: Result<Option<Ipv6Addr>, TryGetError>)
        ensures
            read_be(
                old(self).unread(),
                16,
                match r {
                    Ok(Some(a)) => Ok(a.bits as nat),
                    Ok(None) => Ok(0),
                    Err(e) => Err(e),
                },
                final(self).unread(),
            ),
            r matches Ok(Some(a)) ==> a.bits != 0,
    ;
}

/// Extension methods for `BytesMut`. A buffer holds at most `isize::MAX`
/// octets.
pub trait BytesMutExt {
    /// The octets written so far.
    spec fn written(&self) -> Seq<u8>;

    /// Writes an unsigned 24 bit integer to `self` in big-endian byte order:
    /// the three least significant octets of `n`.
    fn put_u24(&mut self, n: u32)
        requires
            old(self).written().len() + 3 <= isize::MAX,
        ensures
            final(self).written() == old(self).written() + be_bytes(n as nat, 3),
    ;

    /// Writes an IP addr to `self` in big-endian byte order: 4 or 16 octets.
    fn put_ip(&mut self, addr: &IpAddr)
        requires
            old(self).written().len() + (match *addr {
                IpAddr::V4(_) => 4int,
                IpAddr::V6(_) => 16int,
            }) <= isize::MAX,
        ensures
            final(self).written() == old(self).written() + (match *addr {
                IpAddr::V4(a) => be_bytes(a.bits as nat, 4),
                IpAddr::V6(a) => be_bytes(a.bits as nat, 16),
            }),
    ;

    /// Writes an IPv4 addr to `self` in big-endian byte order: 4 octets.
    fn put_ipv4(&mut self, addr: &Ipv4Addr)
        requires
            old(self).written().len() + 4 <= isize::MAX,
        ensures
            final(self).written() == old(self).written() + be_bytes(addr.bits as nat, 4),
    ;

    /// Writes an IPv6 addr to `self` in big-endian byte order: 16 octets.
    fn put_ipv6(&mut self, addr: &Ipv6Addr)
        requires
            old(self).written().len() + 16 <= isize::MAX,
        ensures
            final(self).written() == old(self).written() + be_bytes(addr.bits as nat, 16),
    ;
}

impl BytesExt for Bytes {
    open spec fn unread(&self) -> Seq<u8> {
        bytes_content(*self)
    }

    fn get_u24(&mut self) -> (n: u32) {
        match self.try_get_u24() {
            Ok(n) => n,
            Err(_) => 0,
        }
    }

    fn try_get_u24(&mut self) -> (r: Result<u32, TryGetError>) {
        let ghost before = self.unread();
        match try_copy_3(self) {
            Ok(a) => {
                let n: u32 = a[0] as u32 * 0x1_0000 + a[1] as u32 * 0x100 + a[2] as u32;
                proof {
                    reveal_with_fuel(be_uint, 4);
                    assert(a@.drop_last().drop_last()[0] == a@[0]);
                    assert(n == be_uint(before.take(3)));
                }
                Ok(n)
            },
            Err(e) => Err(e),
        }
    }

    fn get_ipv4(&mut self) -> (a: Ipv4Addr) {
        match self.try_get_ipv4() {
            Ok(a) => a,
            Err(_) => Ipv4Addr { bits: 0 },
        }
    }

    fn try_get_ipv4(&mut self) -> (r: Result<Ipv4Addr, TryGetError>) {
        assert(self.unread() == bytes_content(*self));
        match try_get_u32(self) {
            Ok(bits) => Ok(Ipv4Addr::from_bits(bits)),
            Err(e) => Err(e),
        }
    }

    fn get_opt_ipv4(&mut self) -> (r: Option<Ipv4Addr>) {
        match self.try_get_opt_ipv4() {
            Ok(r) => r,
            Err(_) => None,
        }
    }

    fn try_get_opt_ipv4(&mut self) -> (r: Result<Option<Ipv4Addr>, TryGetError>) {
        assert(self.unread() == bytes_content(*self));
        match try_get_u32(self) {
            Ok(bits) => {
                let addr = Ipv4Addr::from_bits(bits);
                if !addr.is_unspecified() {
                    Ok(Some(addr))
                } else {
                    Ok(None)
                }
            },
            Err(e) => Err(e),
        }
    }

    fn get_ipv6(&mut self) -> (a: Ipv6Addr) {
        match self.try_get_ipv6() {
            Ok(a) => a,
            Err(_) => Ipv6Addr { bits: 0 },
        }
    }

    fn try_get_ipv6(&mut self) -> (r: Result<Ipv6Addr, TryGetError>) {
        assert(self.unread() == bytes_content(*self));
        match try_get_u128(self) {
            Ok(bits) => Ok(Ipv6Addr::from_bits(bits)),
            Err(e) => Err(e),
        }
    }

    fn get_opt_ipv6(&mut self) -> (r: Option<Ipv6Addr>) {
        match self.try_get_opt_ipv6() {
            Ok(r) => r,
            Err(_) => None,
        }
    }

    fn try_get_opt_ipv6(&mut self) -> (r: Result<Option<Ipv6Addr>, TryGetError>) {
        assert(self.unread() == bytes_content(*self));
        match try_get_u128(self) {
            Ok(bits) => {
                let addr = Ipv6Addr::from_bits(bits);
                if !addr.is_unspecified() {
                    Ok(Some(addr))
                } else {
                    Ok(None)
                }
            },
            Err(e) => Err(e),
        }
    }
}

impl BytesMutExt for BytesMut {
    open spec fn written(&self) -> Seq<u8> {
        bytes_mut_content(*self)
    }

    fn put_u24(&mut self, n: u32) {
        let a = [(n / 0x1_0000 % 0x100) as u8, (n / 0x100 % 0x100) as u8, (n % 0x100) as u8];
        proof {
            reveal_with_fuel(be_bytes, 4);
            assert(a@ =~= be_bytes(n as nat, 3));
            assert(self.written() == bytes_mut_content(*self));
        }
        put_slice(self, &a);
    }

    fn put_ip(&mut self, addr: &IpAddr) {
        match addr {
            IpAddr::V4(addr) => self.put_ipv4(addr),
            IpAddr::V6(addr) => self.put_ipv6(addr),
        }
    }

    fn put_ipv4(&mut self, addr: &Ipv4Addr) {
        assert(self.written() == bytes_mut_content(*self));
        put_u32(self, addr.bits)
    }

    fn put_ipv6(&mut self, addr: &Ipv6Addr) {
        assert(self.written() == bytes_mut_content(*self));
        put_slice(self, &addr.octets())
    }
}

/// What is written is read back, and what follows it stays: a number of `k`
/// octets that holds an integer of 24 bits or an address.
pub proof fn lemma_read_be_written(n: nat, k: nat, rest: Seq<u8>)
    requires
        n < pow256(k),
    ensures
        read_be(be_bytes(n, k) + rest, k, Ok(n), rest),
{
    lemma_be_bytes_len(n, k);
    lemma_be_uint_of_bytes(n, k);
    assert((be_bytes(n, k) + rest).take(k as int) =~= be_bytes(n, k));
    assert((be_bytes(n, k) + rest).skip(k as int) =~= rest);
}

/// A number of three octets is read most significant octet first, if they are
/// there, and they are used up. If not, a read that may fail says how many it
/// needs and how many there are, and leaves the buffer as it is.
pub proof fn lemma_u24_read(a: Bytes, b: Bytes, n: u32, after: Bytes, r: Result<u32, TryGetError>)
    requires
        bytes_content(a).len() >= 3 ==> exists|x: &mut Bytes| #[trigger]
            call_ensures(<Bytes as BytesExt>::get_u24, (x,), n) && *x == a && *final(x) == b,
        exists|x: &mut Bytes| #[trigger]
            call_ensures(<Bytes as BytesExt>::try_get_u24, (x,), r) && *x == a && *final(x) == after,
    ensures
        ({
            let s = bytes_content(a);
            if s.len() >= 3 {
                &&& n == 0x1_0000 * s[0] + 0x100 * s[1] + s[2]
                &&& bytes_content(b) == s.skip(3)
                &&& r == Ok::<u32, TryGetError>(n)
                &&& bytes_content(after) == s.skip(3)
            } else {
                &&& r matches Err(e)
                &&& e.requested == 3
                &&& e.available == s.len() as usize
                &&& bytes_content(after) == s
            }
        }),
{
    let s = bytes_content(a);
    lemma_be_fields(s, 0);
    if s.len() >= 3 {
        assert(s.take(3) =~= s.subrange(0, 3));
    }
}

/// The same holds of IPv4 addresses, which are four octets, and of optional ones,
/// which are there unless all octets are zero.
pub proof fn lemma_ipv4_read(
    a: Bytes,
    b: Bytes,
    addr: Ipv4Addr,
    c: Bytes,
    opt: Option<Ipv4Addr>,
    d: Bytes,
    r: Result<Ipv4Addr, TryGetError>,
    e: Bytes,
    opt_r: Result<Option<Ipv4Addr>, TryGetError>,
)
    requires
        bytes_content(a).len() >= 4 ==> exists|x: &mut Bytes| #[trigger]
            call_ensures(<Bytes as BytesExt>::get_ipv4, (x,), addr) && *x == a && *final(x) == b,
        bytes_content(a).len() >= 4 ==> exists|x: &mut Bytes| #[trigger]
            call_ensures(<Bytes as BytesExt>::get_opt_ipv4, (x,), opt) && *x == a && *final(x) == c,
        exists|x: &mut Bytes| #[trigger]
            call_ensures(<Bytes as BytesExt>::try_get_ipv4, (x,), r) && *x == a && *final(x) == d,
        exists|x: &mut Bytes| #[trigger]
            call_ensures(<Bytes as BytesExt>::try_get_opt_ipv4, (x,), opt_r) && *x == a && *final(x)
                == e,
    ensures
        ({
            let s = bytes_content(a);
            if s.len() >= 4 {
                &&& addr.bits == 0x100_0000 * s[0] + 0x1_0000 * s[1] + 0x100 * s[2] + s[3]
                &&& bytes_content(b) == s.skip(4)
                &&& opt == (if addr.bits == 0 {
                    None
                } else {
                    Some(addr)
                })
                &&& bytes_content(c) == s.skip(4)
                &&& r == Ok::<Ipv4Addr, TryGetError>(addr)
                &&& bytes_content(d) == s.skip(4)
                &&& opt_r == Ok::<Option<Ipv4Addr>, TryGetError>(opt)
                &&& bytes_content(e) == s.skip(4)
            } else {
                let error = TryGetError { requested: 4, available: s.len() as usize };
                &&& r == Err::<Ipv4Addr, TryGetError>(error)
                &&& bytes_content(d) == s
                &&& opt_r == Err::<Option<Ipv4Addr>, TryGetError>(error)
                &&& bytes_content(e) == s
            }
        }),
{
    let s = bytes_content(a);
    lemma_be_fields(s, 0);
    if s.len() >= 4 {
        assert(s.take(4) =~= s.subrange(0, 4));
    }
}

/// The same holds of IPv6 addresses, which are sixteen octets.
pub proof fn lemma_ipv6_read(
    a: Bytes,
    b: Bytes,
    addr: Ipv6Addr,
    c: Bytes,
    opt: Option<Ipv6Addr>,
    d: Bytes,
    r: Result<Ipv6Addr, TryGetError>,
    e: Bytes,
    opt_r: Result<Option<Ipv6Addr>, TryGetError>,
)
    requires
        bytes_content(a).len() >= 16 ==> exists|x: &mut Bytes| #[trigger]
            call_ensures(<Bytes as BytesExt>::get_ipv6, (x,), addr) && *x == a && *final(x) == b,
        bytes_content(a).len() >= 16 ==> exists|x: &mut Bytes| #[trigger]
            call_ensures(<Bytes as BytesExt>::get_opt_ipv6, (x,), opt) && *x == a && *final(x) == c,
        exists|x: &mut Bytes| #[trigger]
            call_ensures(<Bytes as BytesExt>::try_get_ipv6, (x,), r) && *x == a && *final(x) == d,
        exists|x: &mut Bytes| #[trigger]
            call_ensures(<Bytes as BytesExt>::try_get_opt_ipv6, (x,), opt_r) && *x == a && *final(x)
                == e,
    ensures
        ({
            let s = bytes_content(a);
            if s.len() >= 16 {
                &&& be_bytes(addr.bits as nat, 16) == s.take(16)
                &&& bytes_content(b) == s.skip(16)
                &&& opt == (if addr.bits == 0 {
                    None
                } else {
                    Some(addr)
                })
                &&& bytes_content(c) == s.skip(16)
                &&& r == Ok::<Ipv6Addr, TryGetError>(addr)
                &&& bytes_content(d) == s.skip(16)
                &&& opt_r == Ok::<Option<Ipv6Addr>, TryGetError>(opt)
                &&& bytes_content(e) == s.skip(16)
            } else {
                let error = TryGetError { requested: 16, available: s.len() as usize };
                &&& r == Err::<Ipv6Addr, TryGetError>(error)
                &&& bytes_content(d) == s
                &&& opt_r == Err::<Option<Ipv6Addr>, TryGetError>(error)
                &&& bytes_content(e) == s
            }
        }),
{
    let s = bytes_content(a);
    if s.len() >= 16 {
        lemma_be_bytes_of_uint(s.take(16));
    }
}

/// Numbers and addresses are written behind what is there, most significant octet
/// first, and an address of either family as one of its own.
pub proof fn lemma_writes(
    a: BytesMut,
    n: u32,
    b: BytesMut,
    v4: Ipv4Addr,
    c: BytesMut,
    c_ip: BytesMut,
    v6: Ipv6Addr,
    d: BytesMut,
    d_ip: BytesMut,
)
    requires
        exists|x: &mut BytesMut| #[trigger]
            call_ensures(<BytesMut as BytesMutExt>::put_u24, (x, n), ()) && *x == a && *final(x)
                == b,
        exists|x: &mut BytesMut| #[trigger]
            call_ensures(<BytesMut as BytesMutExt>::put_ipv4, (x, &v4), ()) && *x == a && *final(x)
                == c,
        exists|x: &mut BytesMut| #[trigger]
            call_ensures(<BytesMut as BytesMutExt>::put_ip, (x, &IpAddr::V4(v4)), ()) && *x == a
                && *final(x) == c_ip,
        exists|x: &mut BytesMut| #[trigger]
            call_ensures(<BytesMut as BytesMutExt>::put_ipv6, (x, &v6), ()) && *x == a && *final(x)
                == d,
        exists|x: &mut BytesMut| #[trigger]
            call_ensures(<BytesMut as BytesMutExt>::put_ip, (x, &IpAddr::V6(v6)), ()) && *x == a
                && *final(x) == d_ip,
    ensures
        ({
            let s = bytes_mut_content(a);
            let k = s.len() as int;
            &&& bytes_mut_content(b).len() == k + 3
            &&& bytes_mut_content(b).take(k) == s
            &&& ({
                let t = bytes_mut_content(b);
                0x1_0000 * t[k] + 0x100 * t[k + 1] + t[k + 2] == n % 0x100_0000
            })
            &&& bytes_mut_content(c).len() == k + 4
            &&& bytes_mut_content(c).take(k) == s
            &&& ({
                let t = bytes_mut_content(c);
                0x100_0000 * t[k] + 0x1_0000 * t[k + 1] + 0x100 * t[k + 2] + t[k + 3] == v4.bits
            })
            &&& bytes_mut_content(c_ip) == bytes_mut_content(c)
            &&& bytes_mut_content(d).len() == k + 16
            &&& bytes_mut_content(d).take(k) == s
            &&& be_uint(bytes_mut_content(d).skip(k)) == v6.bits
            &&& bytes_mut_content(d_ip) == bytes_mut_content(d)
        }),
{
    let s = bytes_mut_content(a);
    let k = s.len() as int;
    lemma_be_bytes_len(n as nat, 3);
    lemma_be_bytes_len(v4.bits as nat, 4);
    lemma_be_bytes_len(v6.bits as nat, 16);
    lemma_pow256_values();
    lemma_be_uint_of_bytes(v6.bits as nat, 16);
    assert(bytes_mut_content(b).take(k) =~= s);
    assert(bytes_mut_content(c).take(k) =~= s);
    assert(bytes_mut_content(d).take(k) =~= s);
    assert(bytes_mut_content(d).skip(k) =~= be_bytes(v6.bits as nat, 16));
    assert(be_bytes(n as nat, 3) == seq![
        (n / 0x1_0000 % 0x100) as u8,
        (n / 0x100 % 0x100) as u8,
        (n % 0x100) as u8,
    ]) by {
        reveal_with_fuel(be_bytes, 4);
        assert(be_bytes(n as nat, 3) =~= seq![
            (n / 0x1_0000 % 0x100) as u8,
            (n / 0x100 % 0x100) as u8,
            (n % 0x100) as u8,
        ]);
    }
    assert(be_bytes(v4.bits as nat, 4) == seq![
        (v4.bits / 0x100_0000) as u8,
        (v4.bits / 0x1_0000 % 0x100) as u8,
        (v4.bits / 0x100 % 0x100) as u8,
        (v4.bits % 0x100) as u8,
    ]) by {
        reveal_with_fuel(be_bytes, 5);
        assert(be_bytes(v4.bits as nat, 4) =~= seq![
            (v4.bits / 0x100_0000) as u8,
            (v4.bits / 0x1_0000 % 0x100) as u8,
            (v4.bits / 0x100 % 0x100) as u8,
            (v4.bits % 0x100) as u8,
        ]);
    }
}

} // verus!
