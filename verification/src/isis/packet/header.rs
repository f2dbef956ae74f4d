//! The header that all PDUs share, and the length field behind it.

use bytes::{Bytes, BytesMut};
use vstd::prelude::*;

use crate::isis::packet::consts::{
    PduType, IDRP_DISCRIMINATOR, SYSTEM_ID_LEN, VERSION, VERSION_PROTO_EXT,
};
use crate::isis::packet::error::{DecodeError, DecodeResult};
use crate::utils::be::{be_bytes, lemma_be_bytes_2};
use crate::utils::buf::{bytes_content, bytes_mut_content, get_u8, put_u8, set_octet};

verus! {

/// Length of the common header.
pub const HEADER_LEN: u8 = 8;

/// Length of the fixed part of a LAN hello.
pub const HELLO_HEADER_LEN_LAN: u8 = 27;

/// Length of the fixed part of a point-to-point hello.
pub const HELLO_HEADER_LEN_P2P: u8 = 20;

/// Length of the fixed part of an LSP.
pub const LSP_HEADER_LEN: u8 = 27;

/// Length of the fixed part of a CSNP.
pub const CSNP_HEADER_LEN: u8 = 33;

/// Length of the fixed part of a PSNP.
pub const PSNP_HEADER_LEN: u8 = 17;

/// IS-IS PDU common header.
#[derive(Clone, Copy, Debug, PartialEq, Eq, Structural)]
pub struct Header {
    pub pdu_type: PduType,
    pub max_area_addrs: u8,
}

/// The length of the fixed header for a given PDU type.
pub open spec fn fixed_len(pdu_type: PduType) -> u8 {
    match pdu_type {
        PduType::HelloLanL1 | PduType::HelloLanL2 => HELLO_HEADER_LEN_LAN,
        PduType::HelloP2P => HELLO_HEADER_LEN_P2P,
        PduType::LspL1 | PduType::LspL2 => LSP_HEADER_LEN,
        PduType::CsnpL1 | PduType::CsnpL2 => CSNP_HEADER_LEN,
        PduType::PsnpL1 | PduType::PsnpL2 => PSNP_HEADER_LEN,
    }
}

/// How a header stands on the wire.
pub open spec fn header_wire(hdr: Header) -> Seq<u8> {
    seq![
        IDRP_DISCRIMINATOR,
        fixed_len(hdr.pdu_type),
        VERSION_PROTO_EXT,
        0,
        hdr.pdu_type.code(),
        VERSION,
        0,
        hdr.max_area_addrs,
    ]
}

/// The header at the start of `s`, and how many octets were read to tell.
pub open spec fn header_parse(s: Seq<u8>) -> (DecodeResult<Header>, int) {
    if s.len() < HEADER_LEN {
        (Err(DecodeError::IncompletePdu), 0)
    } else if s[0] != IDRP_DISCRIMINATOR {
        (Err(DecodeError::InvalidIrdpDiscriminator(s[0])), 1)
    } else if s[2] != VERSION_PROTO_EXT {
        (Err(DecodeError::InvalidVersion(s[2])), 3)
    } else if s[3] != 0 && s[3] != SYSTEM_ID_LEN {
        (Err(DecodeError::InvalidIdLength(s[3])), 4)
    } else {
        match PduType::spec_from_u8(s[4]) {
            None => (Err(DecodeError::UnknownPduType(s[4])), 5),
            Some(pdu_type) => if s[1] != fixed_len(pdu_type) {
                (Err(DecodeError::InvalidHeaderLength(s[1])), 5)
            } else if s.len() < s[1] {
                (Err(DecodeError::IncompletePdu), 5)
            } else if s[5] != VERSION {
                (Err(DecodeError::InvalidVersion(s[5])), 6)
            } else {
                (Ok(Header { pdu_type, max_area_addrs: s[7] }), 8)
            },
        }
    }
}

impl Header {
    /// A header with the default number of area addresses.
    pub fn new(pdu_type: PduType) -> (r: Header)
        ensures
            r == (Header { pdu_type, max_area_addrs: 0 }),
    {
        Header { pdu_type, max_area_addrs: 0 }
    }

    /// Decodes IS-IS PDU header from a bytes buffer. The whole fixed header
    /// has to be there, not only the part that all PDUs share.
    pub fn decode(buf: &mut Bytes) -> (r: DecodeResult<Header>)
        ensures
            r == header_parse(bytes_content(*old(buf))).0,
            bytes_content(*final(buf)) == bytes_content(*old(buf)).skip(
                header_parse(bytes_content(*old(buf))).1,
            ),
    {
        let ghost s = bytes_content(*buf);
        let packet_len = buf.len();
        // Ensure the packet has enough data for the fixed-length IS-IS header.
        if packet_len < HEADER_LEN as usize {
            assert(s.skip(0) =~= s);
            return Err(DecodeError::IncompletePdu);
        }

        // Parse IDRP discriminator.
        let idrp_discr = get_u8(buf);
        if idrp_discr != IDRP_DISCRIMINATOR {
            return Err(DecodeError::InvalidIrdpDiscriminator(idrp_discr));
        }

        // Parse length of fixed header.
        let fixed_header_length = get_u8(buf);
        // Parse version/protocol ID extension.
        let version_proto_ext = get_u8(buf);
        assert(bytes_content(*buf) =~= s.skip(3));
        if version_proto_ext != VERSION_PROTO_EXT {
            return Err(DecodeError::InvalidVersion(version_proto_ext));
        }

        // Parse ID length.
        let id_len = get_u8(buf);
        assert(bytes_content(*buf) =~= s.skip(4));
        if id_len != 0 && id_len != SYSTEM_ID_LEN {
            return Err(DecodeError::InvalidIdLength(id_len));
        }

        // Parse PDU type.
        let pdu_type = get_u8(buf);
        assert(bytes_content(*buf) =~= s.skip(5));
        let pdu_type = match PduType::from_u8(pdu_type) {
            Some(pdu_type) => pdu_type,
            None => return Err(DecodeError::UnknownPduType(pdu_type)),
        };
        // Additional sanity checks.
        if fixed_header_length != Self::fixed_header_length(pdu_type) {
            return Err(DecodeError::InvalidHeaderLength(fixed_header_length));
        }
        if packet_len < fixed_header_length as usize {
            return Err(DecodeError::IncompletePdu);
        }

        // Parse version.
        let version = get_u8(buf);
        assert(bytes_content(*buf) =~= s.skip(6));
        if version != VERSION {
            return Err(DecodeError::InvalidVersion(version));
        }

        // Parse reserved field.
        let _reserved = get_u8(buf);
        // Parse maximum area addresses.
        let max_area_addrs = get_u8(buf);
        assert(bytes_content(*buf) =~= s.skip(8));
        Ok(Header { pdu_type, max_area_addrs })
    }

    /// Encodes IS-IS PDU header into a bytes buffer.
    pub(crate) fn encode(&self, buf: &mut BytesMut)
        requires
            bytes_mut_content(*old(buf)).len() + 8 <= isize::MAX,
        ensures
            bytes_mut_content(*final(buf)) == bytes_mut_content(*old(buf)) + header_wire(*self),
    {
        let ghost before = bytes_mut_content(*buf);
        // Encode IDRP discriminator.
        put_u8(buf, IDRP_DISCRIMINATOR);
        // Encode length of fixed header.
        put_u8(buf, Self::fixed_header_length(self.pdu_type));
        // Encode version/protocol ID extension.
        put_u8(buf, VERSION_PROTO_EXT);
        // Encode ID length (use default value).
        put_u8(buf, 0);
        // Encode PDU type.
        put_u8(buf, self.pdu_type.as_u8());
        // Encode version.
        put_u8(buf, VERSION);
        // Encode reserved field.
        put_u8(buf, 0);
        // Encode maximum area addresses.
        put_u8(buf, self.max_area_addrs);
        assert(bytes_mut_content(*buf) =~= before + header_wire(*self));
    }

    /// Returns the length of the fixed header for a given PDU type.
    pub fn fixed_header_length(pdu_type: PduType) -> (n: u8)
        ensures
            n == fixed_len(pdu_type),
    {
        match pdu_type {
            PduType::HelloLanL1 | PduType::HelloLanL2 => HELLO_HEADER_LEN_LAN,
            PduType::HelloP2P => HELLO_HEADER_LEN_P2P,
            PduType::LspL1 | PduType::LspL2 => LSP_HEADER_LEN,
            PduType::CsnpL1 | PduType::CsnpL2 => CSNP_HEADER_LEN,
            PduType::PsnpL1 | PduType::PsnpL2 => PSNP_HEADER_LEN,
        }
    }
}

/// A header is read back from the start of a PDU that has room for the whole
/// fixed header.
pub proof fn lemma_header_parse_wire(hdr: Header, rest: Seq<u8>)
    requires
        8 + rest.len() >= fixed_len(hdr.pdu_type),
    ensures
        header_parse(header_wire(hdr) + rest) == (Ok::<Header, DecodeError>(hdr), 8int),
        (header_wire(hdr) + rest).skip(8) == rest,
{
    let s = header_wire(hdr) + rest;
    assert(s.len() == 8 + rest.len());
    assert(PduType::spec_from_u8(hdr.pdu_type.code()) == Some(hdr.pdu_type));
    assert(s.skip(8) =~= rest);
}

/// A PDU with its length field between `head` and `tail`: the length of the
/// whole PDU, modulo 2^16.
pub open spec fn with_length(head: Seq<u8>, tail: Seq<u8>) -> Seq<u8> {
    head + be_bytes((head.len() + 2 + tail.len()) as nat % 0x1_0000, 2) + tail
}

/// Starts a PDU: a buffer that holds the header.
pub(crate) fn pdu_encode_start(hdr: &Header) -> (buf: BytesMut)
    ensures
        bytes_mut_content(buf) == header_wire(*hdr),
{
    let mut buf = BytesMut::new();
    hdr.encode(&mut buf);
    assert(bytes_mut_content(buf) =~= header_wire(*hdr));
    buf
}

/// Ends a PDU: the length field at `len_pos` is initialized.
pub(crate) fn pdu_encode_end(buf: BytesMut, len_pos: usize) -> (r: Bytes)
    requires
        len_pos + 2 <= bytes_mut_content(buf).len(),
    ensures
        bytes_content(r) == with_length(
            bytes_mut_content(buf).take(len_pos as int),
            bytes_mut_content(buf).skip(len_pos + 2),
        ),
{
    let ghost s = bytes_mut_content(buf);
    let mut buf = buf;
    // Initialize PDU length.
    let pkt_len: u16 = (buf.len() % 0x1_0000) as u16;
    set_octet(&mut buf, len_pos, (pkt_len / 256) as u8);
    set_octet(&mut buf, len_pos + 1, (pkt_len % 256) as u8);
    proof {
        lemma_be_bytes_2(pkt_len);
        assert(bytes_mut_content(buf) =~= with_length(
            s.take(len_pos as int),
            s.skip(len_pos + 2),
        ));
    }
    buf.freeze()
}

/// The header stays in front of a PDU once the length is in place.
pub(crate) proof fn lemma_with_length_front(hdr: Seq<u8>, fields: Seq<u8>, tail: Seq<u8>)
    ensures
        with_length(hdr + fields, tail) == hdr + with_length(hdr + fields, tail).skip(
            hdr.len() as int,
        ),
{
    let s = with_length(hdr + fields, tail);
    assert(s =~= hdr + s.skip(hdr.len() as int));
}

/// A new header has the type that it was made for, and tells no number of area
/// addresses.
pub proof fn lemma_new_header(pdu_type: PduType, r: Header)
    requires
        call_ensures(Header::new, (pdu_type,), r),
    ensures
        r.pdu_type == pdu_type,
        r.max_area_addrs == 0,
{
}

} // verus!
