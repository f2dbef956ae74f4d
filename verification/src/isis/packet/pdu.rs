//! IS-IS PDUs.

use bytes::Bytes;
use vstd::prelude::*;

use crate::isis::packet::consts::PduType;
use crate::isis::packet::error::{DecodeError, DecodeResult};
use crate::isis::packet::header::{
    header_parse, header_wire, lemma_header_parse_wire, lemma_with_length_front, Header,
};
use crate::isis::packet::hello::{
    circuit_type_octet, hello_parse, is_hello, lemma_hello_parse_wire, Hello, HelloView,
};
use crate::isis::packet::lsp::{is_lsp, lemma_lsp_parse_wire, lsp_parse, Lsp, LspView};
use crate::isis::packet::snp::{lemma_snp_parse_wire, snp_parse, Snp, SnpView};
use crate::utils::be::be_bytes;
use crate::utils::buf::bytes_content;
use crate::utils::clock::clock_reading;

verus! {

/// IS-IS PDU.
#[derive(Clone, Debug, PartialEq, Eq)]
pub enum Pdu {
    Hello(Hello),
    Lsp(Lsp),
    Snp(Snp),
}

/// What a `Pdu` stands for.
#[verifier::ext_equal]
pub enum PduView {
    Hello(HelloView),
    Lsp(LspView),
    Snp(SnpView),
}

impl View for Pdu {
    type V = PduView;

    open spec fn view(&self) -> PduView {
        match self {
            Pdu::Hello(pdu) => PduView::Hello(pdu@),
            Pdu::Lsp(pdu) => PduView::Lsp(pdu@),
            Pdu::Snp(pdu) => PduView::Snp(pdu@),
        }
    }
}

/// The PDU that a packet stands for.
pub open spec fn pdu_parse(s: Seq<u8>) -> DecodeResult<PduView> {
    match header_parse(s).0 {
        Err(e) => Err(e),
        Ok(hdr) => if is_hello(hdr.pdu_type) {
            match hello_parse(hdr, s.len(), s.skip(8)) {
                Ok(pdu) => Ok(PduView::Hello(pdu)),
                Err(e) => Err(e),
            }
        } else if is_lsp(hdr.pdu_type) {
            match lsp_parse(hdr, s.len(), s.skip(8)) {
                Ok(pdu) => Ok(PduView::Lsp(pdu)),
                Err(e) => Err(e),
            }
        } else {
            match snp_parse(hdr, s.len(), s.skip(8)) {
                Ok(pdu) => Ok(PduView::Snp(pdu)),
                Err(e) => Err(e),
            }
        },
    }
}

impl PduView {
    /// What is sent: an LSP goes out as its raw data.
    pub open spec fn wire(self) -> Seq<u8> {
        match self {
            PduView::Hello(pdu) => pdu.wire(),
            PduView::Lsp(pdu) => pdu.raw,
            PduView::Snp(pdu) => pdu.wire(),
        }
    }

    /// The common header.
    pub open spec fn hdr(self) -> Header {
        match self {
            PduView::Hello(pdu) => pdu.hdr,
            PduView::Lsp(pdu) => pdu.hdr,
            PduView::Snp(pdu) => pdu.hdr,
        }
    }

    /// Whether what is sent tells all there is, and would be accepted. The raw
    /// data of an LSP are up to date.
    pub open spec fn valid(self) -> bool {
        match self {
            PduView::Hello(pdu) => pdu.valid(),
            PduView::Lsp(pdu) => pdu.valid() && pdu.raw == pdu.wire(),
            PduView::Snp(pdu) => pdu.valid(),
        }
    }

    /// The PDU as its receiver sees it: an LSP comes without raw data.
    pub open spec fn received(self) -> PduView {
        match self {
            PduView::Lsp(pdu) => PduView::Lsp(LspView { raw: Seq::empty(), ..pdu }),
            _ => self,
        }
    }
}

impl Pdu {
    /// Decodes IS-IS PDU from a bytes buffer.
    pub fn decode(buf: Bytes) -> (r: DecodeResult<Pdu>)
        ensures
            match r {
                Ok(pdu) => pdu_parse(bytes_content(buf)) == Ok::<PduView, DecodeError>(pdu@),
                Err(e) => pdu_parse(bytes_content(buf)) == Err::<PduView, DecodeError>(e),
            },
            r matches Ok(Pdu::Lsp(lsp)) ==> (lsp.base_time matches Some(t) && clock_reading(t)),
    {
        let mut buf = buf;
        let packet_len = buf.len();
        // Decode PDU common header.
        let hdr = match Header::decode(&mut buf) {
            Ok(hdr) => hdr,
            Err(e) => return Err(e),
        };
        // Decode PDU-specific fields.
        let pdu = match hdr.pdu_type {
            PduType::HelloLanL1 | PduType::HelloLanL2 | PduType::HelloP2P => {
                match Hello::decode(hdr, packet_len, &mut buf) {
                    Ok(pdu) => Pdu::Hello(pdu),
                    Err(e) => return Err(e),
                }
            },
            PduType::LspL1 | PduType::LspL2 => {
                match Lsp::decode(hdr, packet_len, &mut buf) {
                    Ok(pdu) => Pdu::Lsp(pdu),
                    Err(e) => return Err(e),
                }
            },
            PduType::CsnpL1 | PduType::CsnpL2 | PduType::PsnpL1 | PduType::PsnpL2 => {
                match Snp::decode(hdr, packet_len, &mut buf) {
                    Ok(pdu) => Pdu::Snp(pdu),
                    Err(e) => return Err(e),
                }
            },
        };
        Ok(pdu)
    }

    /// Encodes IS-IS PDU into a bytes buffer, which can hold `isize::MAX`
    /// octets.
    pub fn encode(&self) -> (r: Bytes)
        requires
            self@.wire().len() <= isize::MAX,
        ensures
            bytes_content(r) == self@.wire(),
    {
        match self {
            Pdu::Hello(pdu) => pdu.encode(),
            Pdu::Lsp(pdu) => pdu.raw.clone(),
            Pdu::Snp(pdu) => pdu.encode(),
        }
    }

    /// How many octets the PDU takes on the wire, if a bytes buffer can hold
    /// them.
    pub fn encoded_len(&self) -> (r: Option<usize>)
        ensures
            r == (if self@.wire().len() <= isize::MAX {
                Some(self@.wire().len() as usize)
            } else {
                None
            }),
    {
        let room: usize = isize::MAX as usize;
        match self {
            Pdu::Hello(pdu) => pdu.len_within(room),
            Pdu::Lsp(pdu) => {
                let len = pdu.raw.len();
                if len <= room {
                    Some(len)
                } else {
                    None
                }
            },
            Pdu::Snp(pdu) => pdu.len_within(room),
        }
    }

    /// Returns the IS-IS PDU type.
    pub fn pdu_type(&self) -> (r: PduType)
        ensures
            r == self@.hdr().pdu_type,
    {
        match self {
            Pdu::Hello(pdu) => pdu.hdr.pdu_type,
            Pdu::Lsp(pdu) => pdu.hdr.pdu_type,
            Pdu::Snp(pdu) => pdu.hdr.pdu_type,
        }
    }
}

#[verifier::rlimit(60)]
proof fn lemma_pdu_parse_hello(pdu: HelloView)
    requires
        pdu.valid(),
    ensures
        pdu_parse(pdu.wire()) == Ok::<PduView, DecodeError>(PduView::Hello(pdu)),
{
    let s = pdu.wire();
    let hdr = header_wire(pdu.hdr);
    lemma_hello_parse_wire(pdu);
    assert(header_parse(s).0 == Ok::<Header, DecodeError>(pdu.hdr)) by {
        let fields = seq![circuit_type_octet(pdu.circuit_type)] + pdu.source.wire() + be_bytes(
            pdu.holdtime as nat,
            2,
        );
        lemma_with_length_front(hdr, fields, pdu.tail());
        assert(pdu.head() =~= hdr + fields);
        lemma_header_parse_wire(pdu.hdr, s.skip(8));
    }
}

#[verifier::rlimit(60)]
proof fn lemma_pdu_parse_lsp(pdu: LspView)
    requires
        pdu.valid(),
    ensures
        pdu_parse(pdu.wire()) == Ok::<PduView, DecodeError>(
            PduView::Lsp(LspView { raw: Seq::empty(), ..pdu }),
        ),
{
    let s = pdu.wire();
    let hdr = header_wire(pdu.hdr);
    lemma_lsp_parse_wire(pdu);
    assert(header_parse(s).0 == Ok::<Header, DecodeError>(pdu.hdr)) by {
        let tail = be_bytes(pdu.rem_lifetime as nat, 2) + pdu.body(pdu.cksum);
        lemma_with_length_front(hdr, Seq::empty(), tail);
        assert(hdr + Seq::empty() =~= hdr);
        lemma_header_parse_wire(pdu.hdr, s.skip(8));
    }
}

#[verifier::rlimit(60)]
proof fn lemma_pdu_parse_snp(pdu: SnpView)
    requires
        pdu.valid(),
    ensures
        pdu_parse(pdu.wire()) == Ok::<PduView, DecodeError>(PduView::Snp(pdu)),
{
    let s = pdu.wire();
    let hdr = header_wire(pdu.hdr);
    lemma_snp_parse_wire(pdu);
    assert(header_parse(s).0 == Ok::<Header, DecodeError>(pdu.hdr)) by {
        lemma_with_length_front(hdr, Seq::empty(), pdu.tail());
        assert(hdr + Seq::empty() =~= hdr);
        lemma_header_parse_wire(pdu.hdr, s.skip(8));
    }
}

/// What is sent is received.
pub proof fn lemma_pdu_parse_wire(v: PduView)
    requires
        v.valid(),
    ensures
        pdu_parse(v.wire()) == Ok::<PduView, DecodeError>(v.received()),
{
    match v {
        PduView::Hello(pdu) => lemma_pdu_parse_hello(pdu),
        PduView::Lsp(pdu) => lemma_pdu_parse_lsp(pdu),
        PduView::Snp(pdu) => lemma_pdu_parse_snp(pdu),
    }
}

/// A packet that lost its end is refused.
pub proof fn lemma_truncated_refused(s: Seq<u8>, n: int)
    requires
        pdu_parse(s) is Ok,
        s.len() < 0x1_0000,
        0 <= n < s.len(),
    ensures
        pdu_parse(s.take(n)) is Err,
{
    let t = s.take(n);
    if header_parse(t).0 is Ok {
        let hdr = header_parse(s).0.unwrap();
        assert(header_parse(t).0 == Ok::<Header, DecodeError>(hdr));
        if is_hello(hdr.pdu_type) {
            assert(t.skip(8).subrange(9, 11) =~= s.skip(8).subrange(9, 11));
        } else {
            assert(t.skip(8).subrange(0, 2) =~= s.skip(8).subrange(0, 2));
        }
    }
}

} // verus!
