//! Identifiers of systems, LANs and LSPs, and the levels.

use bytes::{Bytes, BytesMut};
use vstd::prelude::*;

use crate::utils::buf::{bytes_content, bytes_mut_content, get_u8, put_slice, put_u8};

verus! {

/// A level of the routing hierarchy.
#[derive(Clone, Copy, Debug, PartialEq, Eq, Structural)]
pub enum LevelNumber {
    L1,
    L2,
}

/// One level or both.
#[derive(Clone, Copy, Debug, PartialEq, Eq, Structural)]
pub enum LevelType {
    L1,
    L2,
    All,
}

impl LevelType {
    /// Whether a level belongs to the type.
    pub open spec fn has(self, level: LevelNumber) -> bool {
        match self {
            LevelType::L1 => level == LevelNumber::L1,
            LevelType::L2 => level == LevelNumber::L2,
            LevelType::All => true,
        }
    }

    /// The type of the levels that belong to either type.
    pub open spec fn spec_union(self, other: LevelType) -> LevelType {
        if self == other {
            self
        } else {
            LevelType::All
        }
    }

    /// The type of the levels that belong to either type.
    pub fn union(self, other: LevelType) -> (r: LevelType)
        ensures
            r == self.spec_union(other),
            forall|level: LevelNumber| r.has(level) <==> self.has(level) || other.has(level),
    {
        let r = match (self, other) {
            (LevelType::L1, LevelType::L1) => LevelType::L1,
            (LevelType::L2, LevelType::L2) => LevelType::L2,
            _ => LevelType::All,
        };
        proof {
            assert(self.has(LevelNumber::L1) || self.has(LevelNumber::L2));
            assert(other.has(LevelNumber::L1) || other.has(LevelNumber::L2));
        }
        r
    }
}

/// A system ID.
#[derive(Clone, Copy, Debug, PartialEq, Eq)]
pub struct SystemId {
    pub octets: [u8; 6],
}

/// The ID of a LAN: its designated system and a pseudonode number.
#[derive(Clone, Copy, Debug, PartialEq, Eq)]
pub struct LanId {
    pub system_id: SystemId,
    pub pseudonode: u8,
}

/// The ID of an LSP.
#[derive(Clone, Copy, Debug, PartialEq, Eq)]
pub struct LspId {
    pub system_id: SystemId,
    pub pseudonode: u8,
    pub fragment: u8,
}

/// The system ID that stands at the start of `s`.
pub open spec fn system_id_at(s: Seq<u8>) -> SystemId {
    SystemId { octets: [s[0], s[1], s[2], s[3], s[4], s[5]] }
}

/// The LAN ID that stands at the start of `s`.
pub open spec fn lan_id_at(s: Seq<u8>) -> LanId {
    LanId { system_id: system_id_at(s), pseudonode: s[6] }
}

/// The LSP ID that stands at the start of `s`.
pub open spec fn lsp_id_at(s: Seq<u8>) -> LspId {
    LspId { system_id: system_id_at(s), pseudonode: s[6], fragment: s[7] }
}

impl SystemId {
    /// How the ID stands on the wire.
    pub open spec fn wire(self) -> Seq<u8> {
        self.octets@
    }

    /// What stands on the wire is read back.
    pub broadcast proof fn lemma_wire(self, rest: Seq<u8>)
        ensures
            #[trigger] system_id_at(self.wire() + rest) == self,
            self.wire().len() == 6,
    {
        assert(system_id_at(self.wire() + rest).octets =~= self.octets);
    }

    /// Takes a system ID off the buffer.
    pub fn decode(buf: &mut Bytes) -> (r: SystemId)
        requires
            bytes_content(*old(buf)).len() >= 6,
        ensures
            r == system_id_at(bytes_content(*old(buf))),
            bytes_content(*final(buf)) == bytes_content(*old(buf)).skip(6),
    {
        let ghost s = bytes_content(*buf);
        let octets = [get_u8(buf), get_u8(buf), get_u8(buf), get_u8(buf), get_u8(buf), get_u8(buf)];
        assert(bytes_content(*buf) =~= s.skip(6));
        assert(octets =~= system_id_at(s).octets);
        SystemId { octets }
    }

    /// Appends the system ID to the buffer.
    pub fn encode(&self, buf: &mut BytesMut)
        requires
            bytes_mut_content(*old(buf)).len() + 6 <= isize::MAX,
        ensures
            bytes_mut_content(*final(buf)) == bytes_mut_content(*old(buf)) + self.wire(),
    {
        put_slice(buf, &self.octets);
    }
}

impl LanId {
    /// How the ID stands on the wire.
    pub open spec fn wire(self) -> Seq<u8> {
        self.system_id.wire().push(self.pseudonode)
    }

    /// What stands on the wire is read back.
    pub broadcast proof fn lemma_wire(self, rest: Seq<u8>)
        ensures
            #[trigger] lan_id_at(self.wire() + rest) == self,
            self.wire().len() == 7,
    {
        self.system_id.lemma_wire(seq![self.pseudonode] + rest);
        assert(self.wire() + rest =~= self.system_id.wire() + (seq![self.pseudonode] + rest));
    }

    /// Takes a LAN ID off the buffer.
    pub fn decode(buf: &mut Bytes) -> (r: LanId)
        requires
            bytes_content(*old(buf)).len() >= 7,
        ensures
            r == lan_id_at(bytes_content(*old(buf))),
            bytes_content(*final(buf)) == bytes_content(*old(buf)).skip(7),
    {
        let ghost s = bytes_content(*buf);
        let system_id = SystemId::decode(buf);
        let pseudonode = get_u8(buf);
        assert(bytes_content(*buf) =~= s.skip(7));
        LanId { system_id, pseudonode }
    }

    /// Appends the LAN ID to the buffer.
    pub fn encode(&self, buf: &mut BytesMut)
        requires
            bytes_mut_content(*old(buf)).len() + 7 <= isize::MAX,
        ensures
            bytes_mut_content(*final(buf)) == bytes_mut_content(*old(buf)) + self.wire(),
    {
        let ghost before = bytes_mut_content(*buf);
        self.system_id.encode(buf);
        put_u8(buf, self.pseudonode);
        assert(bytes_mut_content(*buf) =~= before + self.wire());
    }
}

impl LspId {
    /// How the ID stands on the wire.
    pub open spec fn wire(self) -> Seq<u8> {
        self.system_id.wire().push(self.pseudonode).push(self.fragment)
    }

    /// What stands on the wire is read back.
    pub broadcast proof fn lemma_wire(self, rest: Seq<u8>)
        ensures
            #[trigger] lsp_id_at(self.wire() + rest) == self,
            self.wire().len() == 8,
    {
        let tail = seq![self.pseudonode, self.fragment] + rest;
        self.system_id.lemma_wire(tail);
        assert(self.wire() + rest =~= self.system_id.wire() + tail);
    }

    /// Takes an LSP ID off the buffer.
    pub fn decode(buf: &mut Bytes) -> (r: LspId)
        requires
            bytes_content(*old(buf)).len() >= 8,
        ensures
            r == lsp_id_at(bytes_content(*old(buf))),
            bytes_content(*final(buf)) == bytes_content(*old(buf)).skip(8),
    {
        let ghost s = bytes_content(*buf);
        let system_id = SystemId::decode(buf);
        let pseudonode = get_u8(buf);
        let fragment = get_u8(buf);
        assert(bytes_content(*buf) =~= s.skip(8));
        LspId { system_id, pseudonode, fragment }
    }

    /// Appends the LSP ID to the buffer.
    pub fn encode(&self, buf: &mut BytesMut)
        requires
            bytes_mut_content(*old(buf)).len() + 8 <= isize::MAX,
        ensures
            bytes_mut_content(*final(buf)) == bytes_mut_content(*old(buf)) + self.wire(),
    {
        let ghost before = bytes_mut_content(*buf);
        self.system_id.encode(buf);
        put_u8(buf, self.pseudonode);
        put_u8(buf, self.fragment);
        assert(bytes_mut_content(*buf) =~= before + self.wire());
    }
}

/// The union of two types has exactly the levels that either has.
pub proof fn lemma_union(a: LevelType, b: LevelType, r: LevelType, level: LevelNumber)
    requires
        call_ensures(LevelType::union, (a, b), r),
    ensures
        r.has(level) <==> a.has(level) || b.has(level),
        LevelType::L1.has(level) <==> level == LevelNumber::L1,
        LevelType::L2.has(level) <==> level == LevelNumber::L2,
        LevelType::All.has(level),
{
}

/// IDs are read from as many octets as they have, in order, and what follows is
/// left.
pub proof fn lemma_ids_read(
    a: Bytes,
    system: (Bytes, SystemId),
    lan: (Bytes, LanId),
    lsp: (Bytes, LspId),
)
    requires
        bytes_content(a).len() >= 8,
        exists|x: &mut Bytes| #[trigger]
            call_ensures(SystemId::decode, (x,), system.1) && *x == a && *final(x) == system.0,
        exists|x: &mut Bytes| #[trigger]
            call_ensures(LanId::decode, (x,), lan.1) && *x == a && *final(x) == lan.0,
        exists|x: &mut Bytes| #[trigger]
            call_ensures(LspId::decode, (x,), lsp.1) && *x == a && *final(x) == lsp.0,
    ensures
        ({
            let s = bytes_content(a);
            &&& system.1.octets@ == s.subrange(0, 6)
            &&& bytes_content(system.0) == s.skip(6)
            &&& lan.1.system_id.octets@ == s.subrange(0, 6)
            &&& lan.1.pseudonode == s[6]
            &&& bytes_content(lan.0) == s.skip(7)
            &&& lsp.1.system_id.octets@ == s.subrange(0, 6)
            &&& lsp.1.pseudonode == s[6]
            &&& lsp.1.fragment == s[7]
            &&& bytes_content(lsp.0) == s.skip(8)
        }),
{
    assert(system_id_at(bytes_content(a)).octets@ =~= bytes_content(a).subrange(0, 6));
}

/// IDs are written as they are read, behind what was written before.
pub proof fn lemma_ids_written(
    a: BytesMut,
    system: (BytesMut, SystemId),
    lan: (BytesMut, LanId),
    lsp: (BytesMut, LspId),
)
    requires
        exists|x: &mut BytesMut| #[trigger]
            call_ensures(SystemId::encode, (&system.1, x), ()) && *x == a && *final(x) == system.0,
        exists|x: &mut BytesMut| #[trigger]
            call_ensures(LanId::encode, (&lan.1, x), ()) && *x == a && *final(x) == lan.0,
        exists|x: &mut BytesMut| #[trigger]
            call_ensures(LspId::encode, (&lsp.1, x), ()) && *x == a && *final(x) == lsp.0,
    ensures
        ({
            let s = bytes_mut_content(a);
            &&& bytes_mut_content(system.0) == s + system.1.octets@
            &&& bytes_mut_content(lan.0) == s + lan.1.system_id.octets@ + seq![lan.1.pseudonode]
            &&& bytes_mut_content(lsp.0) == s + lsp.1.system_id.octets@ + seq![
                lsp.1.pseudonode,
                lsp.1.fragment,
            ]
        }),
{
    let s = bytes_mut_content(a);
    assert(bytes_mut_content(lan.0) =~= s + lan.1.system_id.octets@ + seq![lan.1.pseudonode]);
    assert(bytes_mut_content(lsp.0) =~= s + lsp.1.system_id.octets@ + seq![
        lsp.1.pseudonode,
        lsp.1.fragment,
    ]);
}

} // verus!
