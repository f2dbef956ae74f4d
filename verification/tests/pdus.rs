//! PDUs on the wire.

use bytes::Bytes;
use holo::isis::packet::consts::{LspFlags, PduType};
use holo::isis::packet::entries::{AreaAddr, LspEntry};
use holo::isis::packet::error::DecodeError;
use holo::isis::packet::header::Header;
use holo::isis::packet::hello::{Hello, HelloTlvs, HelloVariant};
use holo::isis::packet::id::{LanId, LevelNumber, LevelType, LspId, SystemId};
use holo::isis::packet::lsp::Lsp;
use holo::isis::packet::lsp_tlvs::LspTlvs;
use holo::isis::packet::pdu::Pdu;
use holo::isis::packet::reach::{ExtIpv4Reach, ExtIsReach, Ipv4Reach, Ipv6Reach, IsReach};
use holo::isis::packet::snp::{Snp, SnpTlvs};
use holo::isis::packet::tlv::{EntriesTlv, LspBufferSizeTlv, PaddingTlv};
use holo::utils::net::{Ipv4Addr, Ipv4Network, Ipv6Addr, Ipv6Network};

fn system_id(n: u8) -> SystemId {
    SystemId { octets: [0, 0, 0, 0, 0, n] }
}

fn lan_id(n: u8) -> LanId {
    LanId { system_id: system_id(n), pseudonode: n }
}

fn lsp_id(n: u8) -> LspId {
    LspId { system_id: system_id(n), pseudonode: 0, fragment: 0 }
}

fn lan_hello() -> Hello {
    Hello::new(
        LevelType::L1,
        LevelType::All,
        system_id(1),
        30,
        HelloVariant::Lan { priority: 64, lan_id: lan_id(1) },
        HelloTlvs::new(
            vec![0xCC, 0x8E],
            vec![AreaAddr { octets: vec![0x49, 0, 1] }],
            vec![[2, 0, 0, 0, 0, 2]],
            vec![Ipv4Addr::from_bits(0x0A00_0001)],
            vec![Ipv6Addr::from_bits(1)],
        ),
    )
}

fn lan_hello_octets() -> Vec<u8> {
    let mut octets = vec![
        0x83, 27, 1, 0, 0x0F, 1, 0, 0, // header
        3, // circuit type
        0, 0, 0, 0, 0, 1, // source
        0, 30, // holding time
        0, 69, // length
        64, // priority
        0, 0, 0, 0, 0, 1, 1, // LAN ID
        129, 2, 0xCC, 0x8E, // protocols
        1, 4, 3, 0x49, 0, 1, // area addresses
        6, 6, 2, 0, 0, 0, 0, 2, // neighbors
        132, 4, 10, 0, 0, 1, // IPv4 addresses
        232, 16,
    ];
    octets.extend([0; 15]);
    octets.push(1);
    octets
}

fn decode(octets: &[u8]) -> Result<Pdu, DecodeError> {
    Pdu::decode(Bytes::copy_from_slice(octets))
}

// Changes one octet.
fn with(octets: &[u8], i: usize, n: u8) -> Vec<u8> {
    let mut octets = octets.to_vec();
    octets[i] = n;
    octets
}

// Appends octets and mends the length field.
fn extended(octets: &[u8], more: &[u8], len_pos: usize) -> Vec<u8> {
    let mut octets = octets.to_vec();
    octets.extend(more);
    let len = octets.len() as u16;
    octets[len_pos..len_pos + 2].copy_from_slice(&len.to_be_bytes());
    octets
}

#[test]
fn lan_hello_on_the_wire() {
    let hello = Pdu::Hello(lan_hello());
    assert_eq!(hello.pdu_type(), PduType::HelloLanL1);
    assert_eq!(&hello.encode()[..], &lan_hello_octets()[..]);
    assert_eq!(decode(&lan_hello_octets()), Ok(hello));
}

#[test]
fn p2p_hello_on_the_wire() {
    let mut tlvs = HelloTlvs::default();
    tlvs.padding.push(PaddingTlv { length: 3 });
    let hello = Pdu::Hello(Hello::new(
        LevelType::All,
        LevelType::L2,
        system_id(7),
        0x0102,
        HelloVariant::P2P { local_circuit_id: 9 },
        tlvs,
    ));
    let octets = [
        0x83, 20, 1, 0, 0x11, 1, 0, 0, 2, 0, 0, 0, 0, 0, 7, 1, 2, 0, 25, 9, 8, 3, 0, 0, 0,
    ];
    assert_eq!(hello.pdu_type(), PduType::HelloP2P);
    assert_eq!(&hello.encode()[..], &octets[..]);
    assert_eq!(decode(&octets), Ok(hello));
}

#[test]
fn hello_levels() {
    let new = |level| {
        let variant = HelloVariant::P2P { local_circuit_id: 0 };
        Hello::new(level, LevelType::All, system_id(1), 1, variant, HelloTlvs::default())
            .hdr
            .pdu_type
    };
    assert_eq!(new(LevelType::L1), PduType::HelloLanL1);
    assert_eq!(new(LevelType::L2), PduType::HelloLanL2);
    assert_eq!(new(LevelType::All), PduType::HelloP2P);
}

#[test]
fn hello_tlvs_give_back_what_they_hold() {
    let areas: Vec<AreaAddr> =
        (0..40).map(|n| AreaAddr { octets: vec![0x49, 0, 0, 0, 0, 0, 0, n] }).collect();
    let neighbors: Vec<[u8; 6]> = (0..50).map(|n| [n; 6]).collect();
    let ipv4: Vec<Ipv4Addr> = (0..70).map(Ipv4Addr::from_bits).collect();
    let ipv6: Vec<Ipv6Addr> = (0..20).map(Ipv6Addr::from_bits).collect();
    let tlvs =
        HelloTlvs::new(vec![0xCC], areas.clone(), neighbors.clone(), ipv4.clone(), ipv6.clone());
    // 28 area addresses of 9 octets fill a TLV, 42 neighbors, 63 IPv4 and 15
    // IPv6 addresses.
    assert_eq!(tlvs.area_addrs.iter().map(|t| t.list.len()).collect::<Vec<_>>(), [28, 12]);
    assert_eq!(tlvs.neighbors.iter().map(|t| t.list.len()).collect::<Vec<_>>(), [42, 8]);
    assert_eq!(tlvs.ipv4_addrs.iter().map(|t| t.list.len()).collect::<Vec<_>>(), [63, 7]);
    assert_eq!(tlvs.ipv6_addrs.iter().map(|t| t.list.len()).collect::<Vec<_>>(), [15, 5]);
    assert_eq!(tlvs.area_addrs().into_iter().cloned().collect::<Vec<_>>(), areas);
    assert_eq!(tlvs.neighbors().into_iter().copied().collect::<Vec<_>>(), neighbors);
    assert_eq!(tlvs.ipv4_addrs().into_iter().copied().collect::<Vec<_>>(), ipv4);
    assert_eq!(tlvs.ipv6_addrs().into_iter().copied().collect::<Vec<_>>(), ipv6);
    let hello = Pdu::Hello(Hello::new(
        LevelType::L2,
        LevelType::L2,
        system_id(1),
        9,
        HelloVariant::Lan { priority: 0, lan_id: lan_id(2) },
        tlvs,
    ));
    assert_eq!(decode(&hello.encode()), Ok(hello));
}

#[test]
fn header_errors() {
    let octets = lan_hello_octets();
    assert_eq!(decode(&octets[..7]), Err(DecodeError::IncompletePdu));
    assert_eq!(decode(&octets[..26]), Err(DecodeError::IncompletePdu));
    assert_eq!(
        decode(&with(&octets, 0, 0x82)),
        Err(DecodeError::InvalidIrdpDiscriminator(0x82))
    );
    assert_eq!(decode(&with(&octets, 1, 20)), Err(DecodeError::InvalidHeaderLength(20)));
    assert_eq!(decode(&with(&octets, 2, 2)), Err(DecodeError::InvalidVersion(2)));
    assert_eq!(decode(&with(&octets, 3, 5)), Err(DecodeError::InvalidIdLength(5)));
    assert_eq!(decode(&with(&octets, 4, 0x13)), Err(DecodeError::UnknownPduType(0x13)));
    assert_eq!(decode(&with(&octets, 5, 3)), Err(DecodeError::InvalidVersion(3)));
    // The default ID length, spelled out, and a reserved octet are accepted.
    assert_eq!(decode(&with(&octets, 3, 6)), decode(&octets));
    assert_eq!(decode(&with(&octets, 6, 1)), decode(&octets));
}

#[test]
fn header_stops_at_the_first_error() {
    let octets = lan_hello_octets();
    let left = |octets: Vec<u8>| {
        let mut buf = Bytes::from(octets);
        let r = Header::decode(&mut buf);
        (r.is_ok(), buf.len())
    };
    assert_eq!(left(octets.clone()), (true, 61));
    assert_eq!(left(octets[..7].to_vec()), (false, 7));
    assert_eq!(left(with(&octets, 0, 0)), (false, 68));
    assert_eq!(left(with(&octets, 2, 0)), (false, 66));
    assert_eq!(left(with(&octets, 3, 1)), (false, 65));
    assert_eq!(left(with(&octets, 4, 0)), (false, 64));
    assert_eq!(left(with(&octets, 5, 0)), (false, 63));
    assert_eq!(Header::new(PduType::LspL2).max_area_addrs, 0);
    assert_eq!(Header::fixed_header_length(PduType::CsnpL2), 33);
    assert_eq!(Header::fixed_header_length(PduType::PsnpL1), 17);
}

#[test]
fn hello_errors() {
    let octets = lan_hello_octets();
    // Only the two least significant bits count.
    assert_eq!(decode(&with(&octets, 8, 0xF3)), decode(&octets));
    assert_eq!(
        decode(&with(&octets, 8, 0xF0)),
        Err(DecodeError::InvalidHelloCircuitType(0))
    );
    assert_eq!(
        decode(&with(&octets, 8, 2)),
        Err(DecodeError::InvalidHelloCircuitType(2))
    );
    let level2 = with(&octets, 4, 0x10);
    assert_eq!(
        decode(&with(&level2, 8, 1)),
        Err(DecodeError::InvalidHelloCircuitType(1))
    );
    assert!(decode(&with(&level2, 8, 2)).is_ok());
    assert_eq!(
        decode(&with(&octets, 16, 0)),
        Err(DecodeError::InvalidHelloHoldtime(0))
    );
    assert_eq!(
        decode(&with(&octets, 18, 70)),
        Err(DecodeError::InvalidPduLength(70))
    );
    // The reserved bit of the priority is ignored.
    assert_eq!(decode(&with(&octets, 19, 0xC0)), decode(&octets));
}

#[test]
fn truncated_packets_are_refused() {
    let octets = lan_hello_octets();
    for n in 0..octets.len() {
        assert!(decode(&octets[..n]).is_err());
    }
}

#[test]
fn tlv_errors() {
    let octets = lan_hello_octets();
    let more = |tlv: &[u8]| decode(&extended(&octets, tlv, 17));
    assert_eq!(more(&[1, 2, 0]), Err(DecodeError::InvalidTlvLength(2)));
    assert_eq!(more(&[1, 1, 14]), Err(DecodeError::InvalidAreaAddrLen(14)));
    assert_eq!(more(&[1, 2, 2, 0]), Err(DecodeError::InvalidAreaAddrLen(2)));
    assert_eq!(more(&[132, 3, 0, 0, 0]), Err(DecodeError::InvalidTlvLength(3)));
    assert_eq!(more(&[232, 1, 0]), Err(DecodeError::InvalidTlvLength(1)));
    assert_eq!(more(&[6, 7, 0, 0, 0, 0, 0, 0, 0]), Err(DecodeError::InvalidTlvLength(7)));
    // One octet that is left over is ignored.
    assert_eq!(more(&[1]), decode(&octets));
}

#[test]
fn unknown_and_repeated_tlvs() {
    let octets = lan_hello_octets();
    let hello = |tlv: &[u8]| match decode(&extended(&octets, tlv, 17)) {
        Ok(Pdu::Hello(hello)) => hello,
        r => panic!("{:?}", r),
    };
    // The first TLV of protocols counts.
    assert_eq!(hello(&[129, 1, 0x81]).tlvs, lan_hello().tlvs);
    let tlvs = hello(&[200, 2, 5, 6]).tlvs;
    assert_eq!(tlvs.unknown.len(), 1);
    assert_eq!((tlvs.unknown[0].tlv_type, tlvs.unknown[0].length), (200, 2));
    assert_eq!(&tlvs.unknown[0].value[..], &[5, 6]);
    // Neighbors are unknown on point-to-point circuits.
    let p2p = [
        0x83, 20, 1, 0, 0x11, 1, 0, 0, 2, 0, 0, 0, 0, 0, 7, 1, 2, 0, 28, 9, 6, 6, 1, 1, 1, 1, 1, 1,
    ];
    match decode(&p2p) {
        Ok(Pdu::Hello(hello)) => {
            assert!(hello.tlvs.neighbors.is_empty());
            assert_eq!(hello.tlvs.unknown[0].tlv_type, 6);
        }
        r => panic!("{:?}", r),
    }
}

fn small_lsp() -> Lsp {
    let mut tlvs = LspTlvs::default();
    tlvs.protocols_supported = Some(EntriesTlv { list: vec![0xCC] });
    tlvs.area_addrs
        .push(EntriesTlv { list: vec![AreaAddr { octets: vec![0x49, 0, 1] }] });
    Lsp::new(LevelNumber::L1, 1200, lsp_id(1), 1, LspFlags { bits: 3 }, tlvs)
}

#[test]
fn lsp_on_the_wire() {
    let lsp = small_lsp();
    let octets = [
        0x83, 27, 1, 0, 0x12, 1, 0, 0, // header
        0, 36, // length
        0x04, 0xB0, // remaining lifetime
        0, 0, 0, 0, 0, 1, 0, 0, // LSP ID
        0, 0, 0, 1, // sequence number
        CK0, CK1, // checksum
        3, // flags
        129, 1, 0xCC, 1, 4, 3, 0x49, 0, 1,
    ];
    assert_eq!(&lsp.raw[..], &octets[..]);
    assert_eq!(lsp.cksum, u16::from_be_bytes([CK0, CK1]));
    assert!(lsp.is_checksum_valid());
    assert_eq!(&Pdu::Lsp(lsp).encode()[..], &octets[..]);
}

const CK0: u8 = 0xB8;
const CK1: u8 = 0xA0;

#[test]
fn lsp_checksum_of_given_octets() {
    let data = [
        0, 0, 0, 0, 0, 1, 0, 0, 0, 0, 0, 1, 0, 0, 3, 129, 1, 0xCC, 1, 4, 3, 0x49, 0, 1,
    ];
    assert_eq!(Lsp::checksum(&data), [CK0, CK1]);
}

#[test]
fn lsp_is_received_as_sent() {
    let sent = small_lsp();
    let received = match Pdu::decode(Pdu::Lsp(sent.clone()).encode()) {
        Ok(Pdu::Lsp(lsp)) => lsp,
        r => panic!("{:?}", r),
    };
    assert_eq!(received.hdr, sent.hdr);
    assert_eq!(received.rem_lifetime, 1200);
    assert_eq!(received.lsp_id, sent.lsp_id);
    assert_eq!(received.seqno, sent.seqno);
    assert_eq!(received.cksum, sent.cksum);
    assert_eq!(received.flags, sent.flags);
    assert_eq!(received.tlvs, sent.tlvs);
    assert!(received.raw.is_empty());
    assert!(received.base_time.is_some());
    assert_eq!(
        decode(&with(&sent.raw, 9, 35)).map(|_| ()),
        Err(DecodeError::InvalidPduLength(35))
    );
}

#[test]
fn lsp_checksum_validity() {
    let mut lsp = small_lsp();
    let raw = lsp.raw.to_vec();
    let mut valid = |raw: Vec<u8>| {
        lsp.raw = Bytes::from(raw);
        lsp.is_checksum_valid()
    };
    assert!(valid(raw.clone()));
    // A changed octet shows.
    assert!(!valid(with(&raw, 26, 0)));
    // No checksum at all is fine, half a checksum is not.
    assert!(valid(with(&with(&raw, 24, 0), 25, 0)));
    assert!(!valid(with(&raw, 24, 0)));
    assert!(!valid(with(&raw, 25, 0)));
}

#[test]
fn remaining_lifetime() {
    let mut lsp = small_lsp();
    assert!(lsp.rem_lifetime() <= 1200);
    assert_eq!(lsp.rem_lifetime_after(0), 1200);
    assert_eq!(lsp.rem_lifetime_after(200), 1000);
    assert_eq!(lsp.rem_lifetime_after(1200), 0);
    assert_eq!(lsp.rem_lifetime_after(u64::MAX), 0);
    lsp.base_time = None;
    assert_eq!(lsp.rem_lifetime(), 1200);
    assert_eq!(lsp.rem_lifetime_after(200), 1200);
    let before = lsp.raw.clone();
    lsp.set_rem_lifetime(0x0102);
    assert_eq!(lsp.rem_lifetime, 0x0102);
    assert_eq!(&lsp.raw[10..12], &[1, 2]);
    assert_eq!(&lsp.raw[..10], &before[..10]);
    assert_eq!(&lsp.raw[12..], &before[12..]);
    assert!(lsp.is_checksum_valid());
    assert!(lsp.base_time.is_some());
    let entry = lsp.as_snp_entry();
    assert_eq!(entry.rem_lifetime, 0x0102);
    assert_eq!(entry.lsp_id, lsp.lsp_id);
    assert_eq!(entry.seqno, 1);
    assert_eq!(entry.cksum, lsp.cksum);
}

fn is_reach() -> IsReach {
    IsReach {
        metric: 10,
        metric_delay: None,
        metric_expense: Some(3),
        metric_error: None,
        neighbor: lan_id(2),
    }
}

fn ipv4_reach() -> Ipv4Reach {
    Ipv4Reach {
        up_down: true,
        ie_bit: false,
        metric: 10,
        metric_delay: None,
        metric_expense: None,
        metric_error: None,
        addr: Ipv4Addr::from_bits(0x0A00_0000),
        mask: Ipv4Addr::from_bits(0xFF00_0000),
    }
}

fn full_tlvs() -> LspTlvs {
    LspTlvs::new(
        vec![0xCC, 0x8E],
        vec![AreaAddr { octets: vec![0x49] }],
        Some(1492),
        vec![is_reach()],
        vec![ExtIsReach {
            neighbor: lan_id(3),
            metric: 0x01_0203,
            sub_tlvs: Bytes::from_static(&[9, 1, 7]),
        }],
        vec![Ipv4Addr::from_bits(0x0101_0101)],
        vec![ipv4_reach()],
        vec![Ipv4Reach { up_down: false, ie_bit: true, ..ipv4_reach() }],
        vec![
            ExtIpv4Reach {
                metric: 20,
                up_down: true,
                prefix: Ipv4Network { addr: Ipv4Addr::from_bits(0x0A01_0200), prefix: 23 },
                sub_tlvs: Bytes::new(),
            },
            ExtIpv4Reach {
                metric: 21,
                up_down: false,
                prefix: Ipv4Network { addr: Ipv4Addr::from_bits(0), prefix: 0 },
                sub_tlvs: Bytes::from_static(&[1, 0]),
            },
        ],
        vec![Ipv6Addr::from_bits(5)],
        vec![Ipv6Reach {
            metric: 30,
            up_down: false,
            external: true,
            prefix: Ipv6Network { addr: Ipv6Addr::from_bits(0x2001 << 112), prefix: 16 },
            sub_tlvs: Bytes::from_static(&[1, 1, 1]),
        }],
    )
}

#[test]
fn all_lsp_tlvs_on_the_wire() {
    let tlvs = full_tlvs();
    let lsp = Lsp::new(LevelNumber::L2, 0, lsp_id(1), 2, LspFlags { bits: 0 }, tlvs.clone());
    let mut expected = vec![129, 2, 0xCC, 0x8E, 1, 2, 1, 0x49, 14, 2, 0x05, 0xD4];
    expected.extend([2, 12, 0, 10, 0x80, 3, 0x80, 0, 0, 0, 0, 0, 2, 2]);
    expected.extend([22, 14, 0, 0, 0, 0, 0, 3, 3, 1, 2, 3, 3, 9, 1, 7]);
    expected.extend([132, 4, 1, 1, 1, 1]);
    expected.extend([128, 12, 0x8A, 0x80, 0x80, 0x80, 10, 0, 0, 0, 255, 0, 0, 0]);
    expected.extend([130, 12, 0x4A, 0x80, 0x80, 0x80, 10, 0, 0, 0, 255, 0, 0, 0]);
    expected.extend([135, 16, 0, 0, 0, 20, 0x97, 10, 1, 2, 0, 0, 0, 21, 0x40, 2, 1, 0]);
    expected.extend([232, 16, 0, 0, 0, 0, 0, 0, 0, 0, 0, 0, 0, 0, 0, 0, 0, 5]);
    expected.extend([236, 12, 0, 0, 0, 30, 0x60, 16, 0x20, 0x01, 3, 1, 1, 1]);
    assert_eq!(&lsp.raw[27..], &expected[..]);
    assert!(lsp.is_checksum_valid());
    match Pdu::decode(lsp.raw.clone()) {
        Ok(Pdu::Lsp(received)) => assert_eq!(received.tlvs, tlvs),
        r => panic!("{:?}", r),
    }
}

#[test]
fn lsp_tlvs_give_back_what_they_hold() {
    let tlvs = full_tlvs();
    assert_eq!(tlvs.protocols_supported(), [0xCC, 0x8E]);
    assert_eq!(tlvs.area_addrs().len(), 1);
    assert_eq!(tlvs.lsp_buf_size(), Some(1492));
    assert_eq!(tlvs.is_reach(), [&is_reach()]);
    assert_eq!(tlvs.ext_is_reach()[0].metric, 0x01_0203);
    assert_eq!(tlvs.ipv4_addrs(), [&Ipv4Addr::from_bits(0x0101_0101)]);
    assert_eq!(tlvs.ipv4_internal_reach(), [&ipv4_reach()]);
    assert!(tlvs.ipv4_external_reach()[0].ie_bit);
    assert_eq!(tlvs.ext_ipv4_reach().len(), 2);
    assert_eq!(tlvs.ipv6_addrs(), [&Ipv6Addr::from_bits(5)]);
    assert_eq!(tlvs.ipv6_reach()[0].metric, 30);
    assert!(LspTlvs::default().protocols_supported().is_empty());
    assert_eq!(LspTlvs::default().lsp_buf_size(), None);
}

#[test]
fn lsp_tlv_errors() {
    let lsp = small_lsp();
    let more = |tlv: &[u8]| decode(&extended(&lsp.raw, tlv, 8)).map(|_| ());
    assert_eq!(more(&[14, 1, 0]), Err(DecodeError::InvalidTlvLength(1)));
    assert_eq!(more(&[2, 0]), Err(DecodeError::InvalidTlvLength(0)));
    assert_eq!(more(&[2, 1, 0]), Ok(()));
    assert_eq!(more(&[135, 5, 0, 0, 0, 1, 33]), Err(DecodeError::InvalidPrefixLen(33)));
    assert_eq!(
        more(&[236, 6, 0, 0, 0, 1, 0, 129]),
        Err(DecodeError::InvalidPrefixLen(129))
    );
    assert_eq!(more(&[135, 5, 0, 0, 0, 1, 8]), Err(DecodeError::InvalidTlvLength(5)));
    assert_eq!(more(&[22, 3, 0, 0, 0]), Err(DecodeError::InvalidTlvLength(3)));
    // Of several buffer sizes the last one counts.
    match decode(&extended(&lsp.raw, &[14, 2, 1, 0, 14, 2, 2, 0], 8)) {
        Ok(Pdu::Lsp(lsp)) => assert_eq!(lsp.tlvs.lsp_buf_size(), Some(0x200)),
        r => panic!("{:?}", r),
    }
}

#[test]
fn chunks_lose_nothing() {
    let addrs: Vec<Ipv4Addr> = (0..200).map(Ipv4Addr::from_bits).collect();
    let mut tlvs = LspTlvs::default();
    tlvs.protocols_supported = Some(EntriesTlv { list: vec![0xCC] });
    tlvs.lsp_buf_size = Some(LspBufferSizeTlv { size: 1492 });
    for chunk in addrs.chunks(50) {
        tlvs.ipv4_addrs.push(EntriesTlv { list: chunk.to_vec() });
    }
    // 3 octets of protocols, 4 of buffer size, and 202 of each group of
    // addresses: two groups fit in 411 octets.
    let first = tlvs.next_chunk(411).unwrap();
    assert_eq!(first.protocols_supported(), [0xCC]);
    assert_eq!(first.lsp_buf_size(), Some(1492));
    assert_eq!(first.ipv4_addrs.len(), 2);
    assert_eq!(tlvs.protocols_supported, None);
    assert_eq!(tlvs.lsp_buf_size, None);
    let second = tlvs.next_chunk(403).unwrap();
    assert_eq!(second.ipv4_addrs.len(), 1);
    assert_eq!(tlvs.next_chunk(201), None);
    assert_eq!(tlvs.ipv4_addrs.len(), 1);
    let third = tlvs.next_chunk(202).unwrap();
    assert_eq!(tlvs.next_chunk(202), None);
    assert_eq!(tlvs, LspTlvs::default());
    let all: Vec<Ipv4Addr> = [first, second, third]
        .iter()
        .flat_map(|t| t.ipv4_addrs().into_iter().copied().collect::<Vec<_>>())
        .collect();
    assert_eq!(all, addrs);
}

fn entry(n: u8) -> LspEntry {
    LspEntry { rem_lifetime: 1200, lsp_id: lsp_id(n), seqno: 7, cksum: 0xABCD }
}

#[test]
fn csnp_on_the_wire() {
    let csnp = Pdu::Snp(Snp::new(
        LevelNumber::L2,
        lan_id(1),
        Some((lsp_id(0), lsp_id(255))),
        SnpTlvs::new(vec![entry(1)]),
    ));
    let octets = [
        0x83, 33, 1, 0, 0x19, 1, 0, 0, 0, 51, // header and length
        0, 0, 0, 0, 0, 1, 1, // source
        0, 0, 0, 0, 0, 0, 0, 0, 0, 0, 0, 0, 0, 255, 0, 0, // range
        9, 16, 0x04, 0xB0, 0, 0, 0, 0, 0, 1, 0, 0, 0, 0, 0, 7, 0xAB, 0xCD,
    ];
    assert_eq!(csnp.pdu_type(), PduType::CsnpL2);
    assert_eq!(&csnp.encode()[..], &octets[..]);
    assert_eq!(decode(&octets), Ok(csnp));
    assert_eq!(decode(&with(&octets, 8, 1)), Err(DecodeError::InvalidPduLength(307)));
    assert_eq!(
        decode(&extended(&octets, &[9, 3, 0, 0, 0], 8)),
        Err(DecodeError::InvalidTlvLength(3))
    );
}

#[test]
fn psnp_round_trip() {
    for level in [LevelNumber::L1, LevelNumber::L2] {
        let psnp = Pdu::Snp(Snp::new(level, lan_id(3), None, SnpTlvs::new(vec![])));
        let octets = psnp.encode();
        assert_eq!(octets.len(), 17);
        assert_eq!(Pdu::decode(octets), Ok(psnp));
    }
}

#[test]
fn snp_types() {
    let new = |level, summary| {
        Snp::new(level, lan_id(1), summary, SnpTlvs::default()).hdr.pdu_type
    };
    let range = Some((lsp_id(1), lsp_id(2)));
    assert_eq!(new(LevelNumber::L1, None), PduType::PsnpL1);
    assert_eq!(new(LevelNumber::L2, None), PduType::PsnpL2);
    assert_eq!(new(LevelNumber::L1, range), PduType::CsnpL1);
    assert_eq!(new(LevelNumber::L2, range), PduType::CsnpL2);
}

#[test]
fn lsp_entries_are_fragmented() {
    let entries: Vec<LspEntry> = (0..32).map(entry).collect();
    let tlvs = SnpTlvs::new(entries.clone());
    assert_eq!(tlvs.lsp_entries.iter().map(|t| t.list.len()).collect::<Vec<_>>(), [15, 15, 2]);
    assert_eq!(tlvs.lsp_entries().into_iter().copied().collect::<Vec<_>>(), entries);
    let snp = Pdu::Snp(Snp::new(LevelNumber::L1, lan_id(1), None, tlvs));
    assert_eq!(Pdu::decode(snp.encode()), Ok(snp));
}

#[test]
fn max_lsp_entries_fill_the_room() {
    assert_eq!(SnpTlvs::max_lsp_entries(0), 0);
    assert_eq!(SnpTlvs::max_lsp_entries(17), 0);
    assert_eq!(SnpTlvs::max_lsp_entries(18), 1);
    assert_eq!(SnpTlvs::max_lsp_entries(241), 14);
    assert_eq!(SnpTlvs::max_lsp_entries(242), 15);
    assert_eq!(SnpTlvs::max_lsp_entries(259), 15);
    assert_eq!(SnpTlvs::max_lsp_entries(260), 16);
    assert_eq!(SnpTlvs::max_lsp_entries(1492 - 33), 90);
}

#[test]
fn lengths_are_known_beforehand() {
    let hello = Pdu::Hello(lan_hello());
    assert_eq!(hello.encoded_len(), Some(69));
    assert_eq!(lan_hello().len_within(69), Some(69));
    assert_eq!(lan_hello().len_within(68), None);
    assert_eq!(lan_hello().len_within(26), None);
    assert_eq!(Pdu::Lsp(small_lsp()).encoded_len(), Some(36));
    let tlvs = SnpTlvs::new((0..16).map(entry).collect());
    assert_eq!(tlvs.len_within(300), Some(260));
    let snp = Pdu::Snp(Snp::new(LevelNumber::L1, lan_id(1), None, tlvs));
    assert_eq!(snp.encoded_len(), Some(277));
    assert_eq!(snp.encode().len(), 277);
    let tlvs = full_tlvs();
    let lsp = Lsp::new(LevelNumber::L1, 1, lsp_id(1), 1, LspFlags { bits: 0 }, tlvs.clone());
    assert_eq!(tlvs.len_within(1000), Some(lsp.raw.len() - 27));
    assert_eq!(tlvs.len_within(10), None);
    // 4 octets of protocols, 4 of area addresses, 4 of buffer size.
    assert!(tlvs.singles_fit(12));
    assert!(!tlvs.singles_fit(11));
    assert!(!tlvs.singles_fit(3));
    // Without room for the area addresses there is some for the buffer size.
    assert!(!tlvs.singles_fit(7));
}

#[test]
fn unions_of_levels() {
    assert_eq!(LevelType::L1.union(LevelType::L1), LevelType::L1);
    assert_eq!(LevelType::L2.union(LevelType::L2), LevelType::L2);
    assert_eq!(LevelType::L1.union(LevelType::L2), LevelType::All);
    assert_eq!(LevelType::All.union(LevelType::L2), LevelType::All);
}
