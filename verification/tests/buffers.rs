//! Reading and writing integers and addresses.

use bytes::{Bytes, BytesMut};
use holo::utils::buf::{BytesExt, BytesMutExt, TryGetError};
use holo::utils::net::{IpAddr, Ipv4Addr, Ipv4Network, Ipv6Addr, Ipv6Network};

#[test]
fn u24_is_big_endian() {
    let mut buf = BytesMut::new();
    buf.put_u24(0x010203);
    assert_eq!(&buf[..], &[1, 2, 3]);
    let mut bytes = Bytes::from_static(&[1, 2, 3, 9]);
    assert_eq!(bytes.get_u24(), 0x010203);
    assert_eq!(&bytes[..], &[9]);
}

#[test]
fn u24_drops_the_most_significant_octet() {
    let mut buf = BytesMut::new();
    buf.put_u24(0xFF01_0203);
    assert_eq!(&buf[..], &[1, 2, 3]);
}

#[test]
fn u24_needs_three_octets() {
    let mut bytes = Bytes::from_static(&[1, 2]);
    assert_eq!(bytes.try_get_u24(), Err(TryGetError { requested: 3, available: 2 }));
    assert_eq!(&bytes[..], &[1, 2]);
    let mut bytes = Bytes::from_static(&[0, 1, 0]);
    assert_eq!(bytes.try_get_u24(), Ok(256));
    assert!(bytes.is_empty());
}

#[test]
fn ipv4_round_trip() {
    let addr = Ipv4Addr::from_bits(0xC0A8_0001);
    let mut buf = BytesMut::new();
    buf.put_ipv4(&addr);
    buf.put_ip(&IpAddr::V4(addr));
    assert_eq!(&buf[..], &[192, 168, 0, 1, 192, 168, 0, 1]);
    let mut bytes = buf.freeze();
    assert_eq!(bytes.get_ipv4(), addr);
    assert_eq!(bytes.try_get_ipv4(), Ok(addr));
    assert_eq!(bytes.try_get_ipv4(), Err(TryGetError { requested: 4, available: 0 }));
}

#[test]
fn ipv6_round_trip() {
    let addr = Ipv6Addr::from_bits(0x2001_0db8_0000_0000_0000_0000_0000_0001);
    let mut buf = BytesMut::new();
    buf.put_ipv6(&addr);
    buf.put_ip(&IpAddr::V6(addr));
    assert_eq!(buf.len(), 32);
    assert_eq!(&buf[..4], &[0x20, 0x01, 0x0d, 0xb8]);
    assert_eq!(buf[15], 1);
    let mut bytes = buf.freeze();
    assert_eq!(bytes.get_ipv6(), addr);
    assert_eq!(bytes.try_get_ipv6(), Ok(addr));
    assert_eq!(bytes.try_get_ipv6(), Err(TryGetError { requested: 16, available: 0 }));
}

#[test]
fn unspecified_address_stands_for_none() {
    let mut bytes = Bytes::from_static(&[0, 0, 0, 0, 10, 0, 0, 1, 0, 0, 0, 0, 10, 0, 0, 2]);
    assert_eq!(bytes.get_opt_ipv4(), None);
    assert_eq!(bytes.get_opt_ipv4(), Some(Ipv4Addr::from_bits(0x0A00_0001)));
    assert_eq!(bytes.try_get_opt_ipv4(), Ok(None));
    assert_eq!(bytes.try_get_opt_ipv4(), Ok(Some(Ipv4Addr::from_bits(0x0A00_0002))));
    assert_eq!(
        bytes.try_get_opt_ipv4(),
        Err(TryGetError { requested: 4, available: 0 })
    );
    let mut octets = vec![0; 32];
    octets[31] = 1;
    octets.extend([0; 16]);
    let mut bytes = Bytes::from(octets);
    assert_eq!(bytes.get_opt_ipv6(), None);
    assert_eq!(bytes.get_opt_ipv6(), Some(Ipv6Addr::from_bits(1)));
    assert_eq!(bytes.try_get_opt_ipv6(), Ok(None));
    assert_eq!(
        bytes.try_get_opt_ipv6(),
        Err(TryGetError { requested: 16, available: 0 })
    );
}

#[test]
fn networks_contain_their_addresses() {
    let net = Ipv4Network { addr: Ipv4Addr::from_bits(0x0A00_0032), prefix: 24 };
    assert!(net.contains(Ipv4Addr::from_bits(0x0A00_00FF)));
    assert!(!net.contains(Ipv4Addr::from_bits(0x0A00_01FF)));
    let all = Ipv4Network { addr: Ipv4Addr::from_bits(0), prefix: 0 };
    assert!(all.contains(Ipv4Addr::from_bits(0xFFFF_FFFF)));
    let host = Ipv4Network { addr: Ipv4Addr::from_bits(7), prefix: 32 };
    assert!(host.contains(Ipv4Addr::from_bits(7)));
    assert!(!host.contains(Ipv4Addr::from_bits(6)));

    let net = Ipv6Network { addr: Ipv6Addr::from_bits(1 << 64), prefix: 64 };
    assert!(net.contains(Ipv6Addr::from_bits((1 << 64) + 5)));
    assert!(!net.contains(Ipv6Addr::from_bits(5)));
    let all = Ipv6Network { addr: Ipv6Addr::from_bits(3), prefix: 0 };
    assert!(all.contains(Ipv6Addr::from_bits(1 << 127)));
}
