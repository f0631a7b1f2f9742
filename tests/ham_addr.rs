use arngll::{
    AddrError, Eui48, Eui64, HamAddr, HamAddrType, HamChar, HamCharChunk, InvalidChar,
    InvalidCharAt, InvalidChunk,
};

fn parse(s: &str) -> HamAddr {
    HamAddr::try_from_callsign(s).unwrap()
}

#[test]
fn test_ham_addr_parse_callsign() {
    let addr = parse("KZ2X-1");
    assert_eq!(addr.to_string(), "KZ2X-1");

    let addr = parse("");
    assert_eq!(addr.to_string(), "~");

    let addr = parse("~");
    assert_eq!(addr.to_string(), "~");

    let addr = parse("~ffff");
    assert_eq!(addr.to_string(), "~FFFF");

    let addr = parse("~FFFF");
    assert_eq!(addr.to_string(), "~FFFF");
}

#[test]
fn test_ham_addr_to_hex_string() {
    let addr = parse("KZ2X-1");
    assert_eq!(addr.to_addr_string(), "48ED-9C0C");

    let addr = parse("N6DRC");
    assert_eq!(addr.to_addr_string(), "5CAC-70F8");
    assert_eq!(addr.to_full_addr_string(), "5CAC-70F8-0000-0000");

    let addr = parse("VI2BMARC50");
    assert_eq!(addr.to_addr_string(), "8B05-0E89-7118-A8C0");

    let addr = parse("KJ6QOH/P");
    assert_eq!(addr.to_full_addr_string(), "4671-6CA0-E9C0-0000");
}

#[test]
fn low_bits_in_last_octets_follow_the_byte_mapping() {
    // "-23" leaves low bits set in the third chunk: the address does not fit
    // six octets, and its EUI-64 keeps every octet.
    let addr = parse("KJ6QOH-23");
    assert!(addr.try_to_eui48().is_err());
    let eui64 = addr.try_to_eui64().unwrap();
    assert_eq!(eui64.to_string(), "02:46:71:6c:a0:f2:26:00");
    assert_eq!(HamAddr::try_from_eui64(eui64).unwrap(), addr);

    let eui64 = Eui64([0x02, 0x46, 0x71, 0x6C, 0xA0, 0xF2, 0x20, 0x00]);
    assert_eq!(HamAddr::try_from_eui64(eui64).unwrap().to_string(), "KJ6QOH-2X");

    let addr = parse("KJ6QOH-99");
    let eui64 = addr.try_to_eui64().unwrap();
    assert_eq!(eui64.to_string(), "02:46:71:6c:a0:f3:44:00");
    assert_eq!(HamAddr::try_from_eui64(eui64).unwrap(), addr);
    assert!(addr.try_to_eui48().is_err());

    // a last octet with low bits set has no EUI-64
    let addr = parse("VI2BMARC50-1");
    assert!(addr.try_to_eui64().is_err());
    assert!(addr.try_to_eui48().is_err());
    let addr = parse("VI2BMARC50-X");
    let eui64 = addr.try_to_eui64().unwrap();
    assert_eq!(eui64.to_string(), "ca:8b:05:0e:89:71:18:ae");
    assert_eq!(HamAddr::try_from_eui64(eui64).unwrap(), addr);
    assert!(addr.try_to_eui48().is_err());

    let addr = parse("KJ6QOH-2X");
    let eui48 = addr.try_to_eui48().unwrap();
    assert_eq!(eui48.to_string(), "22:46:71:6c:a0:f2");
    assert_eq!(HamAddr::try_from_eui48(eui48).unwrap(), addr);
}

#[test]
fn test_ham_addr_to_eui64() {
    let addr = parse("KZ2X-1");
    let eui64 = addr.try_to_eui64().unwrap();
    assert_eq!(eui64.to_string(), "02:48:ed:ff:fe:9c:0c:00");
    let addr = HamAddr::try_from_eui64(eui64).unwrap();
    assert_eq!(addr.to_string(), "KZ2X-1");
    let eui64 = addr.try_to_eui64().unwrap();
    assert_eq!(eui64.to_string(), "02:48:ed:ff:fe:9c:0c:00");

    let addr = parse("AC2OI");
    let eui64 = addr.try_to_eui64().unwrap();
    assert_eq!(eui64.to_string(), "02:06:d5:ff:fe:5f:28:00");

    let addr = parse("WB3KUZ-111");
    let eui64 = addr.try_to_eui64().unwrap();
    assert_eq!(eui64.to_string(), "02:90:2e:48:22:f1:fc:af");

    let addr = parse("VI2BMARC50");
    let eui64 = addr.try_to_eui64().unwrap();
    assert_eq!(eui64.to_string(), "c2:8b:05:0e:89:71:18:a8");
    let addr = HamAddr::try_from_eui64(eui64).unwrap();
    assert_eq!(addr.to_string(), "VI2BMARC50");
    let eui64 = addr.try_to_eui64().unwrap();
    assert_eq!(eui64.to_string(), "c2:8b:05:0e:89:71:18:a8");

    let addr = HamAddr::broadcast();
    let eui64 = addr.try_to_eui64().unwrap();
    assert_eq!(eui64, Eui64::broadcast());

    let addr = HamAddr::empty();
    let eui64 = addr.try_to_eui64().unwrap();
    assert_eq!(eui64, Eui64::empty());
}

#[test]
fn test_ham_addr_to_eui48() {
    let addr = parse("KZ2X-1");
    let eui48 = addr.try_to_eui48().unwrap();
    assert_eq!(eui48.to_string(), "02:48:ed:9c:0c:00");

    let addr = HamAddr::try_from_eui48(eui48).unwrap();
    assert_eq!(addr.to_string(), "KZ2X-1");

    let addr = parse("AC2OI");
    let eui48 = addr.try_to_eui48().unwrap();
    assert_eq!(eui48.to_string(), "02:06:d5:5f:28:00");

    let addr = parse("WB3KUZ-1");
    let eui48 = addr.try_to_eui48().unwrap();
    assert_eq!(eui48.to_string(), "e2:90:2e:48:22:f1");
    let addr = HamAddr::try_from_eui48(eui48).unwrap();
    assert_eq!(addr.to_string(), "WB3KUZ-1");

    let addr = parse("NA1SS");
    let eui48 = addr.try_to_eui48().unwrap();
    assert_eq!(eui48.to_string(), "02:57:c4:79:b8:00");
    let addr = HamAddr::try_from_eui48(eui48).unwrap();
    assert_eq!(addr.to_string(), "NA1SS");

    let addr = parse("VI2BMARC50");
    let not_eui48 = addr.try_to_eui48();
    assert!(matches!(not_eui48, Err(_)));

    let addr = HamAddr::broadcast();
    let eui48 = addr.try_to_eui48().unwrap();
    assert_eq!(eui48, Eui48::broadcast());

    let addr = HamAddr::empty();
    let eui48 = addr.try_to_eui48().unwrap();
    assert_eq!(eui48, Eui48::empty());

    let addr = HamAddr::from_chunks([0xFAFB, 0, 0, 0]);
    let eui48 = addr.try_to_eui48().unwrap();
    assert_eq!(eui48.to_string(), "cc:cc:00:00:00:fb");

    let addr = HamAddr::from_chunks([0xFBFB, 0, 0, 0]);
    let eui48 = addr.try_to_eui48().unwrap();
    assert_eq!(eui48.to_string(), "01:00:5e:00:00:fb");
}

#[test]
fn test_from_eiu48_for_eui64() {
    let eui48 = Eui48::new([1, 2, 3, 4, 5, 6]);
    let eui64 = Eui64::from_eui48(&eui48);
    assert_eq!(eui64.0, [1, 2, 3, 0xFF, 0xFE, 4, 5, 6]);
}

#[test]
fn test_to_str_eui48() {
    let eui = Eui48::new([1, 2, 3, 4, 5, 6]);
    let s = eui.to_string();
    assert_eq!(s, "01:02:03:04:05:06");
}

#[test]
fn test_to_str_eui64() {
    let eui = Eui64::new([1, 2, 3, 4, 5, 6, 0x77, 0x88]);
    let s = eui.to_string();
    assert_eq!(s, "01:02:03:04:05:06:77:88");
}

#[test]
fn eui64_back_to_eui48_only_with_filler() {
    let eui64 = Eui64::new([1, 2, 3, 0xFF, 0xFE, 4, 5, 6]);
    assert_eq!(eui64.try_to_eui48(), Some(Eui48::new([1, 2, 3, 4, 5, 6])));
    let eui64 = Eui64::new([1, 2, 3, 0xFF, 0xFF, 4, 5, 6]);
    assert_eq!(eui64.try_to_eui48(), None);
}

#[test]
fn eui_scenarios_both_ways() {
    let kz2x = parse("KZ2X-1");
    let e = Eui64::new([0x02, 0x48, 0xED, 0xFF, 0xFE, 0x9C, 0x0C, 0x00]);
    assert_eq!(kz2x.try_to_eui64().unwrap(), e);
    assert_eq!(HamAddr::try_from_eui64(e).unwrap(), kz2x);

    let vi2 = parse("VI2BMARC50");
    let e = Eui64::new([0xC2, 0x8B, 0x05, 0x0E, 0x89, 0x71, 0x18, 0xA8]);
    assert_eq!(vi2.try_to_eui64().unwrap(), e);
    assert_eq!(HamAddr::try_from_eui64(e).unwrap(), vi2);
    assert_eq!(vi2.try_to_eui48(), Err(AddrError::Unconvertible));

    let na1ss = parse("NA1SS");
    let e = Eui48::new([0x02, 0x57, 0xC4, 0x79, 0xB8, 0x00]);
    assert_eq!(na1ss.try_to_eui48().unwrap(), e);
    assert_eq!(HamAddr::try_from_eui48(e).unwrap(), na1ss);

    let b = Eui64::new([0xFF; 8]);
    assert_eq!(HamAddr::broadcast().try_to_eui64().unwrap(), b);
    assert_eq!(HamAddr::try_from_eui64(b).unwrap(), HamAddr::broadcast());
}

#[test]
fn eui_multicast_groups_map_back() {
    let v4 = Eui48::new([0x01, 0x00, 0x5E, 0x01, 0x02, 0x03]);
    let a = HamAddr::try_from_eui48(v4).unwrap();
    assert_eq!(a.octets(), [0xFB, 0x03, 0x02, 0x01, 0, 0, 0, 0]);
    assert_eq!(a.get_type(), HamAddrType::Ipv4Multicast);
    assert_eq!(a.try_to_eui48().unwrap(), v4);
    assert!(a.try_to_eui64().is_err());

    let v6 = Eui48::new([0xCC, 0xCC, 0x01, 0x02, 0x03, 0x04]);
    let a = HamAddr::try_from_eui48(v6).unwrap();
    assert_eq!(a.octets(), [0xFA, 0x04, 0x03, 0x02, 0x01, 0, 0, 0]);
    assert_eq!(a.get_type(), HamAddrType::Ipv6Multicast);
    assert_eq!(a.try_to_eui48().unwrap(), v6);
}

#[test]
fn eui_without_local_marker_is_refused() {
    let e = Eui64::new([0x00, 0x48, 0xED, 0xFF, 0xFE, 0x9C, 0x0C, 0x00]);
    assert_eq!(HamAddr::try_from_eui64(e), Err(AddrError::Unconvertible));
    let e = Eui48::new([0x04, 0x48, 0xED, 0x9C, 0x0C, 0x00]);
    assert_eq!(HamAddr::try_from_eui48(e), Err(AddrError::Unconvertible));
}

#[test]
fn callsign_round_trips_through_text() {
    for s in ["KZ2X-1", "n6drc", "VI2BMARC50", "KJ6QOH/P", "A", "WB3KUZ-111", "AB1CDE2FGH3I"] {
        let a = parse(s);
        assert_eq!(parse(&a.to_string()), a);
    }
    assert_eq!(parse("n6drc").to_string(), "N6DRC");
}

#[test]
fn callsign_parse_errors() {
    assert_eq!(HamAddr::try_from_callsign("AB?"), Err(AddrError::InvalidCharAt(2)));
    assert_eq!(HamAddr::try_from_callsign("ABCDEFGHIJKLM"), Err(AddrError::TooLong));
    assert_eq!(HamAddr::try_from_callsign("~1234"), Err(AddrError::UnsupportedNotation));
    assert_eq!(HamAddr::try_from_callsign("~fFFF"), Err(AddrError::UnsupportedNotation));
    assert_eq!(HamAddr::try_from_callsign("ABCDEFGHIJKL?"), Err(AddrError::TooLong));
    assert_eq!(HamAddr::try_from_callsign("ABCDEFGHIJK?Z"), Err(AddrError::InvalidCharAt(11)));
}

#[test]
fn address_types_and_lengths() {
    assert_eq!(HamAddr::empty().get_type(), HamAddrType::Empty);
    assert!(HamAddr::empty().is_empty());
    assert_eq!(HamAddr::empty().len(), 2);
    assert!(HamAddr::broadcast().is_broadcast());
    assert!(HamAddr::broadcast().is_multicast_or_broadcast());
    let short = HamAddr::try_from_shortaddr(48).unwrap();
    assert_eq!(short.get_type(), HamAddrType::Short);
    assert_eq!(short.shortaddr(), Some(48));
    assert!(short.is_unicast());
    assert_eq!(HamAddr::try_from_shortaddr(0x0640), None);
    assert_eq!(HamAddr::from_chunks([0x0100, 0x0700, 0, 0]).get_type(), HamAddrType::Reserved);
    assert!(HamAddr::from_chunks([0xFC00, 0, 0, 0]).is_reserved());
    let kj = HamAddr::new([0x46, 0x71, 0x6C, 0xA0, 0, 0, 0, 0]);
    assert_eq!(kj.to_string(), "KJ6QOH");
    assert!(kj.is_callsign());
    assert_eq!(kj.len(), 4);
    assert_eq!(kj.as_trimmed_slice(), &[0x46, 0x71, 0x6C, 0xA0]);
    assert_eq!(kj.chunks(), [0x4671, 0x6CA0, 0, 0]);
    assert_eq!(kj.as_slice(), &[0x46, 0x71, 0x6C, 0xA0, 0, 0, 0, 0]);
    assert_eq!(HamAddr::from_chunks([0x4671, 0x6CA0, 0, 0]), kj);
    assert_eq!(HamAddr::from_chunks([0xFC00, 0x1234, 0, 0]).to_string(), "~FC00-1234");
}

#[test]
fn address_from_slices() {
    let a = HamAddr::try_from_slice(&[0x46, 0x71, 0x6C, 0xA0]).unwrap();
    assert_eq!(a.to_string(), "KJ6QOH");
    assert_eq!(HamAddr::try_from_slice(&[1, 2, 3]), Err(AddrError::InvalidLength));
    assert_eq!(HamAddr::try_from_slice(&[0; 10]), Err(AddrError::InvalidLength));
    assert_eq!(HamAddr::try_from_slice(&[]).unwrap(), HamAddr::empty());
}

#[test]
fn ham_chars() {
    let c = HamChar::from_ascii_byte(b'3').unwrap();
    assert_eq!(c.index(), 30);
    assert_eq!(c.to_ascii_byte(), b'3');
    assert!(HamChar::from_ascii_byte(b'?').is_none());
    assert_eq!(HamChar::from_char('0').unwrap().index(), 27);
    assert_eq!(HamChar::from_char('a').unwrap().to_char(), 'A');
    assert_eq!(HamChar::from_char('\x00').unwrap().to_char(), '\u{2400}');
    assert!(HamChar::from_char('\x00').unwrap().is_nul());
    assert!(HamChar::from_char('^').unwrap().is_esc());
    assert_eq!(HamChar::from_char('/').unwrap().index(), 37);
    assert_eq!(HamChar::from_char('-').unwrap().index(), 38);
    assert!(HamChar::from_char('\u{e9}').is_none());
}

#[test]
fn chunks_of_three_characters() {
    let c = HamCharChunk::try_from_chars(['K', 'j', '6']).unwrap();
    assert_eq!(c.to_u16(), 0x4671);
    let back = HamCharChunk::try_from_u16(0x4671).unwrap();
    assert_eq!(back, c);
    assert_eq!(HamCharChunk::try_from_u16(0).unwrap().to_u16(), 0);
    assert_eq!(HamCharChunk::try_from_u16(0x063F), Err(InvalidChunk));
    assert_eq!(HamCharChunk::try_from_u16(0xFA00), Err(InvalidChunk));
    assert_eq!(HamCharChunk::try_from_u16(0xF9FF).unwrap().to_u16(), 0xF9FF);
    assert_eq!(HamCharChunk::try_from_chars(['A', '?', '!']), Err(InvalidCharAt(1)));
    assert_eq!(HamChar::try_from_char('?'), Err(InvalidChar));
    assert_eq!(HamChar::try_from_u8(b'z').unwrap().index(), 26);
}
