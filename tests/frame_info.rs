use arngll::{
    FrameInfo, FrameType, HamAddr, KeyIdentMode, Mic, MicLen, NetworkId, NullSecurityContext,
    ParseError, SecInfo, SecurityError,
};

fn addr(s: &str) -> HamAddr {
    HamAddr::try_from_callsign(s).unwrap()
}

#[test]
fn frame_info_1() {
    let frame = FrameInfo {
        frame_type: FrameType::Data,
        dst_addr: addr("X1X"),
        src_addr: addr("HUXLEY"),
        ..FrameInfo::empty()
    };
    let payload = b"Payload";

    println!("frame: {:?}", frame);
    let bytes = frame.bytes_with_payload(payload);

    let (decoded_frame, decoded_payload) = FrameInfo::try_from_bytes(&bytes).unwrap();

    assert_eq!(frame, decoded_frame);
    assert_eq!(payload, decoded_payload);
}

#[test]
fn frame_info_2() {
    let frame = FrameInfo {
        frame_type: FrameType::Data,
        dst_addr: addr("X1X"),
        src_addr: addr("HUXLEY"),
        rly_addr: Some(addr("RAD-RELAY")),
        sec_info: Some(SecInfo {
            enc: false,
            kim: KeyIdentMode::Addresses,
            fcntr: 0x31337,
            kid: None,
            mic: Mic::default(),
        }),
        ..FrameInfo::empty()
    };
    let payload = &[0xffu8, 0x00, 0x00, 0x00, 0xff];

    let bytes = frame.bytes_with_payload(payload);

    println!("frame: {:?}", frame);
    println!("frame.fcf: {:02x}{:02x}", frame.fcf_msb(), frame.fcf_lsb().unwrap());
    println!("bytes: {}", hex::encode(&bytes));
    let (decoded_frame, decoded_payload) = FrameInfo::try_from_bytes(&bytes).unwrap();

    println!(
        "decoded_frame.fcf: {:02x}{:02x}",
        decoded_frame.fcf_msb(),
        decoded_frame.fcf_lsb().unwrap()
    );

    assert_eq!(frame, decoded_frame);
    assert_eq!(payload, decoded_payload);
}

#[test]
fn frame_info_3() {
    let frame = FrameInfo {
        frame_type: FrameType::Data,
        ack_requested: true,
        is_from_relay: true,
        network_id: Some(NetworkId(0x1234)),
        dst_addr: addr("X1X"),
        src_addr: addr("HUXLEY"),
        rly_addr: Some(addr("RAD-RELAY")),
        sec_info: Some(SecInfo {
            enc: true,
            kim: KeyIdentMode::KeyIndex,
            fcntr: 0x31337,
            kid: Some(6),
            mic: Mic::default(),
        }),
        ..FrameInfo::empty()
    };
    let payload = &[0xffu8, 0x00, 0x00, 0x00, 0xff];

    let bytes = frame.bytes_with_payload(payload);

    println!("frame: {:?}", frame);
    println!("frame.fcf: {:02x}{:02x}", frame.fcf_msb(), frame.fcf_lsb().unwrap());
    println!("bytes: {}", hex::encode(&bytes));
    let (decoded_frame, decoded_payload) = FrameInfo::try_from_bytes(&bytes).unwrap();

    println!(
        "decoded_frame.fcf: {:02x}{:02x}",
        decoded_frame.fcf_msb(),
        decoded_frame.fcf_lsb().unwrap()
    );

    assert_eq!(frame, decoded_frame);
    assert_eq!(payload, decoded_payload);
}

#[test]
fn frame_info_ack() {
    let frame = FrameInfo {
        frame_type: FrameType::Ack,
        src_addr: addr("HUXLEY"),
        ack_crc: 0xbeef,
        ..FrameInfo::empty()
    };
    let payload: &[u8] = &[];

    let bytes = frame.bytes_with_payload(payload);
    println!("frame: {:?}", frame);
    println!("frame.fcf: {:02x}XX", frame.fcf_msb());
    assert!(frame.fcf_lsb().is_none());

    println!("bytes: {}", hex::encode(&bytes));
    let (decoded_frame, decoded_payload) = FrameInfo::try_from_bytes(&bytes).unwrap();

    println!("decoded_frame.fcf: {:02x}XX", decoded_frame.fcf_msb());
    assert!(decoded_frame.fcf_lsb().is_none());

    assert_eq!(frame, decoded_frame);
    assert_eq!(payload, decoded_payload);
}

#[test]
fn frame_test_vec_1() {
    let bytes = hex::decode("054013375CAC70F85CB626E8062839414D2D54414B002918FA9C").unwrap();

    let (decoded_frame, decoded_payload) = FrameInfo::try_from_bytes(&bytes).unwrap();

    let frame = FrameInfo {
        frame_type: FrameType::Beacon,
        network_id: Some(NetworkId(0x1337)),
        dst_addr: addr("N6DRC"),
        src_addr: addr("N6NFI"),
        ..FrameInfo::empty()
    };
    let payload = &[0x06u8, 0x28, 0x39, 0x41, 0x4D, 0x2D, 0x54, 0x41, 0x4B, 0x00, 0x29, 0x18, 0xFA, 0x9C];

    assert_eq!(frame, decoded_frame);
    assert_eq!(payload, decoded_payload);
}

#[test]
fn frame_exact_octets() {
    let frame = FrameInfo {
        frame_type: FrameType::Beacon,
        network_id: Some(NetworkId(0x1337)),
        dst_addr: addr("N6DRC"),
        src_addr: addr("N6NFI"),
        ..FrameInfo::empty()
    };
    let payload = [0x06u8, 0x28, 0x39, 0x41, 0x4D, 0x2D, 0x54, 0x41, 0x4B, 0x00, 0x29, 0x18, 0xFA, 0x9C];
    assert_eq!(frame.fcf_msb(), 0x05);
    assert_eq!(frame.fcf_lsb(), Some(0x40));
    assert_eq!(
        hex::encode_upper(frame.to_vec(&payload)),
        "054013375CAC70F85CB626E8062839414D2D54414B002918FA9C"
    );
}

#[test]
fn ack_frame_octets() {
    let frame = FrameInfo {
        frame_type: FrameType::Ack,
        src_addr: addr("HUXLEY"),
        ack_crc: 0xbeef,
        ..FrameInfo::empty()
    };
    let bytes = frame.bytes_with_payload(&[]);
    assert_eq!(bytes.len(), 1 + 4 + 2);
    assert_eq!(bytes[0], 0x21);
    assert_eq!(&bytes[5..], &[0xBE, 0xEF]);
}

#[test]
fn parse_errors() {
    assert_eq!(FrameInfo::try_from_bytes(&[0x01, 0x00, 0x00, 0x00]), Err(ParseError::TooShort));
    assert_eq!(
        FrameInfo::try_from_bytes(&[0x80, 0x00, 0x00, 0x00, 0x00, 0x00]),
        Err(ParseError::BadVersion)
    );
    // a destination of eight octets does not fit
    assert_eq!(
        FrameInfo::try_from_bytes(&[0x1C, 0x00, 0x00, 0x00, 0x00, 0x00]),
        Err(ParseError::Truncated)
    );
    // a security header whose MIC does not fit
    assert_eq!(
        FrameInfo::try_from_bytes(&[0x10, 0x80, 0x00, 0x01, 0x00, 0x02, 0x60, 0, 0, 0, 1]),
        Err(ParseError::Truncated)
    );
    // version 1 is accepted
    assert!(FrameInfo::try_from_bytes(&[0x50, 0x00, 0x00, 0x01, 0x00, 0x02]).is_ok());
}

#[test]
fn mic_lengths() {
    let m = Mic::try_from_slice(&[1, 2, 3, 4, 5, 6, 7, 8]).unwrap();
    assert_eq!(m.len, MicLen::Mic64);
    assert_eq!(m.len(), 8);
    assert_eq!(m.as_slice(), &[1, 2, 3, 4, 5, 6, 7, 8]);
    assert_eq!(m.bytes(), vec![1, 2, 3, 4, 5, 6, 7, 8]);
    assert!(Mic::try_from_slice(&[1, 2, 3]).is_none());
    assert!(Mic::try_from_slice(&[0; 20]).is_none());
    assert_eq!(MicLen::try_from_u8(3), Some(MicLen::Mic128));
    assert_eq!(MicLen::Mic96.to_u8(), 2);
    assert_eq!(MicLen::try_from_u8(4), None);
}

#[test]
fn codes_of_enums() {
    assert_eq!(FrameType::try_from_u8(2), Some(FrameType::Ack));
    assert_eq!(FrameType::try_from_u8(7), None);
    assert_eq!(FrameType::MacCommand.to_u8(), 3);
    assert_eq!(KeyIdentMode::try_from_u8(1), Some(KeyIdentMode::KeyIndex));
    assert_eq!(KeyIdentMode::Reserved3.to_u8(), 3);
    assert_eq!(KeyIdentMode::try_from_u8(9), None);
    assert_eq!(NetworkId::from_iter(&[0x12, 0x34]), NetworkId(0x1234));
}

#[test]
fn security_header_octets() {
    let s = SecInfo {
        enc: true,
        kim: KeyIdentMode::KeyIndex,
        fcntr: 0x01020304,
        kid: Some(6),
        mic: Mic { len: MicLen::Mic64, code: [0; 16] },
    };
    assert_eq!(s.scf(), 0x80 | 0x20 | 0x08);
    assert_eq!(s.bytes(), vec![0xA8, 1, 2, 3, 4, 6]);
    let back = SecInfo::from_iter(&s.bytes());
    assert_eq!(back, s);
}

#[test]
fn ack_generation() {
    let frame = FrameInfo {
        frame_type: FrameType::Data,
        ack_requested: true,
        dst_addr: addr("N6DRC"),
        src_addr: addr("N6NFI"),
        ..FrameInfo::empty()
    };
    let payload = b"hi";
    let (crc, sender) = frame.ack_calc(payload).unwrap();
    assert_eq!(crc, arngll::x25_digest(&frame.to_vec(payload)));
    assert_eq!(sender, addr("N6DRC"));
    let ack = frame.generate_ack_frame(payload).unwrap();
    assert_eq!(ack.frame_type, FrameType::Ack);
    assert_eq!(ack.src_addr, addr("N6DRC"));
    assert_eq!(ack.ack_crc, crc);
    assert_eq!(ack.dst_addr, HamAddr::empty());

    let relayed = FrameInfo {
        is_from_relay: true,
        rly_addr: Some(addr("RAD-RELAY")),
        ..frame
    };
    assert_eq!(relayed.ack_calc(payload).unwrap().1, addr("RAD-RELAY"));

    let quiet = FrameInfo { ack_requested: false, ..frame };
    assert!(quiet.ack_calc(payload).is_none());
    assert!(quiet.generate_ack_frame(payload).is_none());
}

#[test]
fn null_security_context() {
    let ctx = NullSecurityContext;
    let mut frame = FrameInfo {
        sec_info: Some(SecInfo {
            enc: false,
            kim: KeyIdentMode::Addresses,
            fcntr: 1,
            kid: None,
            mic: Mic::default(),
        }),
        ..FrameInfo::empty()
    };
    assert_eq!(ctx.check_inbound(&frame), Err(SecurityError::SecInfoPresent));
    assert_eq!(ctx.strip_outbound(&mut frame), Ok(()));
    assert!(frame.sec_info.is_none());
    assert_eq!(ctx.check_inbound(&frame), Ok(()));
}
