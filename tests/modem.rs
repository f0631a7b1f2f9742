use arngll::{
    bell_202_line_levels, cca_poll, cca_start_send, Bell202Deframer, DecimationClock, SendError,
    SendReadiness,
    append_crc, bits_lsb, check_crc, hdlc_encode, mac_receive, strip_crc, x25_digest,
    Ax25Debug, BitSampler, FilterType, FrameCollector, FrameInfo, FrameSignal, FrameType,
    HamAddr, HdlcDecode, HdlcEncoderIter, LsbIterator, MacVerdict, MsbIterator, NetworkId,
    NrziDecode, NrziEncode, X25_RESIDUE,
};

const AX25_HEX: &str = "82a0aa646a9ce0ae8270989a8c60ae92888a62406303f03e3230323333377a687474703a2f2f7761386c6d662e636f6d0df782";

#[test]
fn hdlc_decode() {
    let mut decode = HdlcDecode::new();

    assert_eq!(decode.filter(false), None);
    assert_eq!(decode.filter(true), None);
    assert_eq!(decode.filter(false), None);
    assert_eq!(decode.filter(true), None);
    assert_eq!(decode.filter(false), None);
    assert_eq!(decode.filter(true), None);
    assert_eq!(decode.filter(true), None);
    assert_eq!(decode.filter(true), None);
    assert_eq!(decode.filter(true), None);
    assert_eq!(decode.filter(true), None);
    assert_eq!(decode.filter(true), None);
    assert_eq!(decode.filter(true), None);
    assert_eq!(decode.filter(true), None);

    assert_eq!(decode.filter(false), None);
    assert_eq!(decode.filter(true), None);
    assert_eq!(decode.filter(true), None);
    assert_eq!(decode.filter(true), None);
    assert_eq!(decode.filter(true), None);
    assert_eq!(decode.filter(true), None);
    assert_eq!(decode.filter(true), None);
    assert_eq!(decode.filter(false), Some(FrameSignal::FrameMarker));
    assert_eq!(decode.filter(true), None);
    assert_eq!(decode.filter(true), None);
    assert_eq!(decode.filter(true), None);
    assert_eq!(decode.filter(true), None);
    assert_eq!(decode.filter(true), None);
    assert_eq!(decode.filter(true), None);
    assert_eq!(decode.filter(false), Some(FrameSignal::FrameMarker));
    assert_eq!(decode.filter(false), None);
    assert_eq!(decode.filter(true), None);
    assert_eq!(decode.filter(true), None);
    assert_eq!(decode.filter(true), None);
    assert_eq!(decode.filter(true), None);
    assert_eq!(decode.filter(true), None);
    assert_eq!(decode.filter(true), None);
    assert_eq!(decode.filter(false), Some(FrameSignal::FrameMarker));

    assert_eq!(decode.filter(false), None);
    assert_eq!(decode.filter(false), None);
    assert_eq!(decode.filter(false), None);
    assert_eq!(decode.filter(false), None);
    assert_eq!(decode.filter(true), None);
    assert_eq!(decode.filter(true), None);
    assert_eq!(decode.filter(true), None);
    assert_eq!(decode.filter(true), Some(FrameSignal::Octet(0xF0)));

    assert_eq!(decode.filter(true), None);
    assert_eq!(decode.filter(false), None);
    assert_eq!(decode.filter(true), None);
    assert_eq!(decode.filter(true), None);
    assert_eq!(decode.filter(true), None);
    assert_eq!(decode.filter(false), None);
    assert_eq!(decode.filter(false), None);
    assert_eq!(decode.filter(false), None);
    assert_eq!(decode.filter(false), Some(FrameSignal::Octet(0x0F)));

    assert_eq!(decode.filter(false), None);
    assert_eq!(decode.filter(true), None);
    assert_eq!(decode.filter(true), None);
    assert_eq!(decode.filter(true), None);
    assert_eq!(decode.filter(true), None);
    assert_eq!(decode.filter(true), None);
    assert_eq!(decode.filter(true), None);
    assert_eq!(decode.filter(false), Some(FrameSignal::FrameMarker));

    assert_eq!(decode.filter(true), None);
    assert_eq!(decode.filter(true), None);
    assert_eq!(decode.filter(true), None);
    assert_eq!(decode.filter(true), None);
    assert_eq!(decode.filter(true), None);
    assert_eq!(decode.filter(true), None);
    assert_eq!(decode.filter(true), Some(FrameSignal::DecodeError));

    assert_eq!(decode.filter(false), None);
    assert_eq!(decode.filter(true), None);
    assert_eq!(decode.filter(false), None);
    assert_eq!(decode.filter(true), None);
    assert_eq!(decode.filter(false), None);
    assert_eq!(decode.filter(true), None);
    assert_eq!(decode.filter(true), None);
    assert_eq!(decode.filter(true), None);
    assert_eq!(decode.filter(true), None);
    assert_eq!(decode.filter(true), None);
    assert_eq!(decode.filter(true), None);
    assert_eq!(decode.filter(true), None);
    assert_eq!(decode.filter(true), None);
}

#[test]
fn bit_extractor_decode() {
    let mut decode = BitSampler::new(20, 10);

    assert_eq!(decode.filter(Some(false)), Some(false));
    assert_eq!(decode.filter(Some(false)), None);
    assert_eq!(decode.filter(Some(false)), Some(false));
    assert_eq!(decode.filter(Some(false)), None);
    assert_eq!(decode.filter(Some(false)), Some(false));

    let mut decode = BitSampler::new(30, 10);

    assert_eq!(decode.filter(None), None);
    assert_eq!(decode.filter(None), None);
    assert_eq!(decode.filter(Some(false)), Some(false));
    assert_eq!(decode.filter(Some(false)), None);
    assert_eq!(decode.filter(Some(false)), None);
    assert_eq!(decode.filter(Some(false)), Some(false));
    assert_eq!(decode.filter(Some(false)), None);
    assert_eq!(decode.filter(Some(false)), None);
    assert_eq!(decode.filter(Some(false)), Some(false));
    assert_eq!(decode.filter(Some(true)), None);
    assert_eq!(decode.filter(Some(true)), None);
    assert_eq!(decode.filter(Some(true)), Some(true));
    assert_eq!(decode.filter(Some(true)), None);
    assert_eq!(decode.filter(Some(true)), None);
    assert_eq!(decode.filter(Some(true)), Some(true));
    assert_eq!(decode.filter(Some(true)), None);
    assert_eq!(decode.filter(Some(true)), None);
    assert_eq!(decode.filter(Some(true)), Some(true));
}

#[test]
fn test_append_crc() {
    let vec_golden: Vec<u8> = hex::decode(AX25_HEX).unwrap();

    let vec: Vec<u8> = hex::decode("82a0aa646a9ce0ae8270989a8c60ae92888a62406303f03e3230323333377a687474703a2f2f7761386c6d662e636f6d0d").unwrap();

    assert_eq!(vec_golden, append_crc(&vec));
}

#[test]
fn msb_bit_iterator() {
    let vec = vec![0x0Fu8, 0xF0u8];
    let mut bit_iter = MsbIterator::new(vec);

    assert_eq!(bit_iter.next(), Some(false));
    assert_eq!(bit_iter.next(), Some(false));
    assert_eq!(bit_iter.next(), Some(false));
    assert_eq!(bit_iter.next(), Some(false));
    assert_eq!(bit_iter.next(), Some(true));
    assert_eq!(bit_iter.next(), Some(true));
    assert_eq!(bit_iter.next(), Some(true));
    assert_eq!(bit_iter.next(), Some(true));
    assert_eq!(bit_iter.next(), Some(true));
    assert_eq!(bit_iter.next(), Some(true));
    assert_eq!(bit_iter.next(), Some(true));
    assert_eq!(bit_iter.next(), Some(true));
    assert_eq!(bit_iter.next(), Some(false));
    assert_eq!(bit_iter.next(), Some(false));
    assert_eq!(bit_iter.next(), Some(false));
    assert_eq!(bit_iter.next(), Some(false));
    assert_eq!(bit_iter.next(), None);
}

#[test]
fn lsb_bit_iterator() {
    let vec = vec![0xf0u8, 0x0fu8];
    let mut bit_iter = LsbIterator::new(vec);

    assert_eq!(bit_iter.next(), Some(false));
    assert_eq!(bit_iter.next(), Some(false));
    assert_eq!(bit_iter.next(), Some(false));
    assert_eq!(bit_iter.next(), Some(false));
    assert_eq!(bit_iter.next(), Some(true));
    assert_eq!(bit_iter.next(), Some(true));
    assert_eq!(bit_iter.next(), Some(true));
    assert_eq!(bit_iter.next(), Some(true));
    assert_eq!(bit_iter.next(), Some(true));
    assert_eq!(bit_iter.next(), Some(true));
    assert_eq!(bit_iter.next(), Some(true));
    assert_eq!(bit_iter.next(), Some(true));
    assert_eq!(bit_iter.next(), Some(false));
    assert_eq!(bit_iter.next(), Some(false));
    assert_eq!(bit_iter.next(), Some(false));
    assert_eq!(bit_iter.next(), Some(false));
    assert_eq!(bit_iter.next(), None);
}

#[test]
fn nrzi_pipe() {
    let mut encode = NrziEncode::new();
    let mut decode = NrziDecode::new();
    let mut chained = |x: bool| decode.filter(encode.filter(x));

    assert_eq!(chained(true), true);
    assert_eq!(chained(false), false);
    assert_eq!(chained(true), true);
    assert_eq!(chained(false), false);
    assert_eq!(chained(true), true);
    assert_eq!(chained(false), false);
    assert_eq!(chained(false), false);
    assert_eq!(chained(false), false);
    assert_eq!(chained(true), true);
    assert_eq!(chained(true), true);
    assert_eq!(chained(true), true);
    assert_eq!(chained(false), false);
    assert_eq!(chained(true), true);
}

#[test]
fn nrzi_runs_round_trip_from_second_bit() {
    let bits = vec![true, false, false, true, true, false, true, false, false, false];
    let mut enc = NrziEncode { last: true };
    let levels = enc.encode(&bits);
    assert_eq!(levels, vec![true, false, true, true, true, false, false, true, false, true]);
    let mut dec = NrziDecode { last: true };
    let back = dec.decode(&levels);
    assert_eq!(back[1..], bits[1..]);
    let mut dec = NrziDecode { last: false };
    let back = dec.decode(&levels);
    assert_eq!(back[1..], bits[1..]);
    assert_ne!(back[0], bits[0]);
}

#[test]
fn test_ax25_debug_decode() {
    let vec: Vec<u8> = hex::decode(AX25_HEX).unwrap();
    assert!(Ax25Debug(&vec).is_ax25());
    assert_eq!(
        Ax25Debug(&vec).to_debug_string(),
        "[APU25NpWA8LMF0WIDE1 1]..>202337zhttp://wa8lmf.com..."
    );
}

#[test]
fn ax25_parts() {
    let v = [0x82u8, 0x83, b'a', b'\\', 0x01];
    let d = Ax25Debug(&v);
    assert_eq!(d.addr_len(), 2);
    assert_eq!(d.addr_bytes(), &[0x82, 0x83]);
    assert_eq!(d.payload_bytes(), &[b'a', b'\\', 0x01]);
    assert_eq!(d.addr_escaped_ascii(), b"AA".to_vec());
    assert_eq!(d.payload_escaped_ascii(), b"a\\\\.".to_vec());
    assert!(!d.is_ax25());
    let all_even = [2u8, 4, 6];
    assert_eq!(Ax25Debug(&all_even).addr_len(), 3);
}

/// Feeds a bit stream through the HDLC decoder and the frame collector.
fn deframe(bits: &[bool]) -> Vec<Vec<u8>> {
    let mut dec = HdlcDecode::new();
    let mut col = FrameCollector::new();
    let mut frames = Vec::new();
    for &b in bits {
        if let Some(f) = col.filter(dec.filter_opt(Some(b))) {
            frames.push(f);
        }
    }
    frames
}

#[test]
fn hdlc_stuffing_round_trip() {
    for data in [
        vec![0x7Eu8, 0xFF, 0xFF, 0x00, 0x3E, 0x1F],
        hex::decode(AX25_HEX).unwrap(),
        vec![0xFF; 9],
        vec![0x01],
    ] {
        let bits = bits_lsb(&data);
        let wire = hdlc_encode(bits);
        assert_eq!(deframe(&wire), vec![data]);
    }
}

#[test]
fn hdlc_encoder_layout() {
    let wire = hdlc_encode(vec![true, true, true, true, true, true, false]);
    let flag = [false, true, true, true, true, true, true, false];
    for k in 0..15 {
        assert_eq!(wire[8 * k..8 * k + 8], flag);
    }
    assert_eq!(wire[120..128], [true, true, true, true, true, false, true, false]);
    assert_eq!(wire[128..], [flag, flag].concat()[..]);

    let mut it = HdlcEncoderIter::new(vec![]);
    let mut n = 0;
    while it.next().is_some() {
        n += 1;
    }
    assert_eq!(n, 15 * 8 + 16);
}

#[test]
fn hdlc_carrier_loss_resets() {
    let mut dec = HdlcDecode::new();
    for &b in &[false, true, true, true, true, true, true, false] {
        dec.filter_opt(Some(b));
    }
    assert!(dec.is_running);
    for _ in 0..20 {
        assert_eq!(dec.filter_opt(None), None);
    }
    assert!(dec.is_running);
    assert_eq!(dec.filter_opt(None), None);
    assert!(!dec.is_running);
}

#[test]
fn collector_drops_on_error() {
    let mut col = FrameCollector::new();
    assert_eq!(col.filter(Some(FrameSignal::FrameMarker)), None);
    assert_eq!(col.filter(Some(FrameSignal::Octet(1))), None);
    assert_eq!(col.filter(Some(FrameSignal::DecodeError)), None);
    assert_eq!(col.filter(Some(FrameSignal::FrameMarker)), None);
    assert_eq!(col.filter(Some(FrameSignal::Octet(2))), None);
    assert_eq!(col.filter(None), None);
    assert_eq!(col.filter(Some(FrameSignal::FrameMarker)), Some(vec![2]));
}

#[test]
fn crc_closure() {
    for data in [vec![], vec![0u8], b"123456789".to_vec(), hex::decode(AX25_HEX).unwrap()] {
        let framed = append_crc(&data);
        assert_eq!(x25_digest(&framed), X25_RESIDUE);
        assert_eq!(check_crc(framed.clone()), Some(framed.clone()));
        assert_eq!(strip_crc(&framed), Some(data.clone()));
    }
    assert_eq!(x25_digest(b"123456789"), 0x906E);
    let mut bad = append_crc(b"123456789");
    bad[0] ^= 1;
    assert_eq!(check_crc(bad.clone()), None);
    assert_eq!(strip_crc(&bad), None);
    assert_eq!(strip_crc(&[0x00]), None);
}

fn addr(s: &str) -> HamAddr {
    HamAddr::try_from_callsign(s).unwrap()
}

#[test]
fn mac_receive_acknowledges_unicast() {
    let own = addr("N6DRC");
    let frame = FrameInfo {
        frame_type: FrameType::Data,
        ack_requested: true,
        network_id: Some(NetworkId(0x1337)),
        dst_addr: own,
        src_addr: addr("N6NFI"),
        ..FrameInfo::empty()
    };
    let bytes = frame.to_vec(b"data");
    match mac_receive(&bytes, own, NetworkId(0x1337)) {
        MacVerdict::Accept { frame_info, payload, ack } => {
            assert_eq!(frame_info, frame);
            assert_eq!(payload, b"data".to_vec());
            let ack = ack.unwrap();
            let body = strip_crc(&ack).unwrap();
            let (ack_info, rest) = FrameInfo::try_from_bytes(&body).unwrap();
            assert!(rest.is_empty());
            assert_eq!(ack_info.frame_type, FrameType::Ack);
            assert_eq!(ack_info.src_addr, own);
            assert_eq!(ack_info.ack_crc, x25_digest(&bytes));
        }
        MacVerdict::Drop => panic!("dropped"),
    }
}

#[test]
fn mac_receive_filters() {
    let own = addr("N6DRC");
    let frame = FrameInfo {
        frame_type: FrameType::Data,
        network_id: Some(NetworkId(0x1337)),
        dst_addr: own,
        src_addr: addr("N6NFI"),
        ..FrameInfo::empty()
    };
    let bytes = frame.to_vec(b"x");
    assert!(matches!(mac_receive(&bytes, own, NetworkId(0x4242)), MacVerdict::Drop));
    assert!(matches!(mac_receive(&bytes, addr("KZ2X"), NetworkId(0x1337)), MacVerdict::Drop));
    assert!(matches!(mac_receive(&[1, 2], own, NetworkId(0x1337)), MacVerdict::Drop));
    match mac_receive(&bytes, own, NetworkId(0x1337)) {
        MacVerdict::Accept { ack, .. } => assert!(ack.is_none()),
        MacVerdict::Drop => panic!("dropped"),
    }

    let group = FrameInfo {
        network_id: None,
        dst_addr: HamAddr::from_chunks([0xFAFB, 0, 0, 0]),
        ack_requested: true,
        ..frame
    };
    match mac_receive(&group.to_vec(b"x"), own, NetworkId(0x4242)) {
        MacVerdict::Accept { ack, .. } => assert!(ack.is_none()),
        MacVerdict::Drop => panic!("dropped"),
    }
}

#[test]
fn filter_types() {
    assert!(FilterType::BandStop.is_band());
    assert!(!FilterType::LowPass.is_band());
    assert!(FilterType::BandPass.is_band_pass());
    assert!(FilterType::HighPass.is_high_pass());
    assert!(FilterType::LowPass.is_low_pass());
    assert!(!FilterType::HighPass.is_low_pass());
}

#[test]
fn channel_clear_assessment() {
    assert_eq!(cca_poll(true, 123), SendReadiness::Ready);
    assert_eq!(cca_poll(false, 0), SendReadiness::Backoff { millis: 5 });
    assert_eq!(cca_poll(false, 44), SendReadiness::Backoff { millis: 49 });
    assert_eq!(cca_poll(false, 45), SendReadiness::Backoff { millis: 5 });
    assert_eq!(cca_poll(false, u32::MAX), SendReadiness::Backoff { millis: 5 + u32::MAX % 45 });
    assert_eq!(cca_start_send(true), Ok(()));
    assert_eq!(cca_start_send(false), Err(SendError::ChannelBusy));
}

#[test]
fn decimation_clock() {
    let c = DecimationClock::new(7500, 7500);
    assert!(c.skip);

    let mut c = DecimationClock::new(44100, 7500);
    assert!(!c.skip);
    assert_eq!(c.inter_factor, 1);
    assert_eq!(c.inter_sample_rate, 44100);
    let kept: Vec<bool> = (0..12).map(|_| c.tick()).collect();
    assert_eq!(kept, vec![false, false, false, false, false, true, false, false, false, false, false, true]);

    let c = DecimationClock::new(14000, 7500);
    assert_eq!(c.inter_factor, 3);
    assert_eq!(c.inter_sample_rate, 42000);
    let c = DecimationClock::new(9000, 8000);
    assert_eq!(c.inter_factor, 5);
}

/// Sliced samples for line levels: each level held for `per_bit` samples.
fn slice_levels(levels: &[bool], per_bit: usize) -> Vec<Option<bool>> {
    levels.iter().flat_map(|&l| std::iter::repeat(Some(l)).take(per_bit)).collect()
}

#[test]
fn deframer_recovers_line_levels() {
    let frame = append_crc(&hex::decode(AX25_HEX).unwrap());
    let levels = bell_202_line_levels(&frame);
    for per_bit in [5usize, 6, 7, 12] {
        let mut deframer = Bell202Deframer::new(1200 * per_bit as u32);
        let mut frames = Vec::new();
        for s in slice_levels(&levels, per_bit) {
            if let Some(f) = deframer.filter(s) {
                frames.push(f);
            }
        }
        assert_eq!(frames, vec![frame.clone()]);
        assert_eq!(check_crc(frames[0].clone()), Some(frame.clone()));
    }
}

#[test]
fn line_levels_are_nrzi_of_framed_bits() {
    let frame = vec![0xA5u8, 0xFF];
    let levels = bell_202_line_levels(&frame);
    let wire = hdlc_encode(bits_lsb(&frame));
    let mut nrzi = NrziEncode::new();
    assert_eq!(levels, nrzi.encode(&wire));
    let mut dec = NrziDecode::new();
    assert_eq!(dec.decode(&levels), wire);
}
