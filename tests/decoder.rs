use joe_dirt_pico::drive::arcade_mix;
use joe_dirt_pico::fs_ia6b_driver::{Driver, Error};
use joe_dirt_pico::wire::encode_frame;

fn frame_1488() -> Vec<u8> {
    let mut bytes = vec![0x20, 0x40];
    for _ in 0..14 {
        bytes.push(0xD0);
        bytes.push(0x05);
    }
    // 0xFFFF - (0x20 + 0x40 + 14 * (0xD0 + 0x05)) = 0xF3F9
    bytes.push(0xF9);
    bytes.push(0xF3);
    bytes
}

/// Feeds `bytes`, asserting no report for all but the last, and returns the
/// channel values reported on the last byte.
fn feed_frame(driver: &mut Driver<()>, bytes: &[u8]) -> [u16; 14] {
    assert_eq!(bytes.len(), 32);
    for (i, b) in bytes[..31].iter().enumerate() {
        let r = driver.decode_byte::<()>(*b);
        assert!(matches!(r, Ok(None)), "unexpected report on byte {}", i);
    }
    match driver.decode_byte::<()>(bytes[31]) {
        Ok(Some(channels)) => *channels,
        _ => panic!("no frame on the last byte"),
    }
}

fn sample_channels() -> [u16; 14] {
    [
        1000, 1500, 2000, 1234, 0, 0xFFFF, 0x0100, 0x00FF, 1488, 1999, 1001, 42, 0x8000, 0x7FFF,
    ]
}

#[test]
fn scenario_all_channels_1488() {
    let mut driver = Driver::new(());
    let channels = feed_frame(&mut driver, &frame_1488());
    assert_eq!(channels, [1488u16; 14]);
}

#[test]
fn scenario_corrupted_command_then_fresh_frame() {
    let mut driver = Driver::new(());
    let mut bad = frame_1488();
    bad[1] = 0x41;
    assert!(matches!(driver.decode_byte::<()>(bad[0]), Ok(None)));
    assert!(matches!(
        driver.decode_byte::<()>(bad[1]),
        Err(Error::InvalidCommand(0x41, 0x40))
    ));
    let channels = feed_frame(&mut driver, &frame_1488());
    assert_eq!(channels, [1488u16; 14]);
}

#[test]
fn encode_matches_wire_bytes() {
    let frame = encode_frame(&[1488u16; 14]);
    assert_eq!(frame.to_vec(), frame_1488());
}

#[test]
fn encode_checksum_of_largest_values() {
    let frame = encode_frame(&[0xFFFFu16; 14]);
    // 0xFFFF - (0x20 + 0x40 + 28 * 0xFF) = 0xE3BB
    assert_eq!(frame[30], 0xBB);
    assert_eq!(frame[31], 0xE3);
    let frame = encode_frame(&[0u16; 14]);
    // 0xFFFF - 0x60 = 0xFF9F
    assert_eq!(frame[30], 0x9F);
    assert_eq!(frame[31], 0xFF);
}

#[test]
fn encode_is_little_endian() {
    let frame = encode_frame(&sample_channels());
    assert_eq!(frame[0], 0x20);
    assert_eq!(frame[1], 0x40);
    assert_eq!(frame[2], 0xE8); // 1000 = 0x03E8
    assert_eq!(frame[3], 0x03);
    assert_eq!(frame[12], 0xFF); // 0xFFFF
    assert_eq!(frame[13], 0xFF);
    assert_eq!(frame[14], 0x00); // 0x0100
    assert_eq!(frame[15], 0x01);
}

#[test]
fn valid_frame_decodes_on_last_byte() {
    let mut driver = Driver::new(());
    let frame = encode_frame(&sample_channels());
    let channels = feed_frame(&mut driver, &frame);
    assert_eq!(channels, sample_channels());
}

#[test]
fn encode_then_decode_round_trip() {
    for seed in 0u16..20 {
        let mut values = [0u16; 14];
        for (k, v) in values.iter_mut().enumerate() {
            *v = seed.wrapping_mul(3001).wrapping_add((k as u16).wrapping_mul(4099));
        }
        let mut driver = Driver::new(());
        assert_eq!(feed_frame(&mut driver, &encode_frame(&values)), values);
    }
}

#[test]
fn no_report_before_last_byte() {
    let mut driver = Driver::new(());
    let frame = encode_frame(&sample_channels());
    for b in frame[..31].iter() {
        assert!(matches!(driver.decode_byte::<()>(*b), Ok(None)));
    }
}

#[test]
fn consecutive_frames_each_decode() {
    let mut driver = Driver::new(());
    let first = [1100u16; 14];
    let second = sample_channels();
    let third = [1900u16; 14];
    let mut stream = Vec::new();
    for values in [first, second, third].iter() {
        stream.extend_from_slice(&encode_frame(values));
    }
    let mut reports = Vec::new();
    for (i, b) in stream.iter().enumerate() {
        match driver.decode_byte::<()>(*b) {
            Ok(Some(channels)) => reports.push((i, *channels)),
            Ok(None) => {}
            Err(_) => panic!("error on byte {}", i),
        }
    }
    assert_eq!(reports, vec![(31, first), (63, second), (95, third)]);
}

#[test]
fn invalid_length_then_recovers() {
    let mut driver = Driver::new(());
    assert!(matches!(
        driver.decode_byte::<()>(0x1F),
        Err(Error::InvalidLength(0x1F, 0x20))
    ));
    assert_eq!(feed_frame(&mut driver, &frame_1488()), [1488u16; 14]);
}

#[test]
fn invalid_checksum_low_then_recovers() {
    let mut driver = Driver::new(());
    let mut bad = frame_1488();
    bad[30] = 0xF8;
    for b in bad[..30].iter() {
        assert!(matches!(driver.decode_byte::<()>(*b), Ok(None)));
    }
    assert!(matches!(
        driver.decode_byte::<()>(bad[30]),
        Err(Error::InvalidChecksumL(0xF8, 0xF9))
    ));
    assert_eq!(feed_frame(&mut driver, &frame_1488()), [1488u16; 14]);
}

#[test]
fn invalid_checksum_high_then_recovers() {
    let mut driver = Driver::new(());
    let mut bad = frame_1488();
    bad[31] = 0x00;
    for b in bad[..31].iter() {
        assert!(matches!(driver.decode_byte::<()>(*b), Ok(None)));
    }
    assert!(matches!(
        driver.decode_byte::<()>(bad[31]),
        Err(Error::InvalidChecksumH(0x00, 0xF3))
    ));
    assert_eq!(feed_frame(&mut driver, &frame_1488()), [1488u16; 14]);
}

#[test]
fn corrupted_payload_fails_checksum() {
    let mut driver = Driver::new(());
    let mut bad = frame_1488();
    bad[5] = 0x06;
    for b in bad[..30].iter() {
        assert!(matches!(driver.decode_byte::<()>(*b), Ok(None)));
    }
    assert!(matches!(
        driver.decode_byte::<()>(bad[30]),
        Err(Error::InvalidChecksumL(0xF9, 0xF8))
    ));
}

#[test]
fn new_frame_clears_previous_values() {
    let mut driver = Driver::new(());
    feed_frame(&mut driver, &encode_frame(&[0xFFFFu16; 14]));
    assert_eq!(feed_frame(&mut driver, &encode_frame(&[0u16; 14])), [0u16; 14]);
}

#[test]
fn read_passes_bytes_to_decoder() {
    let mut driver = Driver::new(());
    let frame = frame_1488();
    for b in frame[..31].iter() {
        assert!(matches!(driver.read::<()>(Ok(*b)), Ok(None)));
    }
    match driver.read::<()>(Ok(frame[31])) {
        Ok(Some(channels)) => assert_eq!(*channels, [1488u16; 14]),
        _ => panic!("no frame on the last byte"),
    }
}

#[test]
fn read_would_block_keeps_state() {
    let mut driver = Driver::new(());
    let frame = frame_1488();
    for b in frame[..10].iter() {
        assert!(matches!(driver.read::<u8>(Ok(*b)), Ok(None)));
    }
    assert!(matches!(
        driver.read::<u8>(Err(nb::Error::WouldBlock)),
        Err(Error::WouldBlock)
    ));
    assert!(matches!(
        driver.read::<u8>(Err(nb::Error::Other(7))),
        Err(Error::SerialError(7))
    ));
    for b in frame[10..31].iter() {
        assert!(matches!(driver.read::<u8>(Ok(*b)), Ok(None)));
    }
    match driver.read::<u8>(Ok(frame[31])) {
        Ok(Some(channels)) => assert_eq!(*channels, [1488u16; 14]),
        _ => panic!("no frame on the last byte"),
    }
}

#[test]
fn error_from_nb_error() {
    assert!(matches!(
        Error::<u8>::from(nb::Error::WouldBlock),
        Error::WouldBlock
    ));
    assert!(matches!(
        Error::<u8>::from(nb::Error::Other(3)),
        Error::SerialError(3)
    ));
}

#[test]
fn serial_is_kept() {
    let driver = Driver::new(17u32);
    assert_eq!(driver.serial, 17);
}

#[test]
fn arcade_mix_centre_and_turns() {
    let mut channels = [1500u16; 14];
    assert_eq!(arcade_mix(&channels), (1500, 1500));
    channels[0] = 1600;
    channels[1] = 1700;
    assert_eq!(arcade_mix(&channels), (1800, 1600));
    channels[0] = 1400;
    channels[1] = 1500;
    assert_eq!(arcade_mix(&channels), (1400, 1600));
}

#[test]
fn arcade_mix_clamps() {
    let mut channels = [0u16; 14];
    channels[0] = 2000;
    channels[1] = 2000;
    assert_eq!(arcade_mix(&channels), (2000, 1500));
    channels[0] = 1000;
    channels[1] = 1000;
    assert_eq!(arcade_mix(&channels), (1000, 1500));
    channels[0] = 0;
    channels[1] = 0;
    assert_eq!(arcade_mix(&channels), (1000, 1500));
    channels[0] = 0xFFFF;
    channels[1] = 0xFFFF;
    assert_eq!(arcade_mix(&channels), (2000, 1500));
}
