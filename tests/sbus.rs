use sbus_rc::sbus::{chan, read_chans, Chan, Data, Outcome, Receiver, PACKET_SIZE};

/// Packs sixteen eleven-bit channels into a frame with the given flag byte.
fn pack_frame(c: &[u16; 16], flag: u8) -> [u8; PACKET_SIZE] {
    let mut f = [0u8; PACKET_SIZE];
    f[0] = 0x0F;
    for (i, &v) in c.iter().enumerate() {
        for bit in 0..11 {
            if v & (1 << bit) != 0 {
                let pos = 11 * i + bit;
                f[1 + pos / 8] |= 1 << (pos % 8);
            }
        }
    }
    f[23] = flag;
    f[24] = 0x00;
    f
}

fn new_packet(flag_byte: u8) -> [u8; PACKET_SIZE] {
    let mut packet = [0u8; PACKET_SIZE];
    packet[PACKET_SIZE - 2] = flag_byte;
    packet
}

#[allow(clippy::unusual_byte_groupings)]
fn sample_packet() -> [u8; PACKET_SIZE] {
    [
        0u8,
        0b_00000001,
        0b00010_000,
        0b11_000000,
        0b00000000,
        0b0000100_0,
        0b0101_0000,
        0b0_0000000,
        0b00000011,
        0b000111_00,
        0b000_00000,
        0b00000001_,
        0b_00001001,
        0b01010_000,
        0b11_000000,
        0b00000010,
        0b0001100_0,
        0b1101_0000,
        0b0_0000000,
        0b00000111,
        0b001111_00,
        0b000_00000,
        0b00000010_,
        0,
        0,
    ]
}

#[test]
fn chan_truncates_to_eleven_bits() {
    assert_eq!(Chan::new(0xFFFF).get(), 0b0000_0111_1111_1111);
    assert_eq!(Chan::new(0xFFFF).get(), 2_047);
    assert_eq!(chan(0x0800).get(), 0);
    assert_eq!(chan(0x0801).get(), 1);
    assert_eq!(Chan::new(1234).get(), 1234);
}

#[test]
fn chan_masks_every_sixteen_bit_value() {
    for v in 0..=u16::MAX {
        assert_eq!(Chan::new(v).get(), v & 0x7FF);
    }
}

#[test]
fn chan_default_is_zero() {
    assert_eq!(Chan::default().get(), 0);
}

#[test]
fn read_chans_unpacks_sample() {
    let actual = read_chans(&sample_packet());
    for (i, c) in actual.iter().enumerate() {
        assert_eq!(c.get(), i as u16 + 1);
    }
}

#[test]
fn flag_bits_are_isolated() {
    assert!(!Data::from_packet(&new_packet(0b1110)).ch_17);
    assert!(Data::from_packet(&new_packet(0b0001)).ch_17);
    assert!(!Data::from_packet(&new_packet(0b1101)).ch_18);
    assert!(Data::from_packet(&new_packet(0b0010)).ch_18);
    assert!(!Data::from_packet(&new_packet(0b1011)).frame_lost);
    assert!(Data::from_packet(&new_packet(0b0100)).frame_lost);
    assert!(!Data::from_packet(&new_packet(0b0111)).failsafe);
    assert!(Data::from_packet(&new_packet(0b1000)).failsafe);
}

#[test]
fn single_flag_sets_only_its_field() {
    let d = Data::from_packet(&new_packet(0b0001));
    assert!(d.ch_17 && !d.ch_18 && !d.frame_lost && !d.failsafe);
    let d = Data::from_packet(&new_packet(0b0010));
    assert!(!d.ch_17 && d.ch_18 && !d.frame_lost && !d.failsafe);
    let d = Data::from_packet(&new_packet(0b0100));
    assert!(!d.ch_17 && !d.ch_18 && d.frame_lost && !d.failsafe);
    let d = Data::from_packet(&new_packet(0b1000));
    assert!(!d.ch_17 && !d.ch_18 && !d.frame_lost && d.failsafe);
    let d = Data::from_packet(&new_packet(0b1111_0000));
    assert!(!d.ch_17 && !d.ch_18 && !d.frame_lost && !d.failsafe);
}

#[test]
fn round_trip_recovers_channels() {
    let vectors: [[u16; 16]; 3] = [
        [0, 1, 2, 3, 4, 5, 6, 7, 8, 9, 10, 11, 12, 13, 14, 15],
        [2047; 16],
        [
            172, 992, 1811, 1000, 200, 1800, 2047, 0, 1024, 513, 77, 1999, 1500, 300, 4, 2046,
        ],
    ];
    for c in vectors.iter() {
        for flag in [0u8, 0b1010, 0xFF] {
            let d = Data::from_packet(&pack_frame(c, flag));
            for i in 0..16 {
                assert_eq!(d.channels[i].get(), c[i]);
            }
            assert_eq!(d.ch_17, flag & 1 != 0);
            assert_eq!(d.failsafe, flag & 8 != 0);
        }
    }
}

#[test]
fn starved_receiver_stays_not_ready() {
    let mut r = Receiver::new();
    for _ in 0..5 {
        assert_eq!(r.try_decode(), Outcome::NotReady);
    }
    assert_eq!(r.ingest(&[0x0F, 1, 2]), 3);
    for _ in 0..5 {
        assert_eq!(r.try_decode(), Outcome::NotReady);
        assert_eq!(r.ingest(&[]), 0);
    }
    assert_eq!(r.free_buf().len(), PACKET_SIZE - 3);
    assert_eq!(r.get_data(), None);
}

#[test]
fn frame_in_pieces_decodes_at_last_byte() {
    let c: [u16; 16] = [
        1000, 1800, 200, 1001, 1800, 1001, 200, 1500, 0, 2047, 5, 6, 7, 8, 9, 10,
    ];
    let frame = pack_frame(&c, 0b0100);
    let splits: [&[usize]; 5] = [&[25], &[1, 24], &[10, 0, 15], &[3, 7, 5, 9, 1], &[24, 1]];
    for cuts in splits.iter() {
        let mut r = Receiver::new();
        let mut at = 0;
        for (k, &n) in cuts.iter().enumerate() {
            assert_eq!(r.ingest(&frame[at..at + n]), n);
            at += n;
            if k + 1 < cuts.len() {
                assert_eq!(r.try_decode(), Outcome::NotReady);
            }
        }
        match r.try_decode() {
            Outcome::Frame(d) => {
                for i in 0..16 {
                    assert_eq!(d.channels[i].get(), c[i]);
                }
                assert!(d.frame_lost && !d.ch_17 && !d.ch_18 && !d.failsafe);
            }
            other => panic!("expected a frame, got {:?}", other),
        }
        assert_eq!(r.try_decode(), Outcome::NotReady);
    }
}

#[test]
fn ingest_takes_only_what_fits() {
    let mut r = Receiver::new();
    let bytes = [7u8; 40];
    assert_eq!(r.ingest(&bytes[..20]), 20);
    assert_eq!(r.ingest(&bytes), 5);
    assert_eq!(r.ingest(&bytes), 0);
    assert_eq!(r.try_decode(), Outcome::HeaderMismatch);
    assert_eq!(r.ingest(&bytes), 25);
}

#[test]
fn bad_header_is_discarded_then_recovers() {
    let c: [u16; 16] = [
        11, 22, 33, 44, 55, 66, 77, 88, 99, 111, 222, 333, 444, 555, 666, 777,
    ];
    let good = pack_frame(&c, 0);
    let mut bad = good;
    bad[0] = 0x0E;
    let mut r = Receiver::new();
    assert_eq!(r.ingest(&bad[..12]), 12);
    assert_eq!(r.try_decode(), Outcome::NotReady);
    assert_eq!(r.ingest(&bad[12..]), 13);
    assert_eq!(r.try_decode(), Outcome::HeaderMismatch);
    assert_eq!(r.free_buf().len(), PACKET_SIZE);
    assert_eq!(r.ingest(&good), 25);
    match r.try_decode() {
        Outcome::Frame(d) => {
            for i in 0..16 {
                assert_eq!(d.channels[i].get(), c[i]);
            }
        }
        other => panic!("expected a frame, got {:?}", other),
    }
}

#[test]
fn bad_footer_is_discarded() {
    let mut f = pack_frame(&[1000; 16], 0);
    f[24] = 0x04;
    let mut r = Receiver::new();
    r.ingest(&f);
    assert_eq!(r.try_decode(), Outcome::FooterMismatch);
    assert_eq!(r.try_decode(), Outcome::NotReady);
    r.ingest(&f);
    assert_eq!(r.get_data(), None);
    assert_eq!(r.free_buf().len(), PACKET_SIZE);
}

#[test]
fn free_buf_and_read_bytes_fill_the_window() {
    let c = [1500u16; 16];
    let frame = pack_frame(&c, 0b0011);
    let mut r = Receiver::new();
    {
        let buf = r.free_buf();
        assert_eq!(buf.len(), PACKET_SIZE);
        buf[..10].copy_from_slice(&frame[..10]);
    }
    r.read_bytes(10);
    assert_eq!(r.get_data(), None);
    {
        let buf = r.free_buf();
        assert_eq!(buf.len(), 15);
        buf.copy_from_slice(&frame[10..]);
    }
    r.read_bytes(15);
    let d = r.get_data().expect("a frame");
    assert_eq!(d, Data::from_packet(&frame));
    assert!(d.ch_17 && d.ch_18);
    assert_eq!(d.channels[15].get(), 1500);
}

#[test]
fn reset_empties_the_window() {
    let mut r = Receiver::new();
    r.ingest(&[0x0F; 24]);
    r.reset();
    assert_eq!(r.free_buf().len(), PACKET_SIZE);
    assert_eq!(r.try_decode(), Outcome::NotReady);
}
