use mpeg2ts::bytes::ByteReader;
use mpeg2ts::error::ErrorKind;
use mpeg2ts::time::{ClockReference, Timestamp};

#[test]
fn pcr_conversion() {
    let cr = ClockReference::new(10000).unwrap();
    let mut buf = Vec::new();
    cr.write_pcr_to(&mut buf).unwrap();
    let new_cr = ClockReference::read_pcr_from(&mut ByteReader::new(&buf[..])).unwrap();
    assert_eq!(cr, new_cr);
}

#[test]
fn pcr_bytes_layout() {
    let cr = ClockReference::new((0x1234567 << 1) * 300 + 5).unwrap();
    let bytes = cr.pcr_to_bytes();
    assert_eq!(bytes.len(), 6);
    assert_eq!(bytes[4] & 0x7E, 0x7E, "reserved bits must be '111111'");
    assert_eq!(
        ClockReference::read_pcr_from(&mut ByteReader::new(&bytes[..])).unwrap(),
        cr,
        "pcr_to_bytes must round-trip through read_pcr_from"
    );
}

#[test]
fn escr_conversion() {
    let cr = ClockReference::new(10000).unwrap();
    let mut buf = Vec::new();
    cr.write_escr_to(&mut buf).unwrap();
    let new_cr = ClockReference::read_escr_from(&mut ByteReader::new(&buf[..])).unwrap();
    assert_eq!(cr, new_cr);
}

#[test]
fn constants() {
    assert_eq!(Timestamp::RESOLUTION, 90_000);
    assert_eq!(Timestamp::MAX, (1 << 33) - 1);
    assert_eq!(ClockReference::RESOLUTION, 27_000_000);
    assert_eq!(ClockReference::MAX, ((1 << 33) - 1) * 300 + 0b1_1111_1111);
}

#[test]
fn values_out_of_range() {
    assert_eq!(
        Timestamp::new(Timestamp::MAX).unwrap().as_u64(),
        Timestamp::MAX
    );
    let err = Timestamp::new(Timestamp::MAX + 1).unwrap_err();
    assert_eq!(err.kind, ErrorKind::InvalidInput);
    assert_eq!(err.reason, "Too large value: 8589934592");
    assert_eq!(
        ClockReference::new(ClockReference::MAX).unwrap().as_u64(),
        ClockReference::MAX
    );
    let err = ClockReference::new(u64::MAX).unwrap_err();
    assert_eq!(err.kind, ErrorKind::InvalidInput);
    assert_eq!(err.reason, "Too large value: 18446744073709551615");
}

#[test]
fn timestamp_bytes() {
    let t = Timestamp::new(90_000).unwrap();
    assert_eq!(t.to_bytes(0b0010), [0x21, 0x00, 0x05, 0xBF, 0x21]);
    assert_eq!(
        Timestamp::new(Timestamp::MAX).unwrap().to_bytes(0b0011),
        [0x3F, 0xFF, 0xFF, 0xFF, 0xFF]
    );
    assert_eq!(Timestamp::from(0u32).to_bytes(1), [0x11, 0, 1, 0, 1]);
    // Only the lowest four check bits are written.
    assert_eq!(t.to_bytes(0xF2), t.to_bytes(0x02));
    let mut buf = vec![7];
    t.write_to(&mut buf, 0b0001).unwrap();
    assert_eq!(buf, vec![7, 0x11, 0x00, 0x05, 0xBF, 0x21]);
}

#[test]
fn timestamp_round_trip() {
    for n in [0, 1, 0x7FFF, 0x8000, 0x3FFF_FFFF, 0x4000_0000, 0x1_2345_6789, Timestamp::MAX] {
        for check_bits in 0..16 {
            let t = Timestamp::new(n).unwrap();
            let mut bytes = t.to_bytes(check_bits).to_vec();
            bytes.push(0x55);
            let mut reader = ByteReader::new(&bytes);
            assert_eq!(Timestamp::read_from(&mut reader, check_bits).unwrap(), t);
            assert_eq!(reader.remaining(), &[0x55]);
        }
    }
}

#[test]
fn timestamp_faults() {
    let bytes = Timestamp::new(5).unwrap().to_bytes(2);
    let err = Timestamp::read_from(&mut ByteReader::new(&bytes), 3).unwrap_err();
    assert_eq!(err.kind, ErrorKind::InvalidInput);
    assert_eq!(err.reason, "Expected check_bits: 3, got: 2");
    let err = Timestamp::read_from(&mut ByteReader::new(&bytes), 0x12).unwrap_err();
    assert_eq!(err.reason, "Expected check_bits: 18, got: 2");
    let err = Timestamp::read_from(&mut ByteReader::new(&bytes[..4]), 2).unwrap_err();
    assert_eq!(err.kind, ErrorKind::UnexpectedEof);
    for (byte, bit) in [(0, 1), (2, 1), (4, 1)] {
        let mut broken = bytes;
        broken[byte] ^= bit;
        let err = Timestamp::read_from(&mut ByteReader::new(&broken), 2).unwrap_err();
        assert_eq!(err.kind, ErrorKind::InvalidInput);
        assert_eq!(err.reason, "Unexpected marker bit");
    }
}

#[test]
fn timestamp_from_word() {
    // Bits above the 36 lowest are not looked at.
    let t = Timestamp::from_u64(0xFFFF_FFF1_0001_0001).unwrap();
    assert_eq!(t.as_u64(), 0);
    assert_eq!(
        Timestamp::from_u64(0xF_FFFF_FFFF).unwrap().as_u64(),
        Timestamp::MAX
    );
    assert!(Timestamp::from_u64(0).is_err());
    assert!(Timestamp::from_u64(1).is_err());
    assert!(Timestamp::from_u64(0x1_0001).is_err());
}

#[test]
fn pcr_bytes() {
    let cr = ClockReference::new(0x1_2345_6789 * 300 + 299).unwrap();
    let mut buf = Vec::new();
    cr.write_pcr_to(&mut buf).unwrap();
    assert_eq!(buf, vec![0x91, 0xA2, 0xB3, 0xC4, 0x81, 0x2B]);
    assert_eq!(cr.pcr_to_bytes(), [0x91, 0xA2, 0xB3, 0xC4, 0xFF, 0x2B]);
}

fn read_pcr(bytes: &[u8]) -> u64 {
    ClockReference::read_pcr_from(&mut ByteReader::new(bytes))
        .unwrap()
        .as_u64()
}

#[test]
fn pcr_round_trip() {
    let period = (1u64 << 33) * 300;
    for n in [
        0,
        1,
        299,
        300,
        10_000,
        0x1234_5678_9A,
        period - 1,
        period,
        ClockReference::MAX - 1,
        ClockReference::MAX,
    ] {
        let cr = ClockReference::new(n).unwrap();
        let mut buf = Vec::new();
        cr.write_pcr_to(&mut buf).unwrap();
        assert_eq!(read_pcr(&buf), n);
        assert_eq!(read_pcr(&cr.pcr_to_bytes()), n);
    }
}

#[test]
fn greatest_clock_references_keep_the_greatest_base() {
    let period = (1u64 << 33) * 300;
    let pcr = |n: u64| ClockReference::new(n).unwrap().pcr_to_bytes();
    assert_eq!(pcr(period - 1), [0xFF, 0xFF, 0xFF, 0xFF, 0xFF, 0x2B]);
    assert_eq!(pcr(period), [0xFF, 0xFF, 0xFF, 0xFF, 0xFF, 0x2C]);
    assert_eq!(pcr(ClockReference::MAX), [0xFF; 6]);
    let mut buf = Vec::new();
    let cr = ClockReference::new(ClockReference::MAX).unwrap();
    cr.write_pcr_to(&mut buf).unwrap();
    assert_eq!(buf, vec![0xFF, 0xFF, 0xFF, 0xFF, 0x81, 0xFF]);
    for n in period - 300..=ClockReference::MAX {
        assert_eq!(read_pcr(&pcr(n)), n);
        let bytes = escr_bytes(n);
        let cr = ClockReference::read_escr_from(&mut ByteReader::new(&bytes)).unwrap();
        assert_eq!(cr.as_u64(), n);
    }
}

#[test]
fn pcr_extension_up_to_nine_bits() {
    assert_eq!(read_pcr(&[0xFF; 6]), ClockReference::MAX);
    assert_eq!(read_pcr(&[0, 0, 0, 0, 0x7F, 0xFF]), 511);
    let err = ClockReference::read_pcr_from(&mut ByteReader::new(&[0; 5])).unwrap_err();
    assert_eq!(err.kind, ErrorKind::UnexpectedEof);
    assert_eq!(err.reason, "Unexpected end of input");
}

fn escr_bytes(n: u64) -> Vec<u8> {
    let mut buf = Vec::new();
    ClockReference::new(n)
        .unwrap()
        .write_escr_to(&mut buf)
        .unwrap();
    buf
}

#[test]
fn escr_encoding() {
    assert_eq!(escr_bytes(0), vec![0x04, 0x00, 0x04, 0x00, 0x04, 0x01]);
    assert_eq!(
        escr_bytes(((1 << 33) - 1) * 300 + 299),
        vec![0x3F, 0xFF, 0xFF, 0xFF, 0xFE, 0x57]
    );
    assert_eq!(
        escr_bytes(ClockReference::MAX),
        vec![0x3F, 0xFF, 0xFF, 0xFF, 0xFF, 0xFF]
    );
    let n = 0x1_2345_6789 * 300 + 123;
    let bytes = escr_bytes(n);
    let cr = ClockReference::read_escr_from(&mut ByteReader::new(&bytes)).unwrap();
    assert_eq!(cr.as_u64(), n);
}

#[test]
fn escr_faults() {
    let good = escr_bytes(10_000);
    for (byte, bit) in [(0, 0x04), (2, 0x04), (4, 0x04), (5, 0x01)] {
        let mut broken = good.clone();
        broken[byte] ^= bit;
        let err = ClockReference::read_escr_from(&mut ByteReader::new(&broken)).unwrap_err();
        assert_eq!(err.kind, ErrorKind::InvalidInput);
        assert_eq!(err.reason, "Unexpected marker bit");
    }
    let mut broken = good.clone();
    broken[0] |= 0x80;
    let err = ClockReference::read_escr_from(&mut ByteReader::new(&broken)).unwrap_err();
    assert_eq!(err.reason, "Expected zero in reserved bits");
    assert!(ClockReference::read_escr_from(&mut ByteReader::new(&good[1..])).is_err());
}

#[test]
fn conversions() {
    assert_eq!(Timestamp::from(u32::MAX).as_u64(), u64::from(u32::MAX));
    assert_eq!(ClockReference::from(7u32).as_u64(), 7);
    let t = Timestamp::new(Timestamp::MAX).unwrap();
    assert_eq!(ClockReference::from(t).as_u64(), Timestamp::MAX * 300);
    assert_eq!(
        ClockReference::from(Timestamp::from(1u32)).pcr_to_bytes(),
        [0, 0, 0, 0, 0xFE, 0]
    );
}

#[test]
fn order_is_by_value() {
    assert!(Timestamp::from(1u32) < Timestamp::from(2u32));
    assert!(ClockReference::from(3u32) > ClockReference::from(2u32));
}

#[test]
fn byte_reader_hands_out_bytes() {
    let mut reader = ByteReader::new(&[1, 2, 3, 4, 5, 6]);
    assert_eq!(reader.read_u8().unwrap(), 1);
    assert_eq!(reader.read_u16().unwrap(), 0x0203);
    let mut front = reader.take(2);
    assert_eq!(front.read_uint::<2>().unwrap(), 0x0405);
    assert!(front.read_u8().is_err());
    assert_eq!(reader.take(10).remaining(), &[6]);
    assert!(reader.read_u16().is_err());
    let mut reader = ByteReader::new(&[0xFF; 8]);
    assert_eq!(reader.read_uint::<8>().unwrap(), u64::MAX);
}

#[test]
fn what_is_read_is_written_again() {
    let bytes = [0x1B, 0x12, 0x35, 0xFE, 0x01];
    let t = Timestamp::read_from(&mut ByteReader::new(&bytes), 1).unwrap();
    assert_eq!(t.to_bytes(1), bytes);
    let bytes = [0x91, 0xA2, 0xB3, 0xC4, 0x81, 0x2B];
    let cr = ClockReference::read_pcr_from(&mut ByteReader::new(&bytes)).unwrap();
    let mut buf = Vec::new();
    cr.write_pcr_to(&mut buf).unwrap();
    assert_eq!(buf, bytes.to_vec());
    let bytes = [0x25, 0xA2, 0xB7, 0x3C, 0x4C, 0x57];
    let cr = ClockReference::read_escr_from(&mut ByteReader::new(&bytes)).unwrap();
    let mut buf = Vec::new();
    cr.write_escr_to(&mut buf).unwrap();
    assert_eq!(buf, bytes.to_vec());
}

#[test]
fn reserved_bits_of_a_pcr_are_ignored() {
    let mut bytes = ClockReference::new(123_456_789).unwrap().pcr_to_bytes();
    for reserved in 0..64 {
        bytes[4] = (bytes[4] & 0x81) | (reserved << 1);
        assert_eq!(read_pcr(&bytes), 123_456_789);
    }
}
