use mpeg2ts::bytes::ByteReader;
use mpeg2ts::error::ErrorKind;
use mpeg2ts::es::StreamId;
use mpeg2ts::pes::{PesHeader, PesPacket};
use mpeg2ts::time::{ClockReference, Timestamp};

fn make_header(pts: Option<u64>, dts: Option<u64>, escr: Option<u64>) -> PesHeader {
    PesHeader {
        stream_id: StreamId::new_audio(StreamId::AUDIO_MIN).unwrap(),
        priority: false,
        data_alignment_indicator: false,
        copyright: false,
        original_or_copy: false,
        pts: pts.map(|n| Timestamp::new(n).unwrap()),
        dts: dts.map(|n| Timestamp::new(n).unwrap()),
        escr: escr.map(|n| ClockReference::new(n).unwrap()),
    }
}

#[test]
fn es_payload_len_pts_only() {
    // Audio-style PES: optional header = 3 + 5 (PTS) = 8 bytes.
    let header = make_header(Some(0), None, None);
    assert_eq!(header.es_payload_len(3 + 5 + 100).unwrap(), Some(100));
    assert_eq!(header.es_payload_len(3 + 5).unwrap(), Some(0));
}

#[test]
fn es_payload_len_pts_dts() {
    // Optional header = 3 + 5 (PTS) + 5 (DTS) = 13 bytes.
    let header = make_header(Some(0), Some(90_000), None);
    assert_eq!(header.es_payload_len(3 + 5 + 5 + 7).unwrap(), Some(7));
}

#[test]
fn es_payload_len_escr() {
    // Optional header = 3 + 6 (ESCR) = 9 bytes, or 3 + 5 + 6 = 14 with PTS.
    let header = make_header(None, None, Some(0));
    assert_eq!(header.es_payload_len(3 + 6 + 21).unwrap(), Some(21));
    let header = make_header(Some(0), None, Some(0));
    assert_eq!(header.es_payload_len(3 + 5 + 6 + 21).unwrap(), Some(21));
}

#[test]
fn es_payload_len_unbounded() {
    // A zero PES_packet_length means unbounded (e.g., video PES in TS).
    assert_eq!(
        make_header(Some(0), None, None).es_payload_len(0).unwrap(),
        None
    );
    assert_eq!(
        make_header(None, None, None).es_payload_len(0).unwrap(),
        None
    );
}

#[test]
fn es_payload_len_too_small_pes_packet_len() {
    let header = make_header(Some(0), None, None); // optional header = 8 bytes
    let err = header.es_payload_len(7).unwrap_err();
    assert_eq!(err.kind, ErrorKind::InvalidInput);
    assert_eq!(err.reason, "pes.pes_packet_len=7, optional_header_len=8");
}

#[test]
fn es_payload_len_largest_packet() {
    let header = make_header(None, None, None);
    assert_eq!(header.optional_header_len(), 3);
    assert_eq!(header.es_payload_len(u16::MAX).unwrap(), Some(65_532));
    let err = header.es_payload_len(1).unwrap_err();
    assert_eq!(err.reason, "pes.pes_packet_len=1, optional_header_len=3");
}

fn read(bytes: &[u8]) -> Result<(PesHeader, u16), (ErrorKind, String)> {
    match PesHeader::read_from(&mut ByteReader::new(bytes)) {
        Ok(ok) => Ok(ok),
        Err(e) => Err((e.kind, e.reason)),
    }
}

fn fault(bytes: &[u8]) -> (ErrorKind, String) {
    read(bytes).unwrap_err()
}

fn invalid(reason: &str) -> (ErrorKind, String) {
    (ErrorKind::InvalidInput, reason.to_string())
}

fn unsupported(reason: &str) -> (ErrorKind, String) {
    (ErrorKind::Unsupported, reason.to_string())
}

#[test]
fn header_bytes_with_pts() {
    let mut header = make_header(Some(90_000), None, None);
    header.priority = true;
    header.original_or_copy = true;
    let mut buf = vec![0xAA];
    header.write_to(&mut buf, 108).unwrap();
    assert_eq!(
        buf,
        vec![
            0xAA, 0x00, 0x00, 0x01, 0xC0, 0x00, 0x6C, 0x89, 0x80, 0x05, 0x21, 0x00, 0x05, 0xBF,
            0x21,
        ]
    );
    assert_eq!(read(&buf[1..]).unwrap(), (header, 108));
}

#[test]
fn header_round_trip_with_every_field() {
    let mut header = make_header(Some(Timestamp::MAX), Some(90_000), Some(27_000_123));
    header.data_alignment_indicator = true;
    header.copyright = true;
    let mut buf = Vec::new();
    header.write_to(&mut buf, 0xBEEF).unwrap();
    assert_eq!(buf.len(), 6 + header.optional_header_len() as usize);
    assert_eq!(&buf[6..9], &[0x86, 0xE0, 16]);
    buf.push(0x77);
    let mut reader = ByteReader::new(&buf);
    let (read_header, len) = PesHeader::read_from(&mut reader).unwrap();
    assert_eq!(read_header, header);
    assert_eq!(len, 0xBEEF);
    assert_eq!(reader.remaining(), &[0x77]);
    let packet = PesPacket {
        header: read_header,
        data: reader.remaining().to_vec(),
    };
    assert_eq!(packet.data, vec![0x77]);
}

#[test]
fn header_of_a_stream_without_optional_header() {
    for id in [0xBC, 0xBE, 0xBF, 0xF0, 0xF1, 0xF2, 0xF8, 0xFF] {
        let mut header = make_header(Some(1), None, None);
        header.stream_id = StreamId::new(id);
        let mut buf = Vec::new();
        header.write_to(&mut buf, 4).unwrap();
        assert_eq!(buf, vec![0, 0, 1, id, 0, 4]);
        buf.extend_from_slice(&[1, 2, 3, 4]);
        let mut reader = ByteReader::new(&buf);
        let (bare, len) = PesHeader::read_from(&mut reader).unwrap();
        assert_eq!(bare.stream_id.as_u8(), id);
        assert_eq!(bare.pts, None);
        assert!(!bare.priority);
        assert_eq!(len, 4);
        assert_eq!(reader.remaining(), &[1, 2, 3, 4]);
    }
}

#[test]
fn dts_without_pts_is_refused() {
    let header = make_header(None, Some(1), None);
    let mut buf = Vec::new();
    let err = header.write_to(&mut buf, 9).unwrap_err();
    assert_eq!(err.kind, ErrorKind::InvalidInput);
    assert_eq!(err.reason, "DTS cannot be present without PTS");
    assert_eq!(buf, vec![0, 0, 1, 0xC0, 0, 9, 0x80]);
    assert_eq!(
        fault(&[0, 0, 1, 0xC0, 0, 9, 0x80, 0x40, 0]),
        invalid("DTS cannot be present without PTS")
    );
}

#[test]
fn stuffing_behind_the_fields() {
    let mut bytes = vec![0, 0, 1, 0xC0, 0, 20, 0x80, 0x80, 7, 0x21, 0, 1, 0, 3, 0xFF, 0xFF, 5];
    let mut reader = ByteReader::new(&bytes);
    let (header, _) = PesHeader::read_from(&mut reader).unwrap();
    assert_eq!(header.pts, Some(Timestamp::new(1).unwrap()));
    assert_eq!(reader.remaining(), &[5]);
    // Input that ends within the stuffing is accepted.
    assert!(read(&bytes[..15]).is_ok());
    bytes[15] = 0xFE;
    assert_eq!(fault(&bytes), invalid("Unexpected stuffing byte"));
}

#[test]
fn header_faults() {
    let eof = (ErrorKind::UnexpectedEof, "Unexpected end of input".to_string());
    assert_eq!(fault(&[]), eof);
    assert_eq!(fault(&[0, 0, 1, 0xC0, 0]), eof);
    assert_eq!(
        fault(&[0x0A, 0xBC, 0xDE]),
        invalid("Expected packet start code prefix 0x000001, got 0x0abcde")
    );
    assert_eq!(fault(&[0, 0, 1, 0xC0, 0, 9]), eof);
    assert_eq!(
        fault(&[0, 0, 1, 0xC0, 0, 9, 0x40]),
        invalid("Unexpected marker bits")
    );
    assert_eq!(
        fault(&[0, 0, 1, 0xC0, 0, 9, 0x90]),
        unsupported("Scrambling control is not supported")
    );
    assert_eq!(fault(&[0, 0, 1, 0xC0, 0, 9, 0x80]), eof);
    let flags = [
        (0x10, "ES rate flag is not supported"),
        (0x08, "DSM trick mode flag is not supported"),
        (0x04, "Additional copy info flag is not supported"),
        (0x02, "CRC flag is not supported"),
        (0x01, "Extension flag is not supported"),
    ];
    for (flag, reason) in flags {
        assert_eq!(
            fault(&[0, 0, 1, 0xC0, 0, 9, 0x80, flag]),
            unsupported(reason)
        );
    }
    assert_eq!(fault(&[0, 0, 1, 0xC0, 0, 9, 0x80, 0x80]), eof);
    // The fields do not fit in the length given for them.
    assert_eq!(
        fault(&[0, 0, 1, 0xC0, 0, 9, 0x80, 0x80, 4, 0x21, 0, 1, 0, 1]),
        eof
    );
    // A lone PTS has the prefix 0b0010.
    assert_eq!(
        fault(&[0, 0, 1, 0xC0, 0, 9, 0x80, 0x80, 5, 0x31, 0, 1, 0, 1]),
        invalid("Expected check_bits: 2, got: 3")
    );
}

#[test]
fn missing_bytes_lead_through_a_header() {
    let header = make_header(Some(1), Some(2), Some(3));
    let mut stream = Vec::new();
    header.write_to(&mut stream, 50).unwrap();
    let header_len = stream.len();
    stream.extend_from_slice(&[9, 9, 9]);
    let mut n = 0;
    let mut steps = Vec::new();
    loop {
        let missing = PesHeader::missing_bytes(&stream[..n]);
        if missing == 0 {
            break;
        }
        steps.push(missing);
        n += missing;
    }
    assert_eq!(steps, vec![3, 3, 1, 1, 1, 5, 5, 6]);
    assert_eq!(n, header_len);
    assert_eq!(read(&stream[..n]).unwrap(), (header, 50));
    assert_eq!(PesHeader::missing_bytes(&[0, 0, 2]), 0);
    assert_eq!(PesHeader::missing_bytes(&[0, 0, 1, 0xBE, 0, 0]), 0);
    assert_eq!(PesHeader::missing_bytes(&[0, 0, 1, 0xC0, 0, 0, 0]), 0);
    assert_eq!(PesHeader::missing_bytes(&[0, 0, 1, 0xC0, 0, 0, 0x80, 1]), 0);
}

/// Reads a header that is not sound and returns the number of bytes left behind it.
fn left_behind_fault(bytes: &[u8]) -> usize {
    let mut reader = ByteReader::new(bytes);
    assert!(PesHeader::read_from(&mut reader).is_err());
    reader.remaining().len()
}

#[test]
fn reader_stops_behind_the_faulty_field() {
    let mut good = Vec::new();
    make_header(Some(1), Some(2), Some(3))
        .write_to(&mut good, 50)
        .unwrap();
    assert_eq!(good.len(), 25);
    // PTS, DTS and ESCR at 9, 14 and 19, each with a wrong prefix.
    for (at, end) in [(9, 14), (14, 19), (19, 25)] {
        let mut broken = good.clone();
        broken[at] ^= 0x80;
        assert_eq!(left_behind_fault(&broken), 25 - end);
        assert_eq!(PesHeader::missing_bytes(&broken[..end]), 0);
        assert_eq!(fault(&broken[..end]), fault(&broken));
        broken.extend_from_slice(&[9, 9, 9]);
        assert_eq!(left_behind_fault(&broken), 28 - end);
    }
    // A marker bit that is not set shows at the end of the field too.
    let mut broken = good.clone();
    broken[13] ^= 1;
    assert_eq!(left_behind_fault(&broken), 11);
    // The fields end within the DTS.
    let mut short = good.clone();
    short[8] = 7;
    assert_eq!(left_behind_fault(&short), 9);
    assert_eq!(fault(&short).0, ErrorKind::UnexpectedEof);
    assert_eq!(PesHeader::missing_bytes(&short[..9]), 5);
    assert_eq!(PesHeader::missing_bytes(&short[..14]), 2);
    assert_eq!(PesHeader::missing_bytes(&short[..16]), 0);
    // A byte that is not stuffing shows when all the fields are taken.
    let mut stuffed = good.clone();
    stuffed[8] = 19;
    stuffed.extend_from_slice(&[0xFF, 0, 0xFF, 9]);
    assert_eq!(PesHeader::missing_bytes(&stuffed[..25]), 3);
    assert_eq!(left_behind_fault(&stuffed), 1);
}

#[test]
fn header_with_the_greatest_times_is_read_back() {
    let header = make_header(
        Some(Timestamp::MAX),
        Some(Timestamp::MAX),
        Some(ClockReference::MAX),
    );
    let mut buf = Vec::new();
    header.write_to(&mut buf, u16::MAX).unwrap();
    assert_eq!(read(&buf).unwrap(), (header, u16::MAX));
}

#[test]
fn audio_stream_ids() {
    assert!(StreamId::new_audio(StreamId::AUDIO_MAX).is_ok());
    let err = StreamId::new_audio(0xE0).unwrap_err();
    assert_eq!(err.kind, ErrorKind::InvalidInput);
    assert_eq!(err.reason, "Not an audio stream ID: 224");
    assert!(StreamId::new_audio(0xBF).is_err());
}

#[test]
fn header_that_was_read_is_kept() {
    let bytes = [
        0, 0, 1, 0xE0, 0, 0, 0x84, 0xC0, 12, 0x31, 0, 5, 0, 1, 0x11, 0, 3, 0, 1, 0xFF, 0xFF,
    ];
    let (header, len) = read(&bytes).unwrap();
    let mut buf = Vec::new();
    header.write_to(&mut buf, len).unwrap();
    assert_eq!(buf.len(), 19);
    assert_eq!(read(&buf).unwrap(), (header, len));
    // What follows the header has no part in it.
    let mut longer = bytes.to_vec();
    longer.extend_from_slice(&[0, 1, 2, 3]);
    assert_eq!(read(&longer), read(&bytes));
}
