use mpeg2ts::error::ErrorKind;
use mpeg2ts::time::ClockReference;
use mpeg2ts::ts::payload::Bytes;
use mpeg2ts::ts::{
    AdaptationField, CcChecker, CcStatus, ContinuityCounter, Pid, TransportScramblingControl,
    TsHeader, TsPacket, TsPacketReader, TsPayload,
};

fn header(pid: u16, cc: u8) -> TsHeader {
    TsHeader {
        transport_error_indicator: false,
        transport_priority: false,
        pid: Pid::new(pid).unwrap(),
        transport_scrambling_control: TransportScramblingControl::NotScrambled,
        continuity_counter: ContinuityCounter::from_u8(cc).unwrap(),
    }
}

fn adaptation_field(discontinuity_indicator: bool) -> AdaptationField {
    AdaptationField {
        discontinuity_indicator,
        random_access_indicator: false,
        es_priority_indicator: false,
        pcr: None,
        opcr: None,
        splice_countdown: None,
        transport_private_data: Vec::new(),
        extension: None,
    }
}

fn packet(
    pid: u16,
    cc: u8,
    adaptation_field: Option<AdaptationField>,
    with_payload: bool,
) -> TsPacket {
    TsPacket {
        header: header(pid, cc),
        adaptation_field,
        payload: if with_payload {
            Some(TsPayload::Raw(Bytes::new(&[]).unwrap()))
        } else {
            None
        },
    }
}

// Builds a raw 188-byte TS packet. `af` bytes (length + first data byte)
// are only meaningful for `afc` values that include an adaptation field.
fn packet_bytes(pid: u16, cc: u8, afc: u8, af_len: u8, af_first: u8) -> [u8; 188] {
    let mut pkt = [0u8; 188];
    pkt[0] = 0x47;
    pkt[1] = ((pid >> 8) & 0x1F) as u8;
    pkt[2] = (pid & 0xFF) as u8;
    pkt[3] = (afc << 4) | (cc & 0x0F);
    pkt[4] = af_len;
    pkt[5] = af_first;
    pkt
}

fn read_packet(bytes: &[u8; 188]) -> TsPacket {
    TsPacketReader::new(&bytes[..])
        .read_ts_packet()
        .unwrap()
        .unwrap()
}

#[test]
fn normal_increment_sequence_is_ok() {
    let mut checker = CcChecker::new();
    for cc in 0..5 {
        let status = checker.check(&packet(0x100, cc, None, true));
        assert_eq!(status, CcStatus::Continuous);
    }
}

#[test]
fn counter_wraps_from_15_to_0() {
    let mut checker = CcChecker::new();
    checker.check(&packet(0x100, 15, None, true));
    assert_eq!(
        checker.check(&packet(0x100, 0, None, true)),
        CcStatus::Continuous
    );
}

#[test]
fn packet_without_payload_does_not_advance() {
    let mut checker = CcChecker::new();
    checker.check(&packet(0x100, 0, None, true));
    // No-payload packet with a bogus counter must be ignored entirely.
    assert_eq!(
        checker.check(&packet(0x100, 9, Some(adaptation_field(false)), false)),
        CcStatus::Continuous
    );
    assert_eq!(
        checker.check(&packet(0x100, 1, None, true)),
        CcStatus::Continuous
    );
}

#[test]
fn discontinuity_is_detected() {
    let mut checker = CcChecker::new();
    checker.check(&packet(0x100, 0, None, true));
    assert_eq!(
        checker.check(&packet(0x100, 2, None, true)),
        CcStatus::Discontinuity {
            expected: ContinuityCounter::from_u8(1).unwrap(),
            got: ContinuityCounter::from_u8(2).unwrap(),
        }
    );
    // State is re-seeded with the received counter.
    assert_eq!(
        checker.check(&packet(0x100, 3, None, true)),
        CcStatus::Continuous
    );
}

#[test]
fn discontinuity_indicator_resets_state() {
    let mut checker = CcChecker::new();
    checker.check(&packet(0x100, 0, None, true));
    assert_eq!(
        checker.check(&packet(0x100, 7, Some(adaptation_field(true)), true)),
        CcStatus::Reset
    );
    // Any counter is acceptable right after a signalled reset.
    assert_eq!(
        checker.check(&packet(0x100, 9, None, true)),
        CcStatus::Continuous
    );
    assert_eq!(
        checker.check(&packet(0x100, 10, None, true)),
        CcStatus::Continuous
    );

    // A signalled reset on a PID with no prior state is still a Reset.
    let mut checker = CcChecker::new();
    assert_eq!(
        checker.check(&packet(0x300, 4, Some(adaptation_field(true)), true)),
        CcStatus::Reset
    );
}

#[test]
fn duplicate_packet_is_tolerated() {
    let mut checker = CcChecker::new();
    checker.check(&packet(0x100, 3, None, true));
    // Same counter twice: legal duplicate (e.g. retransmission).
    assert_eq!(
        checker.check(&packet(0x100, 3, None, true)),
        CcStatus::Continuous
    );
    assert_eq!(
        checker.check(&packet(0x100, 4, None, true)),
        CcStatus::Continuous
    );
}

#[test]
fn first_packet_on_a_pid_initializes() {
    let mut checker = CcChecker::new();
    assert_eq!(
        checker.check(&packet(0x100, 13, None, true)),
        CcStatus::Continuous
    );
    assert_eq!(
        checker.check(&packet(0x100, 14, None, true)),
        CcStatus::Continuous
    );
}

#[test]
fn pids_are_tracked_independently() {
    let mut checker = CcChecker::new();
    for cc in 0..3 {
        assert_eq!(
            checker.check(&packet(0x100, cc, None, true)),
            CcStatus::Continuous
        );
        assert_eq!(
            checker.check(&packet(0x200, cc, None, true)),
            CcStatus::Continuous
        );
    }
    assert!(matches!(
        checker.check(&packet(0x100, 7, None, true)),
        CcStatus::Discontinuity { .. }
    ));
    assert_eq!(
        checker.check(&packet(0x200, 3, None, true)),
        CcStatus::Continuous
    );
}

#[test]
fn zero_length_adaptation_field_payload_is_not_misread_as_flags() {
    // afc=0b11 with adaptation_field_length == 0 is legal single-byte
    // stuffing; byte 5 is then PAYLOAD. A payload byte with bit 7 set
    // must not be mistaken for the adaptation-field flags (in particular
    // for discontinuity_indicator).
    let mut checker = CcChecker::new();
    checker.check(&read_packet(&packet_bytes(0x100, 2, 0b01, 0, 0)));
    let suspect = read_packet(&packet_bytes(0x100, 3, 0b11, 0, 0x80));
    assert!(suspect.adaptation_field.is_none());
    assert!(suspect.payload.is_some());
    assert_eq!(checker.check(&suspect), CcStatus::Continuous);
    // Tracking survived: the next real gap is still detected.
    assert_eq!(
        checker.check(&read_packet(&packet_bytes(0x100, 5, 0b01, 0, 0))),
        CcStatus::Discontinuity {
            expected: ContinuityCounter::from_u8(4).unwrap(),
            got: ContinuityCounter::from_u8(5).unwrap(),
        }
    );
}

#[test]
fn discontinuity_indicator_via_reader_resets_state() {
    // adaptation_field_length == 1 carrying only the flags byte with
    // discontinuity_indicator set.
    let mut checker = CcChecker::new();
    checker.check(&read_packet(&packet_bytes(0x100, 0, 0b01, 0, 0)));
    let reset = read_packet(&packet_bytes(0x100, 1, 0b11, 1, 0x80));
    assert_eq!(
        reset
            .adaptation_field
            .as_ref()
            .unwrap()
            .discontinuity_indicator,
        true
    );
    assert_eq!(checker.check(&reset), CcStatus::Reset);
    assert_eq!(
        checker.check(&read_packet(&packet_bytes(0x100, 5, 0b01, 0, 0))),
        CcStatus::Continuous
    );
}

#[test]
fn indicator_without_payload_is_ignored() {
    let mut checker = CcChecker::default();
    checker.check(&packet(0x100, 0, None, true));
    assert_eq!(
        checker.check(&packet(0x100, 5, Some(adaptation_field(true)), false)),
        CcStatus::Continuous
    );
    assert!(matches!(
        checker.check(&packet(0x100, 5, None, true)),
        CcStatus::Discontinuity { .. }
    ));
}

#[test]
fn null_packets_and_erroneous_packets_are_checked() {
    let mut checker = CcChecker::new();
    checker.check(&packet(0x1FFF, 14, None, true));
    let mut erroneous = packet(0x1FFF, 0, None, true);
    erroneous.header.transport_error_indicator = true;
    assert_eq!(
        checker.check(&erroneous),
        CcStatus::Discontinuity {
            expected: ContinuityCounter::from_u8(15).unwrap(),
            got: ContinuityCounter::from_u8(0).unwrap(),
        }
    );
}

#[test]
fn status_depends_on_the_packets_of_the_own_pid() {
    let stream = [(1, 4), (2, 9), (1, 5), (2, 11), (3, 0), (1, 5), (2, 12), (1, 7)];
    let mut all = CcChecker::new();
    let mut alone = CcChecker::new();
    for (pid, cc) in stream {
        let status = all.check(&packet(pid, cc, None, true));
        if pid == 1 {
            assert_eq!(alone.check(&packet(pid, cc, None, true)), status);
        }
    }
}

#[test]
fn counters_and_pids_in_range() {
    let mut counter = ContinuityCounter::from_u8(14).unwrap();
    counter.increment();
    assert_eq!(counter.as_u8(), 15);
    counter.increment();
    assert_eq!(counter.as_u8(), 0);
    let err = ContinuityCounter::from_u8(16).unwrap_err();
    assert_eq!(err.kind, ErrorKind::InvalidInput);
    assert_eq!(err.reason, "Too large counter: 16");
    assert_eq!(Pid::new(0x1FFF).unwrap().as_u16(), Pid::MAX);
    assert_eq!(Pid::new(0x2000).unwrap_err().reason, "Too large PID: 8192");
    assert_eq!(Bytes::new(&[3; 184]).unwrap().as_slice(), &[3; 184]);
    let err = Bytes::new(&[0; 185]).unwrap_err();
    assert_eq!(err.reason, "Too large payload: 185");
}

#[test]
fn packet_with_every_adaptation_field() {
    let mut bytes = [0xFFu8; 188];
    bytes[..4].copy_from_slice(&[0x47, 0xA1, 0x23, 0xBC]);
    bytes[4] = 24;
    bytes[5] = 0x7F;
    let pcr = ClockReference::new(12_345_678).unwrap();
    let opcr = ClockReference::new(87_654_321).unwrap();
    bytes[6..12].copy_from_slice(&pcr.pcr_to_bytes());
    bytes[12..18].copy_from_slice(&opcr.pcr_to_bytes());
    bytes[18] = 0xFE;
    bytes[19..22].copy_from_slice(&[2, 10, 11]);
    bytes[22..26].copy_from_slice(&[3, 20, 21, 22]);
    bytes[29] = 0x66;
    let p = read_packet(&bytes);
    assert!(p.header.transport_error_indicator);
    assert!(p.header.transport_priority);
    assert_eq!(p.header.pid.as_u16(), 0x123);
    assert_eq!(
        p.header.transport_scrambling_control,
        TransportScramblingControl::ScrambledWithEvenKey
    );
    assert_eq!(p.header.continuity_counter.as_u8(), 12);
    assert_eq!(
        p.adaptation_field,
        Some(AdaptationField {
            discontinuity_indicator: false,
            random_access_indicator: true,
            es_priority_indicator: true,
            pcr: Some(pcr),
            opcr: Some(opcr),
            splice_countdown: Some(-2),
            transport_private_data: vec![10, 11],
            extension: Some(vec![20, 21, 22]),
        })
    );
    let mut payload = vec![0x66];
    payload.extend_from_slice(&[0xFF; 158]);
    assert_eq!(
        p.payload,
        Some(TsPayload::Raw(Bytes::new(&payload).unwrap()))
    );
    assert_eq!(p.clone(), p);
}

fn fault(bytes: &[u8]) -> (ErrorKind, String) {
    let err = TsPacketReader::new(bytes).read_ts_packet().unwrap_err();
    (err.kind, err.reason)
}

#[test]
fn packet_faults() {
    let invalid = |reason: &str| (ErrorKind::InvalidInput, reason.to_string());
    let mut bytes = packet_bytes(0x100, 0, 0b01, 0, 0);
    assert_eq!(fault(&bytes[..187]).0, ErrorKind::UnexpectedEof);
    bytes[0] = 0x48;
    assert_eq!(fault(&bytes), invalid("Unexpected sync byte"));
    let bytes = packet_bytes(0x100, 0, 0b101, 0, 0);
    assert_eq!(
        fault(&bytes),
        invalid("Unexpected transport scrambling control")
    );
    let bytes = packet_bytes(0x100, 0, 0b00, 0, 0);
    assert_eq!(
        fault(&bytes),
        invalid("Unexpected adaptation field control")
    );
    // A PCR does not fit in an adaptation field of six bytes.
    let bytes = packet_bytes(0x100, 0, 0b11, 6, 0x10);
    assert_eq!(fault(&bytes).0, ErrorKind::UnexpectedEof);
    // The zero byte behind the flags is not stuffing.
    let bytes = packet_bytes(0x100, 0, 0b10, 2, 0);
    assert_eq!(fault(&bytes), invalid("Unexpected stuffing byte"));
}

#[test]
fn packets_are_read_one_after_another() {
    let mut stream = packet_bytes(0x100, 1, 0b01, 0, 0).to_vec();
    stream.extend_from_slice(&packet_bytes(0x200, 2, 0b10, 1, 0));
    let mut reader = TsPacketReader::new(&stream);
    let first = reader.read_ts_packet().unwrap().unwrap();
    assert_eq!(first.header.pid.as_u16(), 0x100);
    let second = reader.read_ts_packet().unwrap().unwrap();
    assert_eq!(second.header.pid.as_u16(), 0x200);
    assert!(second.payload.is_none());
    assert!(reader.read_ts_packet().unwrap().is_none());
}
