use adbs::track::{parse_hex, read_list, track, wanted, Awaiting, TrackError, TrackStep};

fn failure(awaiting: Awaiting, read: Option<&[u8]>) -> Option<TrackError> {
    match track(awaiting, read) {
        TrackStep::Fail(error) => Some(error),
        _ => None,
    }
}

#[test]
fn numbers_are_read_as_the_standard_library_does() {
    for s in [
        "", "+", "-", "0000", "00ff", "00FF", "+0a1", "++01", "-001", "00g0", " 001", "ffff",
        "ffffffffffffffff", "10000000000000000", "00000000000000000000001", "é1",
    ] {
        assert_eq!(parse_hex(s), usize::from_str_radix(s, 16).ok(), "{:?}", s);
    }
}

#[test]
fn every_length_is_read_back() {
    for n in 0..=0xffffusize {
        let header = format!("{:04x}", n);
        match track(Awaiting::Length, Some(header.as_bytes())) {
            TrackStep::Read(Awaiting::List(m)) => assert_eq!(m, n),
            _ => panic!("{}", header),
        }
    }
}

#[test]
fn only_ready_devices_are_listed() {
    let text = "a1\tdevice\nb2\toffline\n\n c3 \t device \r\nd4 device\ne5\tdevice\tx\n";
    assert_eq!(read_list(text), ["a1", "c3"]);
    assert_eq!(read_list(""), Vec::<String>::new());
    assert_eq!(read_list("x\tdevice\nx\tdevice"), ["x", "x"]);
    assert_eq!(read_list("\tdevice"), Vec::<String>::new());
}

#[test]
fn a_frame_is_read_back() {
    let list = "a1\tdevice\nb2\tunauthorized\nc3\tdevice\n";
    let header = format!("{:04x}", list.len());
    let awaiting = match track(Awaiting::Length, Some(header.as_bytes())) {
        TrackStep::Read(awaiting) => awaiting,
        _ => panic!("no length"),
    };
    assert_eq!(wanted(awaiting), list.len());
    match track(awaiting, Some(list.as_bytes())) {
        TrackStep::Announce(serials) => assert_eq!(serials, ["a1", "c3"]),
        _ => panic!("no list"),
    }
}

#[test]
fn the_stream_may_end_between_frames() {
    assert_eq!(wanted(Awaiting::Length), 4);
    assert!(matches!(track(Awaiting::Length, None), TrackStep::Stop));
}

#[test]
fn every_failure_has_its_error() {
    assert_eq!(
        failure(Awaiting::Length, Some(&[b'0', b'0', 0xff, b'1'])),
        Some(TrackError::LengthNotUtf8)
    );
    assert_eq!(failure(Awaiting::Length, Some(b"00x1")), Some(TrackError::LengthNotHex));
    assert_eq!(failure(Awaiting::List(5), None), Some(TrackError::ListMissing));
    assert_eq!(
        failure(Awaiting::List(3), Some(&[b'a', 0xc3, 0x28])),
        Some(TrackError::ListNotUtf8)
    );
}

#[test]
fn an_empty_list_announces_nothing() {
    match track(Awaiting::List(0), Some(&[])) {
        TrackStep::Announce(serials) => assert_eq!(serials, Vec::<String>::new()),
        _ => panic!("no list"),
    }
}
