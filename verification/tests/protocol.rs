use lib::protocol::{
    ctl_error, ctl_status, encode, max_payload, parse_ctl, Ctl, Packet, PacketReader,
    ProtocolError, STREAM_CTL, STREAM_ERR, STREAM_OUT,
};

fn read_all(bytes: &[u8]) -> Vec<Packet> {
    let mut reader = PacketReader::from_bytes(bytes);
    let mut out = Vec::new();
    loop {
        match reader.read_packet().expect("a closed stream always decides") {
            Ok(Some(p)) => out.push(p),
            Ok(None) => break,
            Err(e) => panic!("unexpected error {e:?}"),
        }
    }
    out
}

#[test]
fn roundtrip_single() {
    let mut buf = Vec::new();
    encode(&mut buf, STREAM_OUT, b"hi");
    // a 29-byte packet: start marker, length, stream name, payload, end
    assert_eq!(buf, b"# RePLstOKE/1.0 00029 out\nhi\n");
    let packets = read_all(&buf);
    assert_eq!(packets.len(), 1);
    assert_eq!(packets[0].stream, "out");
    assert_eq!(packets[0].payload, b"hi");
}

#[test]
fn roundtrip_empty_payload() {
    let mut buf = Vec::new();
    encode(&mut buf, STREAM_ERR, b"");
    let packets = read_all(&buf);
    assert_eq!(packets.len(), 1);
    assert_eq!(packets[0].stream, "err");
    assert!(packets[0].payload.is_empty());
}

#[test]
fn binary_payload_with_markers_inside() {
    // payload contains newlines and even the start-marker bytes
    let payload = b"\n# RePLstOKE/1.0 \x00\xff\n\n".to_vec();
    let mut buf = Vec::new();
    encode(&mut buf, STREAM_OUT, &payload);
    let packets = read_all(&buf);
    assert_eq!(packets.len(), 1);
    assert_eq!(packets[0].payload, payload);
}

#[test]
fn large_payload_is_split() {
    let cap = max_payload(STREAM_OUT);
    let payload = vec![b'x'; cap + 100];
    let mut buf = Vec::new();
    encode(&mut buf, STREAM_OUT, &payload);
    let packets = read_all(&buf);
    assert_eq!(packets.len(), 2);
    let mut joined = Vec::new();
    for p in &packets {
        assert_eq!(p.stream, "out");
        joined.extend_from_slice(&p.payload);
    }
    assert_eq!(joined, payload);
}

#[test]
fn clean_eof_returns_none() {
    let mut reader = PacketReader::from_bytes(b"");
    assert!(reader.read_packet().expect("decided").unwrap().is_none());
}

#[test]
fn garbage_is_bad_framing() {
    let mut reader = PacketReader::from_bytes(b"not a packet at all");
    match reader.read_packet() {
        Some(Err(ProtocolError::BadFraming(_))) => {}
        other => panic!("expected BadFraming, got {other:?}"),
    }
}

#[test]
fn higher_major_version_is_unsupported() {
    let pkt = b"# RePLstOKE/2.0 00029 out\nhi\n";
    let mut reader = PacketReader::from_bytes(&pkt[..]);
    match reader.read_packet() {
        Some(Err(ProtocolError::UnsupportedVersion { major: 2, minor: 0 })) => {}
        other => panic!("expected UnsupportedVersion, got {other:?}"),
    }
}

#[test]
fn ctl_roundtrip() {
    let mut buf = Vec::new();
    encode(&mut buf, STREAM_CTL, &ctl_status("ready=1 repl_pid=9"));
    let packets = read_all(&buf);
    assert_eq!(packets[0].stream, "ctl");
    assert_eq!(
        parse_ctl(&packets[0].payload),
        Ctl::Status("ready=1 repl_pid=9".into())
    );
}

#[test]
fn ctl_parsing() {
    assert_eq!(parse_ctl(b"status ready=1"), Ctl::Status("ready=1".into()));
    assert_eq!(
        parse_ctl(b"error repl exited"),
        Ctl::Error("repl exited".into())
    );
    assert_eq!(parse_ctl(b"weird thing"), Ctl::Other("weird thing".into()));
    assert_eq!(parse_ctl(b"status"), Ctl::Status(String::new()));
}

// ---- further cases -------------------------------------------------------------

fn first_error(bytes: &[u8]) -> String {
    match PacketReader::from_bytes(bytes).read_packet() {
        Some(Err(ProtocolError::BadFraming(m))) => m,
        other => panic!("expected BadFraming, got {other:?}"),
    }
}

#[test]
fn framing_faults_are_named() {
    assert_eq!(first_error(b"x"), "missing packet start marker");
    assert_eq!(first_error(b"# RePLstOKx/1.0 00029 out\nhi\n"), "bad packet start marker");
    assert_eq!(first_error(b"# RePLstOKE/1.0 000"), "truncated packet");
    assert_eq!(first_error(b"# RePLstOKE/1x0 00029 out\nhi\n"), "bad version");
    assert_eq!(first_error(b"# RePLstOKE/1.0 00a29 out\nhi\n"), "bad length");
    assert_eq!(first_error(b"# RePLstOKE/1.0 00020 out\nhi\n"), "packet length too small");
    assert_eq!(first_error(b"# RePLstOKE/1.0 00029 out\nhiX"), "missing packet terminator");
}

#[test]
fn pieces_arrive_later() {
    let mut buf = Vec::new();
    encode(&mut buf, STREAM_OUT, b"hello");
    let mut reader = PacketReader::new();
    reader.push(&buf[..10]);
    assert!(reader.read_packet().is_none());
    reader.push(&buf[10..]);
    match reader.read_packet() {
        Some(Ok(Some(p))) => assert_eq!(p.payload, b"hello"),
        other => panic!("expected a packet, got {other:?}"),
    }
    assert!(reader.read_packet().is_none());
    reader.close();
    assert!(matches!(reader.read_packet(), Some(Ok(None))));
}

#[test]
fn ctl_error_roundtrip() {
    let payload = ctl_error("the REPL process exited");
    assert_eq!(payload, b"error the REPL process exited");
    assert_eq!(parse_ctl(&payload), Ctl::Error("the REPL process exited".into()));
}

#[test]
fn max_payload_for_out() {
    assert_eq!(max_payload(STREAM_OUT), 99_999 - 27);
}

#[test]
fn newer_minor_version_is_read() {
    // within one major version changes are backward compatible
    let packets = read_all(b"# RePLstOKE/1.7 00029 out\nhi\n");
    assert_eq!(packets.len(), 1);
    assert_eq!(packets[0].payload, b"hi");
}
