use packfile::PktLine;

/// The maximum payload of one physical pkt-line packet.
const MAX_DATA_LEN: usize = 65516;

#[test]
fn test_pkt_line() {
    let mut buffer = Vec::new();
    PktLine::from("agent=git/2.32.0\n")
        .encode_to(&mut buffer)
        .unwrap();
    assert_eq!(buffer.as_slice(), b"0015agent=git/2.32.0\n");
}

#[test]
fn test_large_pkt_line() {
    let mut buffer = Vec::new();
    PktLine::from("a".repeat(70000).as_str())
        .encode_to(&mut buffer)
        .unwrap();
    assert_eq!(
        buffer.len(),
        70008,
        "should be two chunks each with a 4-byte len header"
    );

    // chunk 1
    assert_eq!(
        std::str::from_utf8(&buffer[..4]).unwrap(),
        format!("{:04x}", 4 + MAX_DATA_LEN)
    );
    assert!(
        buffer[4..4 + MAX_DATA_LEN]
            .iter()
            .all(|b| char::from(*b) == 'a'),
        "data should be all 'a's"
    );

    // chunk 2
    assert_eq!(
        std::str::from_utf8(&buffer[4 + MAX_DATA_LEN..][..4]).unwrap(),
        format!("{:04x}", 4 + (70000 - MAX_DATA_LEN))
    );
    assert!(
        buffer[4 + MAX_DATA_LEN + 4..]
            .iter()
            .all(|b| char::from(*b) == 'a'),
        "data should be all 'a's"
    );
}

#[test]
fn control_markers() {
    let mut buffer = Vec::new();
    PktLine::Flush.encode_to(&mut buffer).unwrap();
    PktLine::Delimiter.encode_to(&mut buffer).unwrap();
    PktLine::ResponseEnd.encode_to(&mut buffer).unwrap();
    assert_eq!(buffer.as_slice(), b"000000010002");
}

#[test]
fn empty_data_emits_no_frame() {
    let mut buffer = Vec::new();
    PktLine::Data(b"").encode_to(&mut buffer).unwrap();
    assert!(buffer.is_empty());
}

#[test]
fn sideband_msg_tags_every_chunk() {
    let mut buffer = Vec::new();
    PktLine::SidebandMsg(b"remote: done\n")
        .encode_to(&mut buffer)
        .unwrap();
    // 13 payload bytes + 4 length bytes + 1 channel byte = 0x12
    assert_eq!(buffer.as_slice(), b"0012\x02remote: done\n");
}
