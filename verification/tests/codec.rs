use packfile::codec::{Encoder, GitCodec, GitCommand};
use packfile::{Error, PktLine};

#[test]
fn encode() {
    let mut bytes = Vec::new();
    Encoder
        .encode(PktLine::Data(&[1, 2, 3, 4]), &mut bytes)
        .unwrap();

    assert_eq!(bytes, b"0008\x01\x02\x03\x04".to_vec());
}

#[test]
fn decode() {
    let mut codec = GitCodec::default();

    let mut bytes = Vec::new();

    bytes.extend_from_slice(b"0015agent=git/2.32.0");
    let res = codec.decode(&mut bytes).unwrap();
    assert_eq!(res, None);

    bytes.push(b'\n');
    let res = codec.decode(&mut bytes).unwrap();
    assert_eq!(res, None);

    bytes.extend_from_slice(b"0000");
    let res = codec.decode(&mut bytes).unwrap();
    assert_eq!(
        res,
        Some(GitCommand {
            command: b"agent=git/2.32.0".to_vec(),
            metadata: vec![],
        })
    );

    bytes.extend_from_slice(b"0000");
    let res = codec.decode(&mut bytes).unwrap();
    assert_eq!(
        res,
        Some(GitCommand {
            command: Vec::new(),
            metadata: vec![],
        })
    );

    bytes.extend_from_slice(b"0002");
    bytes.extend_from_slice(b"0005a");
    bytes.extend_from_slice(b"0001");
    bytes.extend_from_slice(b"0005b");
    bytes.extend_from_slice(b"0000");

    let res = codec.decode(&mut bytes).unwrap();
    assert_eq!(
        res,
        Some(GitCommand {
            command: b"a".to_vec(),
            metadata: vec![b"b".to_vec()],
        })
    );
}

#[test]
fn encode_then_decode() {
    let mut wire = Vec::new();
    Encoder
        .encode(PktLine::Data(b"command=fetch"), &mut wire)
        .unwrap();
    Encoder
        .encode(PktLine::Delimiter, &mut wire)
        .unwrap();
    Encoder
        .encode(PktLine::Data(b"thin-pack\n"), &mut wire)
        .unwrap();
    Encoder.encode(PktLine::Flush, &mut wire).unwrap();

    let mut codec = GitCodec::default();
    let res = codec.decode(&mut wire).unwrap();
    assert_eq!(
        res,
        Some(GitCommand {
            command: b"command=fetch".to_vec(),
            metadata: vec![b"thin-pack".to_vec()],
        })
    );
    assert!(wire.is_empty());
}

#[test]
fn decode_invalid_utf8_prefix() {
    let mut codec = GitCodec::default();
    let mut bytes = vec![0xff, 0xfe, 0xfd, 0xfc];
    let res = codec.decode(&mut bytes);
    assert_eq!(res, Err(Error::ParseLengthBytes));
}

#[test]
fn decode_invalid_hex_prefix() {
    let mut codec = GitCodec::default();
    let mut bytes = b"00g0".to_vec();
    let res = codec.decode(&mut bytes);
    assert_eq!(res, Err(Error::ParseLengthAsHex));
}

#[test]
fn decode_length_outside_spec() {
    let mut codec = GitCodec::default();
    let mut bytes = b"0003".to_vec();
    let res = codec.decode(&mut bytes);
    assert_eq!(
        res,
        Err(Error::PacketLengthExceedsSpec {
            min: 4,
            max: 65520,
            found: 3,
        })
    );
}

#[test]
fn decode_byte_by_byte_matches_whole_buffer() {
    let input: &[u8] = b"00020005a00010005b0000";

    // whole buffer at once
    let mut whole_codec = GitCodec::default();
    let mut whole = input.to_vec();
    let expected = whole_codec.decode(&mut whole).unwrap();
    assert!(expected.is_some());

    // one byte per invocation
    let mut codec = GitCodec::default();
    let mut buffer = Vec::new();
    let mut produced = None;
    for (i, byte) in input.iter().enumerate() {
        buffer.push(*byte);
        let res = codec.decode(&mut buffer).unwrap();
        if res.is_some() {
            assert_eq!(i, input.len() - 1, "only the final byte completes a command");
            produced = res;
        }
    }

    assert_eq!(produced, expected);
}

#[test]
fn decode_signed_length_prefixes() {
    // an unsigned hexadecimal parse accepts a leading plus sign but
    // rejects a minus sign
    let mut codec = GitCodec::default();
    let mut bytes = b"+005a0000".to_vec();
    let res = codec.decode(&mut bytes).unwrap();
    assert_eq!(
        res,
        Some(GitCommand {
            command: b"a".to_vec(),
            metadata: vec![],
        })
    );

    let mut bytes = b"-000".to_vec();
    let res = codec.decode(&mut bytes);
    assert_eq!(res, Err(Error::ParseLengthAsHex));
}

#[test]
fn decode_strips_at_most_one_newline() {
    let mut codec = GitCodec::default();
    let mut bytes = b"0007a\n\n0000".to_vec();
    let res = codec.decode(&mut bytes).unwrap();
    assert_eq!(
        res,
        Some(GitCommand {
            command: b"a\n".to_vec(),
            metadata: vec![],
        })
    );
}
