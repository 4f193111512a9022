use thoenix::codec::{FrameError, GitCodec, GitMessage};

fn decode_all(codec: &mut GitCodec, buf: &mut Vec<u8>) -> Vec<GitMessage> {
    let mut msgs = Vec::new();
    loop {
        match codec.decode(buf) {
            Ok(Some(m)) => msgs.push(m),
            Ok(None) => break,
            Err(e) => panic!("unexpected framing error: {e:?}"),
        }
    }
    msgs
}

#[test]
fn test_data_round_trip() {
    let codec = GitCodec::new();
    let payload = b"hello world".to_vec();
    let mut wire = Vec::new();
    codec.encode(&GitMessage::Data(payload.clone()), &mut wire);
    assert_eq!(&wire[..4], b"000f");

    let mut codec = GitCodec::new();
    let mut buf = wire;
    let msg = codec.decode(&mut buf).unwrap().unwrap();
    assert_eq!(msg, GitMessage::Data(payload));
    assert!(buf.is_empty());
}

#[test]
fn test_flush_round_trip() {
    let codec = GitCodec::new();
    let mut wire = Vec::new();
    codec.encode(&GitMessage::Flush, &mut wire);
    assert_eq!(wire, b"0000".to_vec());

    let mut codec = GitCodec::new();
    let mut buf = wire;
    let msg = codec.decode(&mut buf).unwrap().unwrap();
    assert_eq!(msg, GitMessage::Flush);
    assert!(buf.is_empty());
}

#[test]
fn test_empty_payload_encodes_as_flush() {
    let codec = GitCodec::new();
    let mut a = Vec::new();
    codec.encode(&GitMessage::Data(Vec::new()), &mut a);
    let mut b = Vec::new();
    codec.encode(&GitMessage::Flush, &mut b);
    assert_eq!(a, b);
    assert_eq!(a, b"0000".to_vec());
}

#[test]
fn test_incremental_feed_matches_whole_feed() {
    let codec = GitCodec::new();
    let mut wire = Vec::new();
    codec.encode(&GitMessage::Data(b"first line\n".to_vec()), &mut wire);
    codec.encode(&GitMessage::Data(b"second".to_vec()), &mut wire);
    codec.encode(&GitMessage::Flush, &mut wire);
    codec.encode(&GitMessage::Data(b"after the boundary".to_vec()), &mut wire);

    let mut whole_codec = GitCodec::new();
    let mut whole_buf = wire.clone();
    let whole = decode_all(&mut whole_codec, &mut whole_buf);

    let mut inc_codec = GitCodec::new();
    let mut inc_buf: Vec<u8> = Vec::new();
    let mut incremental = Vec::new();
    for byte in wire {
        inc_buf.push(byte);
        incremental.extend(decode_all(&mut inc_codec, &mut inc_buf));
    }

    assert_eq!(incremental, whole);
    assert!(whole_buf.is_empty());
    assert!(inc_buf.is_empty());
}

#[test]
fn test_pack_mode_sticky() {
    let mut codec = GitCodec::new();
    let mut buf = b"PACK\x00\x00\x00\x02rest".to_vec();
    let msg = codec.decode(&mut buf).unwrap().unwrap();
    assert_eq!(msg, GitMessage::PackData(b"PACK\x00\x00\x00\x02rest".to_vec()));
    assert!(buf.is_empty());

    // Frame-shaped bytes after the magic must stay raw passthrough.
    buf.extend_from_slice(b"0009hello");
    let msg = codec.decode(&mut buf).unwrap().unwrap();
    assert_eq!(msg, GitMessage::PackData(b"0009hello".to_vec()));
    assert!(buf.is_empty());
}

#[test]
fn test_malformed_length_rejected() {
    let mut codec = GitCodec::new();
    let mut buf = b"000ghello".to_vec();
    let err = codec.decode(&mut buf).unwrap_err();
    assert_eq!(err, FrameError::ParseLengthBytes);
    // Nothing was consumed.
    assert_eq!(buf, b"000ghello".to_vec());
}

#[test]
fn test_underflow_length_rejected() {
    let mut codec = GitCodec::new();
    let mut buf = b"0002".to_vec();
    let err = codec.decode(&mut buf).unwrap_err();
    assert_eq!(err, FrameError::InvalidChunkLength);
    assert_eq!(buf, b"0002".to_vec());
}

#[test]
fn test_incomplete_header_waits() {
    let mut codec = GitCodec::new();
    let mut buf = b"000".to_vec();
    assert!(codec.decode(&mut buf).unwrap().is_none());
    assert_eq!(buf, b"000".to_vec());
}

#[test]
fn test_incomplete_payload_waits_without_consuming() {
    let mut codec = GitCodec::new();
    let mut buf = b"0009hel".to_vec();
    assert!(codec.decode(&mut buf).unwrap().is_none());
    assert_eq!(buf, b"0009hel".to_vec());
    // A later call with the completed frame sees the same prefix.
    buf.extend_from_slice(b"lo");
    let msg = codec.decode(&mut buf).unwrap().unwrap();
    assert_eq!(msg, GitMessage::Data(b"hello".to_vec()));
}

#[test]
fn test_uppercase_hex_accepted() {
    let mut codec = GitCodec::new();
    let mut buf = b"000A6bytes".to_vec();
    let msg = codec.decode(&mut buf).unwrap().unwrap();
    assert_eq!(msg, GitMessage::Data(b"6bytes".to_vec()));
}

#[test]
fn test_ref_listing_line_scenario() {
    // A first ref-listing line: object id, ref name, NUL, capabilities,
    // newline — 173 bytes, so a frame of total length 177 = 0x00b1.
    let mut payload = Vec::new();
    payload.extend_from_slice(b"cded0bb02d97f4a1e9fcb4571d9502e547b5e828 refs/heads/main");
    payload.push(0);
    payload.extend_from_slice(
        b"report-status report-status-v2 delete-refs side-band-64k quiet atomic \
          ofs-delta object-format=sha1 agent=git/2.38.1\n",
    );
    assert_eq!(payload.len(), 173);

    let codec = GitCodec::new();
    let mut wire = Vec::new();
    codec.encode(&GitMessage::Data(payload.clone()), &mut wire);
    assert_eq!(&wire[..4], b"00b1");
    assert_eq!(&wire[4..], &payload[..]);

    let mut codec = GitCodec::new();
    let mut buf = wire;
    let msg = codec.decode(&mut buf).unwrap().unwrap();
    assert_eq!(msg, GitMessage::Data(payload));
    assert!(buf.is_empty());
}

#[test]
fn test_pack_data_encodes_verbatim() {
    let codec = GitCodec::new();
    let mut wire = Vec::new();
    codec.encode(&GitMessage::PackData(b"PACKxyz".to_vec()), &mut wire);
    assert_eq!(wire, b"PACKxyz".to_vec());
}
