use bytes::{BytesMut};
use loggest::{encode_header, encode_record, is_allowed_name, LoggestdCodec, LoggestdData, ProtocolError};

fn decode_all_items(codec: &mut LoggestdCodec, buf: &mut BytesMut) -> Vec<Result<Option<LoggestdData>, ProtocolError>> {
    let mut items = Vec::new();
    loop {
        let r = codec.decode(buf);
        let stop = !matches!(r, Ok(Some(_)));
        items.push(r);
        if stop {
            return items;
        }
    }
}

#[test]
fn header_round_trip_of_empty_name() {
    let header = encode_header("").unwrap();
    assert_eq!(header, vec![0u8, 0u8]);
    let mut buf = BytesMut::from(&header[..]);
    let mut codec = LoggestdCodec::new();
    match codec.decode(&mut buf) {
        Ok(Some(LoggestdData::FileName(name))) => assert_eq!(name, ""),
        _ => panic!("expected the empty name"),
    }
    assert_eq!(buf.len(), 0);
}

#[test]
fn header_round_trip_of_longest_name() {
    let name: String = std::iter::repeat('a').take(65535).collect();
    let header = encode_header(&name).unwrap();
    assert_eq!(header.len(), 65537);
    assert_eq!(&header[..2], &[0xffu8, 0xffu8][..]);
    let mut with_rest = header.clone();
    with_rest.extend_from_slice(b"rest");
    let mut buf = BytesMut::from(&with_rest[..]);
    let mut codec = LoggestdCodec::new();
    match codec.decode(&mut buf) {
        Ok(Some(LoggestdData::FileName(decoded))) => assert_eq!(decoded, name),
        _ => panic!("expected the name"),
    }
    assert_eq!(&buf[..], b"rest");
}

#[test]
fn header_of_too_long_name_is_refused() {
    let name: String = std::iter::repeat('b').take(65536).collect();
    assert!(encode_header(&name).is_none());
}

#[test]
fn header_round_trip_of_multibyte_name() {
    let header = encode_header("jörð.7").unwrap();
    assert_eq!(header[..2], [0u8, 8u8]);
    let mut buf = BytesMut::from(&header[..]);
    let mut codec = LoggestdCodec::default();
    match codec.decode(&mut buf) {
        Ok(Some(LoggestdData::FileName(name))) => assert_eq!(name, "jörð.7"),
        _ => panic!("expected the name"),
    }
}

#[test]
fn incomplete_header_waits() {
    let mut codec = LoggestdCodec::new();
    let mut buf = BytesMut::from(&[0u8][..]);
    assert!(matches!(codec.decode(&mut buf), Ok(None)));
    assert_eq!(buf.len(), 1);
    let mut buf = BytesMut::from(&[0u8, 5, b'a', b'b'][..]);
    assert!(matches!(codec.decode(&mut buf), Ok(None)));
    assert_eq!(buf.len(), 4);
    buf.extend_from_slice(b"cde");
    match codec.decode(&mut buf) {
        Ok(Some(LoggestdData::FileName(name))) => assert_eq!(name, "abcde"),
        _ => panic!("expected the name"),
    }
}

#[test]
fn data_after_header_passes_as_one_chunk() {
    let mut bytes = encode_header("worker.7").unwrap();
    bytes.extend_from_slice(&encode_record(1000, "x"));
    let mut buf = BytesMut::from(&bytes[..]);
    let mut codec = LoggestdCodec::new();
    let items = decode_all_items(&mut codec, &mut buf);
    assert_eq!(items.len(), 3);
    match &items[1] {
        Ok(Some(LoggestdData::FileData(d))) => assert_eq!(&d[..], &encode_record(1000, "x")[..]),
        _ => panic!("expected data"),
    }
    assert!(matches!(items[2], Ok(None)));
    buf.extend_from_slice(b"more");
    match codec.decode(&mut buf) {
        Ok(Some(LoggestdData::FileData(d))) => assert_eq!(&d[..], b"more"),
        _ => panic!("expected data"),
    }
    assert_eq!(buf.len(), 0);
}

#[test]
fn invalid_utf8_name_is_a_protocol_error() {
    let mut buf = BytesMut::from(&[0u8, 2, 0xff, 0xfe][..]);
    let mut codec = LoggestdCodec::new();
    assert_eq!(codec.decode(&mut buf).err(), Some(ProtocolError::InvalidUtf8));
}

#[test]
fn path_names_are_protocol_errors() {
    for name in ["a/b", "/abs", "..", "x/"] {
        let header = encode_header(name).unwrap();
        let mut buf = BytesMut::from(&header[..]);
        let mut codec = LoggestdCodec::new();
        assert_eq!(codec.decode(&mut buf).err(), Some(ProtocolError::InvalidName), "{}", name);
    }
}

#[test]
fn allowed_names() {
    assert!(is_allowed_name("app"));
    assert!(is_allowed_name(""));
    assert!(is_allowed_name("..."));
    assert!(is_allowed_name("a.b"));
    assert!(!is_allowed_name(".."));
    assert!(is_allowed_name("."));
    assert!(is_allowed_name(".a"));
    assert!(!is_allowed_name("a/b"));
}

#[test]
fn record_layout() {
    let r = encode_record(0x0102030405060708, "hi");
    assert_eq!(r, vec![8u8, 7, 6, 5, 4, 3, 2, 1, b'h', b'i', b'\n']);
}

#[test]
fn single_dot_name_is_accepted_and_rest_kept() {
    let mut bytes = encode_header(".").unwrap();
    bytes.extend_from_slice(b"tail");
    let mut buf = BytesMut::from(&bytes[..]);
    let mut codec = LoggestdCodec::new();
    match codec.decode(&mut buf) {
        Ok(Some(LoggestdData::FileName(name))) => assert_eq!(name, "."),
        _ => panic!("expected the name"),
    }
    assert_eq!(&buf[..], b"tail");
}
