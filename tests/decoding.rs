use bytes::BytesMut;
use loggest::{
    decode_stream, decoded_path, first_failure, encode_record, select_output, IoymError, LoggestdCodec, LoggestdData,
    LoggestdSession, Output, RecordDecoder, Session, SessionAction, StorageConfig, Transport, TransportError,
};

struct MemoryTransport {
    bytes: Vec<u8>,
}

impl Transport for MemoryTransport {
    fn write_all(&mut self, buf: &[u8]) -> Result<(), TransportError> {
        self.bytes.extend_from_slice(buf);
        Ok(())
    }

    fn flush(&mut self) -> Result<(), TransportError> {
        Ok(())
    }
}

fn records(list: &[(u64, &str)]) -> Vec<u8> {
    let mut v = Vec::new();
    for (t, line) in list {
        v.extend_from_slice(&encode_record(*t, line));
    }
    v
}

#[test]
fn end_to_end_worker_scenario() {
    // Client side: establish, then two records, over an in-memory stream.
    let transport = MemoryTransport { bytes: Vec::new() };
    let mut session = Session::new(transport).establish("worker.7").unwrap();
    session.write_record(1000, "[INFO] app -- hello").unwrap();
    session.write_record(2000, "[WARN] app -- bye").unwrap();
    let wire = records(&[(1000, "[INFO] app -- hello"), (2000, "[WARN] app -- bye")]);
    let mut expected_wire = loggest::encode_header("worker.7").unwrap();
    expected_wire.extend_from_slice(&wire);

    // Daemon side: frame, session, log file.
    let mut buf = BytesMut::from(&expected_wire[..]);
    let mut codec = LoggestdCodec::new();
    let mut daemon = LoggestdSession::new("/logs", StorageConfig::standard());
    let mut frames = Vec::new();
    while let Ok(Some(item)) = codec.decode(&mut buf) {
        match daemon.handle(item).unwrap() {
            SessionAction::CreateFile(path) => assert_eq!(path, "/logs/worker.7.01.ioym"),
            SessionAction::Write(plan) => frames.extend_from_slice(&plan.frame),
            SessionAction::Nothing => {}
        }
    }
    let end = daemon.finish();
    assert_eq!(end.archive.unwrap().to, "/logs/archived/worker.7.01.ioym");

    // Decoder side.
    let decompressed = zstd::stream::decode_all(&frames[..]).unwrap();
    assert_eq!(decompressed, wire);
    let text = decode_stream(&vec![decompressed], 0).unwrap();
    assert_eq!(
        String::from_utf8(text).unwrap(),
        "1970-01-01 00:00:01.000 [INFO] app -- hello\n1970-01-01 00:00:02.000 [WARN] app -- bye\n"
    );
}

#[test]
fn frames_of_separate_writes_decode_as_one_stream() {
    let wire = records(&[(1, "a"), (2, "bb"), (3, "ccc")]);
    let mut file = loggest::LogFile::open("d", "n", StorageConfig::standard());
    let mut stored = Vec::new();
    for piece in [&wire[..5], &wire[5..13], &wire[13..]] {
        let plan = file.write(&bytes::Bytes::from(piece.to_vec())).unwrap();
        stored.extend_from_slice(&plan.frame);
    }
    let decompressed = zstd::stream::decode_all(&stored[..]).unwrap();
    assert_eq!(decompressed, wire);
    let text = decode_stream(&vec![decompressed], 0).unwrap();
    assert_eq!(
        String::from_utf8(text).unwrap(),
        "1970-01-01 00:00:00.001 a\n1970-01-01 00:00:00.002 bb\n1970-01-01 00:00:00.003 ccc\n"
    );
}

#[test]
fn any_split_decodes_the_same() {
    let wire = records(&[(86_400_000 + 61_001, "first line"), (1, ""), (999, "x")]);
    let whole = decode_stream(&vec![wire.clone()], 0).unwrap();
    assert_eq!(
        String::from_utf8(whole.clone()).unwrap(),
        "1970-01-02 00:01:01.001 first line\n1970-01-01 00:00:00.001 \n1970-01-01 00:00:00.999 x\n"
    );
    for a in 0..=wire.len() {
        for b in a..=wire.len() {
            let chunks = vec![wire[..a].to_vec(), wire[a..b].to_vec(), wire[b..].to_vec()];
            assert_eq!(decode_stream(&chunks, 0).unwrap(), whole);
        }
    }
    let bytewise: Vec<Vec<u8>> = wire.iter().map(|b| vec![*b]).collect();
    assert_eq!(decode_stream(&bytewise, 0).unwrap(), whole);
}

#[test]
fn unrepresentable_timestamp_keeps_the_line() {
    let wire = records(&[(u64::MAX, "raw text"), (1000, "next")]);
    let text = decode_stream(&vec![wire], 0).unwrap();
    assert_eq!(String::from_utf8(text).unwrap(), "raw text\n1970-01-01 00:00:01.000 next\n");
    let wire = records(&[(i64::MAX as u64, "also raw")]);
    let text = decode_stream(&vec![wire], 0).unwrap();
    assert_eq!(String::from_utf8(text).unwrap(), "also raw\n");
}

#[test]
fn offsets_and_wide_years() {
    let wire = records(&[(0, "east")]);
    let text = decode_stream(&vec![wire.clone()], 3600).unwrap();
    assert_eq!(String::from_utf8(text).unwrap(), "1970-01-01 01:00:00.000 east\n");
    let text = decode_stream(&vec![wire], -3600).unwrap();
    assert_eq!(String::from_utf8(text).unwrap(), "1969-12-31 23:00:00.000 east\n");
    let wire = records(&[(253_402_300_800_000, "far")]);
    let text = decode_stream(&vec![wire], 0).unwrap();
    assert_eq!(String::from_utf8(text).unwrap(), "10000-01-01 00:00:00.000 far\n");
}

#[test]
fn truncated_streams_end_quietly() {
    let mut wire = records(&[(1000, "done")]);
    wire.extend_from_slice(&[1, 2, 3]);
    let text = decode_stream(&vec![wire], 0).unwrap();
    assert_eq!(String::from_utf8(text).unwrap(), "1970-01-01 00:00:01.000 done\n");
    let mut wire = records(&[(1000, "done")]);
    wire.extend_from_slice(&encode_record(2000, "cut")[..10]);
    let text = decode_stream(&vec![wire], 0).unwrap();
    assert_eq!(String::from_utf8(text).unwrap(), "1970-01-01 00:00:01.000 done\n1970-01-01 00:00:02.000 cu");
    assert!(decode_stream(&vec![], 0).unwrap().is_empty());
}

#[test]
fn incremental_decoder_and_offset_range() {
    assert!(RecordDecoder::new(86_400).is_none());
    assert!(RecordDecoder::new(-86_400).is_none());
    let mut d = RecordDecoder::new(0).unwrap();
    let wire = encode_record(1000, "line");
    let mut out = d.feed(&wire[..3]);
    assert!(out.is_empty());
    out.extend(d.feed(&wire[3..9]));
    assert_eq!(String::from_utf8(out.clone()).unwrap(), "1970-01-01 00:00:01.000 l");
    out.extend(d.feed(&wire[9..]));
    out.extend(d.finish());
    assert_eq!(String::from_utf8(out).unwrap(), "1970-01-01 00:00:01.000 line\n");
}

#[test]
fn output_paths_and_modes() {
    assert_eq!(decoded_path("/logs/app.01.ioym").unwrap(), "/logs/app.01");
    assert_eq!(decoded_path("app.ioym").unwrap(), "app");
    assert_eq!(decoded_path("/logs/.ioym"), Err(IoymError::UnsupportedFileType("/logs/.ioym".to_string())));
    assert_eq!(decoded_path("app.log"), Err(IoymError::UnsupportedFileType("app.log".to_string())));
    assert_eq!(decoded_path("ioym"), Err(IoymError::UnsupportedFileType("ioym".to_string())));
    assert_eq!(select_output(true, 1), Ok(Output::Stdout));
    assert_eq!(select_output(false, 3), Ok(Output::File));
    assert_eq!(select_output(true, 2), Err(IoymError::StdoutForbidsMultipleInputs));
}

#[test]
fn test_ioym_decode() {
    let mut compressed = zstd::stream::encode_all(&records(&[(1_546_300_800_000, "[INFO] sample -- started")])[..], 1).unwrap();
    compressed.extend(zstd::stream::encode_all(&records(&[(1_546_300_800_123, "[DEBUG] sample -- working")])[..], 1).unwrap());
    let sample_output = "2019-01-01 00:00:00.000 [INFO] sample -- started\n2019-01-01 00:00:00.123 [DEBUG] sample -- working\n";

    let mut input = zstd::stream::read::Decoder::new(std::io::Cursor::new(compressed)).unwrap();
    let mut decompressed = Vec::new();
    std::io::Read::read_to_end(&mut input, &mut decompressed).unwrap();
    let mut decoder = RecordDecoder::new(0).unwrap();
    let mut output = Vec::new();
    for chunk in decompressed.chunks(7) {
        output.extend(decoder.feed(chunk));
    }
    output.extend(decoder.finish());
    assert_eq!(output, sample_output.as_bytes().to_vec());
}

#[test]
fn first_failure_wins() {
    assert_eq!(first_failure::<i32>(vec![Ok(()), Ok(())]), Ok(()));
    assert_eq!(first_failure::<i32>(vec![]), Ok(()));
    assert_eq!(first_failure(vec![Ok(()), Err(2), Ok(()), Err(4)]), Err(2));
    assert_eq!(first_failure(vec![Err("a"), Err("b")]), Err("a"));
}
