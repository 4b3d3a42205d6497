use bytes::Bytes;
use loggest::{
    generate_filename, join_path, LogFile, LoggestdData, LoggestdSession, ProtocolError, SessionAction,
    SessionError, StorageConfig, StorageError,
};

fn config(threshold: usize) -> StorageConfig {
    StorageConfig { rotation_threshold: threshold, compression_level: 1 }
}

#[test]
fn filenames_carry_the_rotation_index() {
    assert_eq!(generate_filename("/var/log/app", 1), "/var/log/app.01.ioym");
    assert_eq!(generate_filename("app", 12), "app.12.ioym");
    assert_eq!(generate_filename("app", 123), "app.123.ioym");
    assert_eq!(generate_filename("", 0), ".00.ioym");
}

#[test]
fn paths_are_joined_with_one_separator() {
    assert_eq!(join_path("/logs", "app"), "/logs/app");
    assert_eq!(join_path("/logs/", "app"), "/logs/app");
    assert_eq!(join_path("", "app"), "app");
}

#[test]
fn open_starts_at_rotation_one() {
    let f = LogFile::open("/logs", "worker.7", config(100));
    assert_eq!(f.base_filename(), "/logs/worker.7");
    assert_eq!(f.current_filename(), "/logs/worker.7.01.ioym");
}

#[test]
fn write_compresses_one_frame() {
    let mut f = LogFile::open("/logs", "app", config(1000));
    let data = Bytes::from(b"hello frame".to_vec());
    let plan = f.write(&data).unwrap();
    assert_eq!(plan.target, "/logs/app.01.ioym");
    assert!(plan.rotation.is_none());
    assert_ne!(plan.frame, b"hello frame".to_vec());
    let back = zstd::stream::decode_all(&plan.frame[..]).unwrap();
    assert_eq!(back, b"hello frame".to_vec());
}

#[test]
fn rotation_archives_once_per_crossing() {
    let mut f = LogFile::open("/logs", "app", config(10));
    let chunk = Bytes::from(vec![b'x'; 4]);
    let first = f.write(&chunk).unwrap();
    assert!(first.rotation.is_none());
    let second = f.write(&chunk).unwrap();
    assert!(second.rotation.is_none());
    let third = f.write(&chunk).unwrap();
    assert_eq!(third.target, "/logs/app.01.ioym");
    let rot = third.rotation.unwrap();
    assert_eq!(rot.new_file, "/logs/app.02.ioym");
    assert_eq!(rot.archive.from, "/logs/app.01.ioym");
    assert_eq!(rot.archive.archive_dir, "/logs/archived");
    assert_eq!(rot.archive.to, "/logs/archived/app.01.ioym");
    assert_eq!(f.current_filename(), "/logs/app.02.ioym");
    // One write far above the threshold still rotates only once.
    let big = Bytes::from(vec![b'y'; 35]);
    let fourth = f.write(&big).unwrap();
    assert_eq!(fourth.target, "/logs/app.02.ioym");
    let rot = fourth.rotation.unwrap();
    assert_eq!(rot.archive.to, "/logs/archived/app.02.ioym");
    assert_eq!(rot.new_file, "/logs/app.03.ioym");
    let fifth = f.write(&chunk).unwrap();
    assert_eq!(fifth.target, "/logs/app.03.ioym");
    assert!(fifth.rotation.is_none());
}

#[test]
fn reaching_the_threshold_exactly_rotates() {
    let mut f = LogFile::open("d", "n", config(8));
    let p = f.write(&Bytes::from(vec![1u8; 8])).unwrap();
    assert!(p.rotation.is_some());
}

#[test]
fn close_archives_the_open_file() {
    let mut f = LogFile::open("/logs", "app", config(5));
    f.write(&Bytes::from(vec![0u8; 5])).unwrap();
    let m = f.close();
    assert_eq!(m.from, "/logs/app.02.ioym");
    assert_eq!(m.to, "/logs/archived/app.02.ioym");
}

#[test]
fn standard_config_is_one_gigabyte_fastest_level() {
    let c = StorageConfig::standard();
    assert_eq!(c.rotation_threshold, 1 << 30);
    assert_eq!(c.compression_level, 1);
    assert_ne!(StorageError::Compression, StorageError::IndexExhausted);
}

#[test]
fn data_before_header_is_a_protocol_error() {
    let mut s = LoggestdSession::new("/logs", config(100));
    let r = s.handle(LoggestdData::FileData(Bytes::from(b"abc".to_vec())));
    assert!(matches!(r, Err(SessionError::Protocol(ProtocolError::DataBeforeHeader))));
    let end = s.finish();
    assert!(end.base_filename.is_none());
    assert!(end.archive.is_none());
}

#[test]
fn protocol_error_leaves_other_sessions_alone() {
    let mut bad = LoggestdSession::new("/logs", config(100));
    let mut good = LoggestdSession::new("/logs", config(100));
    match good.handle(LoggestdData::FileName("a".to_string())) {
        Ok(SessionAction::CreateFile(p)) => assert_eq!(p, "/logs/a.01.ioym"),
        _ => panic!("expected a file"),
    }
    assert!(bad.handle(LoggestdData::FileData(Bytes::from(b"x".to_vec()))).is_err());
    match good.handle(LoggestdData::FileData(Bytes::from(b"y".to_vec()))) {
        Ok(SessionAction::Write(plan)) => assert_eq!(plan.target, "/logs/a.01.ioym"),
        _ => panic!("expected a write"),
    }
}

#[test]
fn second_name_is_refused_and_empty_data_ignored() {
    let mut s = LoggestdSession::new("/logs", config(100));
    assert!(s.handle(LoggestdData::FileName("a".to_string())).is_ok());
    let r = s.handle(LoggestdData::FileName("b".to_string()));
    assert!(matches!(r, Err(SessionError::Protocol(ProtocolError::FileAlreadyOpened))));
    assert!(matches!(s.handle(LoggestdData::FileData(Bytes::new())), Ok(SessionAction::Nothing)));
    let end = s.finish();
    assert_eq!(end.base_filename.unwrap(), "/logs/a");
    let m = end.archive.unwrap();
    assert_eq!(m.from, "/logs/a.01.ioym");
    assert_eq!(m.to, "/logs/archived/a.01.ioym");
}

#[test]
fn zero_threshold_rotates_every_write() {
    let mut f = LogFile::open("d", "n", config(0));
    let first = f.write(&Bytes::from(vec![1u8; 3])).unwrap();
    assert_eq!(first.rotation.unwrap().new_file, "d/n.02.ioym");
    let second = f.write(&Bytes::new()).unwrap();
    assert_eq!(second.rotation.unwrap().archive.to, "d/archived/n.02.ioym");
}

#[test]
fn write_that_crosses_twice_the_threshold_rotates_once() {
    let mut f = LogFile::open("/logs", "big", config(4));
    let plan = f.write(&Bytes::from(vec![7u8; 9])).unwrap();
    let rot = plan.rotation.unwrap();
    assert_eq!(plan.target, "/logs/big.01.ioym");
    assert_eq!(rot.archive.to, "/logs/archived/big.01.ioym");
    assert_eq!(f.current_filename(), "/logs/big.02.ioym");
    assert!(f.write(&Bytes::from(vec![7u8; 1])).unwrap().rotation.is_none());
}

#[test]
fn dot_name_opens_a_file_in_the_directory() {
    let mut s = LoggestdSession::new("/logs", config(100));
    match s.handle(LoggestdData::FileName(".".to_string())) {
        Ok(SessionAction::CreateFile(p)) => assert_eq!(p, "/logs/..01.ioym"),
        _ => panic!("expected a file"),
    }
}
