use std::time::SystemTime;

use mindav::minio::file::{FlushAction, MinioFile, SeekPos, OBJECT_CONTENT_TYPE, STAGING_DIR};
use mindav::minio::fileinfo::MinioMetaData;
use mindav::minio::{default_upload_mode, FsErrorKind, UploadMode};

fn meta(key: &str) -> MinioMetaData {
    MinioMetaData::new_file(key.to_string(), Some(0), Some(SystemTime::UNIX_EPOCH), SystemTime::UNIX_EPOCH)
}

fn reader(data: Vec<u8>) -> MinioFile {
    MinioFile::new_read("test".into(), "k".into(), UploadMode::File, meta("k"), Some(data)).unwrap()
}

#[test]
fn new_dir_metadata_is_an_empty_directory() {
    let m = MinioMetaData::new_dir("docs".to_string());
    assert_eq!(m.key, "docs");
    assert_eq!(m.len(), 0);
    assert!(m.is_dir());
    assert!(m.modified().is_ok());
    let t = SystemTime::UNIX_EPOCH + std::time::Duration::from_secs(42);
    let d = MinioMetaData::new_dir_at("x".to_string(), t);
    assert_eq!(d.modified().unwrap(), t);
    assert!(d.is_dir());
    assert_eq!(d.len(), 0);
}

#[test]
fn file_metadata_from_store_values() {
    let t = SystemTime::UNIX_EPOCH;
    let m = MinioMetaData::new_file("a".into(), Some(1234), Some(t), SystemTime::now());
    assert_eq!(m.len(), 1234);
    assert!(!m.is_dir());
    assert_eq!(m.modified().unwrap(), t);
    assert_eq!(MinioMetaData::new_file("a".into(), None, None, t).len(), 0);
    let later = t + std::time::Duration::from_secs(7);
    assert_eq!(MinioMetaData::new_file("a".into(), None, None, later).modified().unwrap(), later);
    assert_eq!(MinioMetaData::new_file("a".into(), Some(-1), None, t).len(), u64::MAX);
    let c = m.clone();
    assert_eq!(c.key, "a");
    assert_eq!(c.size, 1234);
}

#[test]
fn default_mode_is_memory() {
    assert_eq!(default_upload_mode(), UploadMode::Memory);
}

#[test]
fn large_file_seek_and_read() {
    let megabyte: Vec<u8> = (0..(1024 * 1024)).map(|i| (i % 256) as u8).collect();
    let mut f = reader(megabyte.clone());
    assert_eq!(f.seek(SeekPos::Start(500_000)), 500_000);
    let chunk = f.read_bytes(200);
    assert_eq!(chunk.len(), 200);
    for (i, &b) in chunk.iter().enumerate() {
        assert_eq!(b, ((500_000 + i) % 256) as u8);
    }
    let end_pos = f.seek(SeekPos::End(-100));
    assert_eq!(end_pos, (megabyte.len() - 100) as u64);
    let tail = f.read_bytes(50);
    assert_eq!(tail.len(), 50);
    assert_eq!(tail[..], megabyte[megabyte.len() - 100..megabyte.len() - 50]);
}

#[test]
fn reading_past_the_end() {
    let mut f = reader(b"hello".to_vec());
    assert_eq!(f.read_bytes(1024), b"hello".to_vec());
    assert!(f.read_bytes(10).is_empty());
    assert_eq!(f.seek(SeekPos::Start(50)), 50);
    assert!(f.read_bytes(3).is_empty());
    // a read past the end moves the cursor back to the end
    assert_eq!(f.seek(SeekPos::Current(0)), 5);
}

#[test]
fn split_reads_equal_one_read() {
    let data: Vec<u8> = (0u8..40).collect();
    for (a, b) in [(0usize, 5usize), (3, 10), (30, 30), (0, 0), (50, 1)] {
        let mut f1 = reader(data.clone());
        f1.seek(SeekPos::Start(7));
        let mut joined = f1.read_bytes(a);
        joined.extend(f1.read_bytes(b));
        let mut f2 = reader(data.clone());
        f2.seek(SeekPos::Start(7));
        assert_eq!(joined, f2.read_bytes(a + b));
    }
}

#[test]
fn seek_before_start_wraps_around() {
    let mut f = reader(vec![1, 2, 3, 4]);
    assert_eq!(f.seek(SeekPos::End(-6)), u64::MAX - 1);
    assert_eq!(f.seek(SeekPos::Current(3)), 1);
    assert_eq!(f.seek(SeekPos::Current(-2)), u64::MAX);
}

#[test]
fn failed_fetch_reads_as_empty() {
    let mut f = MinioFile::new_read("b".into(), "k".into(), UploadMode::Memory, meta("k"), None).unwrap();
    assert!(f.read_bytes(1024).is_empty());
}

#[test]
fn flush_of_read_only_file_sends_nothing() {
    let mut f = reader(vec![1, 2, 3]);
    assert!(matches!(f.flush(), FlushAction::Nothing));
}

#[test]
fn memory_flush_sends_all_writes() {
    let mut f = MinioFile::new_write("test".into(), "dir/mem.txt".into(), UploadMode::Memory, meta("dir/mem.txt"));
    f.write_bytes(b"uploaded ");
    f.write_bytes(b"in memory ");
    f.write_bytes(b"mode");
    match f.flush() {
        FlushAction::Upload(r) => {
            assert_eq!(r.bucket, "test");
            assert_eq!(r.key, "dir/mem.txt");
            assert_eq!(r.body, b"uploaded in memory mode".to_vec());
            assert_eq!(r.content_type, OBJECT_CONTENT_TYPE);
            assert_eq!(OBJECT_CONTENT_TYPE, "application/octet-stream");
        }
        other => panic!("unexpected action {:?}", other),
    }
    match f.flush() {
        FlushAction::Upload(r) => assert!(r.body.is_empty()),
        other => panic!("unexpected action {:?}", other),
    }
}

#[test]
fn file_flush_stages_under_md5_of_name() {
    let mut f = MinioFile::new_write("test".into(), "abc".into(), UploadMode::File, meta("abc"));
    f.write_bytes(b"x");
    match f.flush() {
        FlushAction::UploadStaged { request, staging_dir, staging_path } => {
            assert_eq!(request.body, b"x".to_vec());
            assert_eq!(request.key, "abc");
            assert_eq!(staging_dir, STAGING_DIR);
            assert_eq!(staging_dir, "./tmp");
            assert_eq!(staging_path, "./tmp/900150983cd24fb0d6963f7d28e17f72");
        }
        other => panic!("unexpected action {:?}", other),
    }
}

#[test]
fn empty_write_flushes_empty_body() {
    let mut f = MinioFile::new_write("test".into(), "".into(), UploadMode::File, meta(""));
    match f.flush() {
        FlushAction::UploadStaged { request, staging_path, .. } => {
            assert!(request.body.is_empty());
            assert_eq!(staging_path, "./tmp/d41d8cd98f00b204e9800998ecf8427e");
        }
        other => panic!("unexpected action {:?}", other),
    }
}

#[test]
fn file_metadata_is_returned() {
    let f = reader(vec![]);
    assert_eq!(f.metadata().key, "k");
    assert_eq!(FsErrorKind::NotFound, FsErrorKind::NotFound);
}

#[test]
fn read_and_seek_limits() {
    let mut f = reader(vec![1, 2, 3]);
    assert!(f.read_fits(usize::MAX - 1));
    assert!(f.seek_fits(SeekPos::End(i64::MAX - 3)));
    assert!(!f.seek_fits(SeekPos::End(i64::MAX - 2)));
    assert!(f.seek_fits(SeekPos::Current(i64::MIN)));
    f.seek(SeekPos::Start(u64::MAX));
    assert!(!f.read_fits(1));
    assert!(f.read_fits(0));
    // u64::MAX is -1 as a signed offset base
    assert!(f.seek_fits(SeekPos::Current(i64::MIN + 1)));
    assert!(!f.seek_fits(SeekPos::Current(i64::MIN)));
    assert!(f.seek_fits(SeekPos::Current(i64::MAX)));
}
