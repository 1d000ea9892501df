use std::time::SystemTime;

use mindav::minio::dir::MinioDirEntry;
use mindav::minio::listing::{DirListing, ListPage, ObjectListing, ObjectSummary};
use mindav::minio::ops::{
    copy_plan, copy_tree_plan, create_dir_request, rename_plan, transfer_result, keys_of, metadata_after_marker, metadata_from_head, metadata_start,
    open_after_head, open_start, remove_all_after_bulk, remove_all_after_single, remove_all_start,
    store_result, HeadInfo, MetadataStep, OpenStep, RemovalStep,
};
use mindav::minio::{FsErrorKind, UploadMode};

const T0: SystemTime = SystemTime::UNIX_EPOCH;

fn t1() -> SystemTime {
    SystemTime::UNIX_EPOCH + std::time::Duration::from_secs(1000)
}

fn obj(key: &str, size: i64) -> ObjectSummary {
    ObjectSummary { key: Some(key.to_string()), size: Some(size), last_modified: Some(SystemTime::UNIX_EPOCH) }
}

fn page(prefixes: Vec<&str>, contents: Vec<ObjectSummary>, token: Option<&str>) -> ListPage {
    ListPage {
        common_prefixes: prefixes.into_iter().map(|p| Some(p.to_string())).collect(),
        contents,
        is_truncated: Some(token.is_some()),
        next_continuation_token: token.map(|t| t.to_string()),
    }
}

fn names(entries: &[MinioDirEntry]) -> Vec<String> {
    entries.iter().map(|e| String::from_utf8(e.name()).unwrap()).collect()
}

#[test]
fn object_listing_follows_continuation_tokens() {
    let mut l = ObjectListing::new("p".to_string());
    let r = l.next_request().unwrap();
    assert_eq!(r.prefix, "p");
    assert!(r.delimiter.is_none());
    assert!(r.continuation_token.is_none());
    l.on_page(page(vec![], vec![obj("p/a", 1), obj("p/b", 2)], Some("t1")));
    assert!(!l.is_done());
    let r = l.next_request().unwrap();
    assert_eq!(r.continuation_token.as_deref(), Some("t1"));
    l.on_page(page(vec![], vec![obj("p/c", 3)], None));
    assert!(l.is_done());
    assert!(l.next_request().is_none());
    let keys: Vec<String> = l.into_objects().into_iter().map(|o| o.key.unwrap()).collect();
    assert_eq!(keys, vec!["p/a", "p/b", "p/c"]);
}

#[test]
fn object_listing_stops_on_error_or_unknown_truncation() {
    let mut l = ObjectListing::new("p".to_string());
    l.on_page(page(vec![], vec![obj("p/a", 1)], Some("t")));
    l.on_error();
    assert!(l.is_done());
    assert_eq!(l.into_objects().len(), 1);

    let mut l = ObjectListing::new("p".to_string());
    l.on_page(ListPage { common_prefixes: vec![], contents: vec![], is_truncated: None, next_continuation_token: Some("t".into()) });
    assert!(l.is_done());
}

#[test]
fn dir_listing_hides_markers_and_itself() {
    let mut l = DirListing::new("docs");
    let r = l.next_request().unwrap();
    assert_eq!(r.prefix, "docs/");
    assert_eq!(r.delimiter.as_deref(), Some("/"));
    l.on_page(page(
        vec!["docs/sub/"],
        vec![obj("docs/", 0), obj("docs/.mindavkeep", 0), obj("docs/a.txt", 5), obj("docs//", 0)],
        None,
    ), t1());
    assert!(l.is_done());
    let entries = l.into_entries();
    assert_eq!(names(&entries), vec!["sub", "a.txt"]);
    assert!(entries[0].is_dir);
    assert_eq!(entries[0].size, 0);
    assert_eq!(entries[0].last_modified, t1());
    assert!(!entries[1].is_dir);
    assert_eq!(entries[1].size, 5);
    assert_eq!(entries[1].last_modified, SystemTime::UNIX_EPOCH);
    let m = entries[1].metadata();
    assert_eq!(m.key, "docs/a.txt");
    assert_eq!(m.len(), 5);
}

#[test]
fn root_listing_uses_empty_prefix() {
    let mut l = DirListing::new("");
    assert_eq!(l.next_request().unwrap().prefix, "");
    l.on_page(page(vec!["test-rootlist-0/"], vec![obj(".mindavkeep", 0), obj("top.txt", 1)], None), T0);
    assert_eq!(names(&l.into_entries()), vec!["test-rootlist-0", "top.txt"]);
}

#[test]
fn dir_listing_pages_and_missing_keys() {
    let mut l = DirListing::new("d");
    l.on_page(ListPage {
        common_prefixes: vec![None, Some("d/x/".into())],
        contents: vec![ObjectSummary { key: None, size: None, last_modified: None }],
        is_truncated: Some(true),
        next_continuation_token: Some("next".into()),
    }, t1());
    assert_eq!(l.next_request().unwrap().continuation_token.as_deref(), Some("next"));
    l.on_page(page(vec![], vec![obj("d/y", -1)], None), T0);
    let e = l.finish().unwrap();
    assert_eq!(names(&e), vec!["x", "", "y"]);
    assert_eq!(e[1].last_modified, t1());
    assert_eq!(e[2].last_modified, T0);
    assert_eq!(e[1].size, 0);
    assert_eq!(e[2].size, u64::MAX);
}

#[test]
fn entry_names() {
    let e = |k: &str, d: bool| MinioDirEntry { key: k.into(), size: 0, last_modified: SystemTime::UNIX_EPOCH, is_dir: d };
    assert_eq!(e("a/b/c.txt", false).name(), b"c.txt".to_vec());
    assert_eq!(e("a/b/", true).name(), b"b".to_vec());
    assert_eq!(e("x.txt", false).name(), b"x.txt".to_vec());
    assert_eq!(e("a/b/", false).name(), b"".to_vec());
    assert_eq!(e("/", true).name(), b"".to_vec());
    assert_eq!(e("é/ü.txt", false).name(), "ü.txt".as_bytes().to_vec());
}

#[test]
fn metadata_steps() {
    match metadata_start(String::new(), t1()) {
        MetadataStep::Ready(m) => assert!(m.is_dir()),
        other => panic!("{:?}", other),
    }
    match metadata_start("docs".into(), t1()) {
        MetadataStep::CheckMarker(k) => assert_eq!(k, "docs/.mindavkeep"),
        other => panic!("{:?}", other),
    }
    match metadata_after_marker("docs".into(), true, t1()) {
        MetadataStep::Ready(m) => {
            assert!(m.is_dir());
            assert_eq!(m.len(), 0);
            assert_eq!(m.modified().unwrap(), t1());
        }
        other => panic!("{:?}", other),
    }
    match metadata_after_marker("f.txt".into(), false, t1()) {
        MetadataStep::HeadObject(k) => assert_eq!(k, "f.txt"),
        other => panic!("{:?}", other),
    }
    let m = metadata_from_head("f.txt".into(), Some(HeadInfo { content_length: Some(1234), last_modified: None }), t1()).unwrap();
    assert_eq!(m.modified().unwrap(), t1());
    assert_eq!(m.len(), 1234);
    assert!(!m.is_dir());
    assert_eq!(metadata_from_head("f.txt".into(), None, t1()).unwrap_err(), FsErrorKind::NotFound);
}

#[test]
fn open_steps() {
    match open_start("b".into(), "x.txt".into(), UploadMode::Memory, true, false, t1()) {
        OpenStep::Write(f) => {
            let m = f.metadata();
            assert!(m.is_dir());
            assert_eq!(m.key, "x.txt");
        }
        other => panic!("{:?}", other),
    }
    assert!(matches!(open_start("b".into(), "x".into(), UploadMode::Memory, false, true, t1()), OpenStep::Write(_)));
    match open_start("b".into(), "x.txt".into(), UploadMode::Memory, false, false, t1()) {
        OpenStep::Head(k) => assert_eq!(k, "x.txt"),
        other => panic!("{:?}", other),
    }
    let missing = open_after_head("b".into(), "x".into(), UploadMode::Memory, None, None, t1());
    assert_eq!(missing.unwrap_err(), FsErrorKind::NotFound);
    let mut f = open_after_head(
        "b".into(),
        "x".into(),
        UploadMode::Memory,
        Some(HeadInfo { content_length: Some(5), last_modified: Some(T0) }),
        Some(b"hello".to_vec()),
        t1(),
    )
    .unwrap();
    assert_eq!(f.metadata().len(), 5);
    assert_eq!(f.metadata().modified().unwrap(), T0);
    assert_eq!(f.read_bytes(1024), b"hello".to_vec());
}

#[test]
fn removal_steps() {
    let objects = vec![obj("d/.mindavkeep", 0), ObjectSummary { key: None, size: None, last_modified: None }, obj("d/a", 1)];
    assert_eq!(keys_of(&objects), vec!["d/.mindavkeep", "d/a"]);
    match remove_all_start("d", &objects) {
        RemovalStep::DeleteMany(keys) => assert_eq!(keys, vec!["d/.mindavkeep", "d/a"]),
        other => panic!("{:?}", other),
    }
    match remove_all_start("d", &vec![]) {
        RemovalStep::DeleteOne(k) => assert_eq!(k, "d"),
        other => panic!("{:?}", other),
    }
    match remove_all_after_bulk("d", true) {
        RemovalStep::DeleteOne(k) => assert_eq!(k, "d"),
        other => panic!("{:?}", other),
    }
    assert!(matches!(remove_all_after_bulk("d", false), RemovalStep::Finished(Err(FsErrorKind::GeneralFailure))));
    assert!(matches!(remove_all_after_single(false), RemovalStep::Finished(Ok(()))));
}

#[test]
fn copy_plan_moves_tree() {
    let objects = vec![obj("src/a.txt", 1), obj("src/sub/b.txt", 1), ObjectSummary { key: None, size: None, last_modified: None }];
    let ops = copy_plan("test", &objects, "src", "dst");
    assert_eq!(ops.len(), 3);
    assert_eq!(ops[0].source, "test/src/a.txt");
    assert_eq!(ops[0].key, "dst/a.txt");
    assert_eq!(ops[1].key, "dst/sub/b.txt");
    assert_eq!(ops[2].source, "test/");
    assert_eq!(ops[2].key, "");
}

#[test]
fn create_dir_and_results() {
    let r = create_dir_request("docs");
    assert_eq!(r.key, "docs/.mindavkeep");
    assert_eq!(r.content_type, "application/mindav-folder-keeper");
    assert_eq!(create_dir_request("").key, ".mindavkeep");
    assert_eq!(store_result(true), Ok(()));
    assert_eq!(store_result(false), Err(FsErrorKind::GeneralFailure));
}

#[test]
fn rename_and_copy_plans() {
    let objects = vec![obj("src/a.txt", 1), obj("src/sub/b.txt", 1)];
    let r = rename_plan("test", &objects, "src", "dst");
    assert_eq!(r.copies.len(), 2);
    assert_eq!(r.copies[1].key, "dst/sub/b.txt");
    assert_eq!(r.remove_after.as_deref(), Some("src"));
    let c = copy_tree_plan("test", &objects, "src", "dst");
    assert_eq!(c.copies[0].source, "test/src/a.txt");
    assert!(c.remove_after.is_none());
    assert_eq!(transfer_result(&vec![false, true], Some(Err(FsErrorKind::GeneralFailure))), Ok(()));
    assert_eq!(transfer_result(&vec![], None), Ok(()));
}

#[test]
fn missing_directory_reads_empty() {
    let mut l = DirListing::new("nope");
    l.on_error();
    assert!(l.finish().unwrap().is_empty());
}
