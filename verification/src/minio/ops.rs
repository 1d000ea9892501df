//! The decisions of the filesystem operations, between their requests to the
//! store: which request comes next, and what the operation answers.

use std::time::SystemTime;

use vstd::prelude::*;

use super::file::MinioFile;
use super::fileinfo::{reported_size, stamp_or, MinioMetaData};
use super::keys::{copy_source, copy_source_of, keep_key, keep_path, law_renamed_key_reroots, renamed_key};
use super::listing::{key_or_empty, ObjectSummary};
use super::{FsErrorKind, UploadMode, KEEP_FILE_CONTENT_TYPE};
use crate::text::{owned, replace_first};

verus! {

/// What the store reported for an object it found.
#[derive(Debug)]
pub struct HeadInfo {
    pub content_length: Option<i64>,
    pub last_modified: Option<SystemTime>,
}

/// The answer of an operation whose only outcome is the store's success.
pub fn store_result(succeeded: bool) -> (r: Result<(), FsErrorKind>)
    ensures
        succeeded ==> r is Ok,
        !succeeded ==> r == Err::<(), FsErrorKind>(FsErrorKind::GeneralFailure),
{
    if succeeded {
        Ok(())
    } else {
        Err(FsErrorKind::GeneralFailure)
    }
}

// ---------------------------------------------------------------------------
// Metadata and open
// ---------------------------------------------------------------------------

/// The metadata of a file from the store's answer to a head request, made at
/// time `now`; no answer means the file does not exist.
pub fn metadata_from_head(name: String, head: Option<HeadInfo>, now: SystemTime) -> (r: Result<
    MinioMetaData,
    FsErrorKind,
>)
    ensures
        head is None ==> r == Err::<MinioMetaData, FsErrorKind>(FsErrorKind::NotFound),
        head matches Some(h) ==> r == Ok::<MinioMetaData, FsErrorKind>(
            MinioMetaData {
                key: name,
                size: reported_size(h.content_length),
                last_modified: stamp_or(h.last_modified, now),
                is_dir: false,
            },
        ),
{
    match head {
        Some(h) => Ok(MinioMetaData::new_file(name, h.content_length, h.last_modified, now)),
        None => Err(FsErrorKind::NotFound),
    }
}

/// The next move of a metadata lookup.
#[derive(Debug)]
pub enum MetadataStep {
    /// The answer is known.
    Ready(MinioMetaData),
    /// Ask whether the directory marker with this key exists.
    CheckMarker(String),
    /// Ask for the object with this key.
    HeadObject(String),
}

/// The metadata of the directory `name` at time `now`.
pub open spec fn dir_metadata(name: String, now: SystemTime) -> MinioMetaData {
    MinioMetaData { key: name, size: 0, last_modified: now, is_dir: true }
}

/// The first move of a metadata lookup made at time `now`: the root is
/// always a directory; anything else is first checked for a directory marker.
pub fn metadata_start(name: String, now: SystemTime) -> (step: MetadataStep)
    ensures
        name@.len() == 0 ==> (step matches MetadataStep::Ready(m) && m == dir_metadata(name, now)),
        name@.len() > 0 ==> (step matches MetadataStep::CheckMarker(k) && k@ == keep_key(name@)),
{
    if name.as_str().is_empty() {
        MetadataStep::Ready(MinioMetaData::new_dir_at(name, now))
    } else {
        MetadataStep::CheckMarker(keep_path(name.as_str()))
    }
}

/// The move after the marker check, at time `now`: a marked name is a
/// directory, any other is looked up as an object.
pub fn metadata_after_marker(name: String, marker_found: bool, now: SystemTime) -> (step: MetadataStep)
    ensures
        marker_found ==> (step matches MetadataStep::Ready(m) && m == dir_metadata(name, now)),
        !marker_found ==> (step matches MetadataStep::HeadObject(k) && k == name),
{
    if marker_found {
        MetadataStep::Ready(MinioMetaData::new_dir_at(name, now))
    } else {
        MetadataStep::HeadObject(name)
    }
}

/// The first move of opening a file.
#[derive(Debug)]
pub enum OpenStep {
    /// Opened for writing; nothing needs to be asked of the store.
    Write(MinioFile),
    /// Ask for the object with this key, then fetch it.
    Head(String),
}

/// Opening for writing or creating, at time `now`, yields an empty writable
/// file whose metadata marks it as a directory named after the file; opening
/// for reading first looks the object up.
pub fn open_start(
    bucket: String,
    name: String,
    upload_mode: UploadMode,
    write: bool,
    create: bool,
    now: SystemTime,
) -> (step: OpenStep)
    ensures
        (write || create) ==> (step matches OpenStep::Write(f) && f@.bucket == bucket@ && f@.name == name@
            && f@.upload_mode == upload_mode && f@.is_open_for_write && f@.data.len() == 0 && f@.pos == 0
            && f@.write_buf.len() == 0 && f@.metadata == dir_metadata(name, now)),
        !(write || create) ==> (step matches OpenStep::Head(k) && k == name),
{
    if write || create {
        let metadata = MinioMetaData::new_dir_at(name.clone(), now);
        OpenStep::Write(MinioFile::new_write(bucket, name, upload_mode, metadata))
    } else {
        OpenStep::Head(name)
    }
}

/// A file opened for reading once the store has answered, at time `now`: no
/// head answer means the file does not exist; otherwise the file holds the
/// fetched bytes (none when the fetch failed) and the reported metadata.
pub fn open_after_head(
    bucket: String,
    name: String,
    upload_mode: UploadMode,
    head: Option<HeadInfo>,
    fetched: Option<Vec<u8>>,
    now: SystemTime,
) -> (r: Result<MinioFile, FsErrorKind>)
    ensures
        head is None ==> r == Err::<MinioFile, FsErrorKind>(FsErrorKind::NotFound),
        head matches Some(h) ==> (r matches Ok(f) && f@.bucket == bucket@ && f@.name == name@
            && f@.upload_mode == upload_mode && !f@.is_open_for_write && f@.pos == 0
            && f@.write_buf.len() == 0 && f@.data == match fetched {
            Some(d) => d@,
            None => Seq::empty(),
        } && f@.metadata == (MinioMetaData {
            key: name,
            size: reported_size(h.content_length),
            last_modified: stamp_or(h.last_modified, now),
            is_dir: false,
        })),
{
    match metadata_from_head(name.clone(), head, now) {
        Ok(metadata) => MinioFile::new_read(bucket, name, upload_mode, metadata, fetched),
        Err(e) => Err(e),
    }
}

// ---------------------------------------------------------------------------
// Directories
// ---------------------------------------------------------------------------

/// The empty marker object that creates a directory.
#[derive(Debug)]
pub struct MarkerRequest {
    pub key: String,
    pub content_type: String,
}

/// The marker object to store when the directory `name` is created.
pub fn create_dir_request(name: &str) -> (r: MarkerRequest)
    ensures
        r.key@ == keep_key(name@),
        r.content_type@ == KEEP_FILE_CONTENT_TYPE@,
{
    MarkerRequest { key: keep_path(name), content_type: owned(KEEP_FILE_CONTENT_TYPE) }
}

/// The keys of the listed objects that have one, in order.
pub open spec fn present_keys(objects: Seq<ObjectSummary>) -> Seq<Seq<char>>
    decreases objects.len(),
{
    if objects.len() == 0 {
        Seq::empty()
    } else {
        present_keys(objects.drop_last()) + match objects.last().key {
            Some(k) => seq![k@],
            None => Seq::empty(),
        }
    }
}

/// The views of a vector of strings.
pub open spec fn string_views(v: Seq<String>) -> Seq<Seq<char>> {
    v.map_values(|s: String| s@)
}

/// The keys of the listed objects that have one, in order.
pub fn keys_of(objects: &Vec<ObjectSummary>) -> (keys: Vec<String>)
    ensures
        string_views(keys@) == present_keys(objects@),
{
    let mut keys: Vec<String> = Vec::new();
    let mut i: usize = 0;
    while i < objects.len()
        invariant
            i <= objects@.len(),
            string_views(keys@) == present_keys(objects@.take(i as int)),
        decreases objects@.len() - i,
    {
        proof {
            assert(objects@.take(i + 1).drop_last() =~= objects@.take(i as int));
        }
        match &objects[i].key {
            Some(k) => {
                let ghost before = keys@;
                keys.push(k.clone());
                proof {
                    assert(string_views(keys@) =~= string_views(before) + seq![k@]);
                }
            },
            None => {
                assert(string_views(keys@) =~= present_keys(objects@.take(i as int)) + Seq::<
                    Seq<char>,
                >::empty());
            },
        }
        i = i + 1;
    }
    assert(objects@.take(objects@.len() as int) =~= objects@);
    keys
}

/// Every listed object that has a key is among the keys deleted in bulk.
pub proof fn law_removal_covers_listing(objects: Seq<ObjectSummary>, i: int)
    requires
        0 <= i < objects.len(),
        objects[i].key is Some,
    ensures
        present_keys(objects).contains(objects[i].key.unwrap()@),
    decreases objects.len(),
{
    if i < objects.len() - 1 {
        law_removal_covers_listing(objects.drop_last(), i);
        let k = objects[i].key.unwrap()@;
        let head = present_keys(objects.drop_last());
        let j = choose|j: int| 0 <= j < head.len() && head[j] == k;
        assert(present_keys(objects)[j] == k);
    } else {
        let k = objects[i].key.unwrap()@;
        let head = present_keys(objects.drop_last());
        assert(present_keys(objects)[head.len() as int] == k);
    }
}

/// Whether a listed object has a key.
pub open spec fn has_key() -> spec_fn(ObjectSummary) -> bool {
    |o: ObjectSummary| o.key is Some
}

/// The view of a listed object's key.
pub open spec fn key_view() -> spec_fn(ObjectSummary) -> Seq<char> {
    |o: ObjectSummary| o.key->0@
}

/// The keys deleted in bulk are exactly the keys of the listed objects that
/// have one, in order: nothing unlisted is deleted and nothing listed is kept.
pub proof fn law_removal_deletes_exactly_listed(objects: Seq<ObjectSummary>)
    ensures
        present_keys(objects) == objects.filter(has_key()).map_values(key_view()),
    decreases objects.len(),
{
    broadcast use Seq::lemma_filter_push, Seq::lemma_push_map_commute;

    if objects.len() == 0 {
        assert(objects.filter(has_key()) =~= Seq::<ObjectSummary>::empty()) by {
            reveal(Seq::filter);
        }
        assert(objects.filter(has_key()).map_values(key_view()) =~= Seq::<Seq<char>>::empty());
    } else {
        let init = objects.drop_last();
        let last = objects.last();
        law_removal_deletes_exactly_listed(init);
        assert(init.push(last) =~= objects);
        match last.key {
            Some(k) => {
                assert(objects.filter(has_key()) =~= init.filter(has_key()).push(last));
                assert(objects.filter(has_key()).map_values(key_view()) =~= init.filter(has_key()).map_values(
                    key_view(),
                ).push(k@));
                assert(present_keys(objects) =~= present_keys(init).push(k@));
            },
            None => {
                assert(objects.filter(has_key()) =~= init.filter(has_key()));
                assert(present_keys(objects) =~= present_keys(init));
            },
        }
    }
}

/// The next move of a recursive removal.
#[derive(Debug)]
pub enum RemovalStep {
    /// Delete these keys in one request.
    DeleteMany(Vec<String>),
    /// Delete this key; a failure is ignored.
    DeleteOne(String),
    /// The removal is over with this answer.
    Finished(Result<(), FsErrorKind>),
}

/// The first move of removing `name` and everything under it, once the
/// objects under it are listed: delete them all at once (when there are
/// any), else go straight to deleting `name` itself.
pub fn remove_all_start(name: &str, objects: &Vec<ObjectSummary>) -> (step: RemovalStep)
    ensures
        objects@.len() == 0 ==> (step matches RemovalStep::DeleteOne(k) && k@ == name@),
        objects@.len() > 0 ==> (step matches RemovalStep::DeleteMany(keys) && string_views(keys@)
            == present_keys(objects@)),
{
    if objects.len() == 0 {
        RemovalStep::DeleteOne(owned(name))
    } else {
        RemovalStep::DeleteMany(keys_of(objects))
    }
}

/// The move after the bulk deletion: on failure the removal fails, else
/// `name` itself is deleted.
pub fn remove_all_after_bulk(name: &str, succeeded: bool) -> (step: RemovalStep)
    ensures
        succeeded ==> (step matches RemovalStep::DeleteOne(k) && k@ == name@),
        !succeeded ==> step matches RemovalStep::Finished(Err(FsErrorKind::GeneralFailure)),
{
    if succeeded {
        RemovalStep::DeleteOne(owned(name))
    } else {
        RemovalStep::Finished(Err(FsErrorKind::GeneralFailure))
    }
}

/// After the final single deletion the removal succeeds, whatever the store
/// answered.
pub fn remove_all_after_single(_succeeded: bool) -> (step: RemovalStep)
    ensures
        step matches RemovalStep::Finished(Ok(())),
{
    RemovalStep::Finished(Ok(()))
}

// ---------------------------------------------------------------------------
// Copy and rename
// ---------------------------------------------------------------------------

/// One server-side copy.
#[derive(Debug)]
pub struct CopyOp {
    /// `bucket/key` of the object copied.
    pub source: String,
    /// The key of the copy.
    pub key: String,
}

/// `ops` copies each listed object, in order, to its key with the first
/// `from` replaced by `to`.
pub open spec fn copies_fit(
    ops: Seq<CopyOp>,
    bucket: Seq<char>,
    objects: Seq<ObjectSummary>,
    from: Seq<char>,
    to: Seq<char>,
) -> bool {
    &&& ops.len() == objects.len()
    &&& forall|i: int|
        0 <= i < ops.len() ==> (#[trigger] ops[i]).source@ == copy_source(bucket, key_or_empty(objects[i]))
            && ops[i].key@ == replace_first(key_or_empty(objects[i]), from, to)
}

/// The copies that move or duplicate the tree at `from` to `to`: each listed
/// object is copied to its key with the first `from` replaced by `to`.
pub fn copy_plan(bucket: &str, objects: &Vec<ObjectSummary>, from: &str, to: &str) -> (ops: Vec<CopyOp>)
    ensures
        copies_fit(ops@, bucket@, objects@, from@, to@),
{
    let mut ops: Vec<CopyOp> = Vec::new();
    let mut i: usize = 0;
    while i < objects.len()
        invariant
            i <= objects@.len(),
            ops@.len() == i,
            forall|j: int|
                0 <= j < i ==> (#[trigger] ops@[j]).source@ == copy_source(
                    bucket@,
                    key_or_empty(objects@[j]),
                ) && ops@[j].key@ == replace_first(key_or_empty(objects@[j]), from@, to@),
        decreases objects@.len() - i,
    {
        let old_key = match &objects[i].key {
            Some(k) => k.clone(),
            None => String::new(),
        };
        let new_key = renamed_key(old_key.as_str(), from, to);
        let source = copy_source_of(bucket, old_key.as_str());
        ops.push(CopyOp { source, key: new_key });
        i = i + 1;
    }
    ops
}

/// What a rename or a copy of a tree asks of the store: the server-side
/// copies, in order, and then, for a rename only, the recursive removal of
/// the source.
#[derive(Debug)]
pub struct TreeTransfer {
    pub copies: Vec<CopyOp>,
    pub remove_after: Option<String>,
}

/// A rename of the tree at `from` to `to`: copy every listed object, then
/// remove everything under `from`.
pub fn rename_plan(bucket: &str, objects: &Vec<ObjectSummary>, from: &str, to: &str) -> (t: TreeTransfer)
    ensures
        copies_fit(t.copies@, bucket@, objects@, from@, to@),
        t.remove_after matches Some(k) && k@ == from@,
{
    TreeTransfer { copies: copy_plan(bucket, objects, from, to), remove_after: Some(owned(from)) }
}

/// A copy of the tree at `from` to `to`: copy every listed object; nothing
/// is removed.
pub fn copy_tree_plan(bucket: &str, objects: &Vec<ObjectSummary>, from: &str, to: &str) -> (t: TreeTransfer)
    ensures
        copies_fit(t.copies@, bucket@, objects@, from@, to@),
        t.remove_after is None,
{
    TreeTransfer { copies: copy_plan(bucket, objects, from, to), remove_after: None }
}

/// The answer of a rename or a copy: success, whatever the store answered to
/// each copy and to the removal.
pub fn transfer_result(copies_succeeded: &Vec<bool>, removal: Option<Result<(), FsErrorKind>>) -> (r: Result<
    (),
    FsErrorKind,
>)
    ensures
        r is Ok,
{
    Ok(())
}

/// When every listed key lies under `from`, each copy lands at the same
/// place under `to`: the tree is moved or duplicated as a whole.
pub proof fn law_copy_plan_reroots_tree(
    bucket: Seq<char>,
    objects: Seq<ObjectSummary>,
    from: Seq<char>,
    to: Seq<char>,
    ops_keys: Seq<Seq<char>>,
)
    requires
        ops_keys.len() == objects.len(),
        forall|i: int|
            0 <= i < objects.len() ==> #[trigger] ops_keys[i] == replace_first(key_or_empty(objects[i]), from, to),
        forall|i: int|
            0 <= i < objects.len() ==> from.len() <= key_or_empty(#[trigger] objects[i]).len()
                && key_or_empty(objects[i]).take(from.len() as int) == from,
    ensures
        forall|i: int|
            0 <= i < objects.len() ==> #[trigger] ops_keys[i] == to + key_or_empty(objects[i]).skip(
                from.len() as int,
            ),
{
    assert forall|i: int| 0 <= i < objects.len() implies #[trigger] ops_keys[i] == to + key_or_empty(
        objects[i],
    ).skip(from.len() as int) by {
        law_renamed_key_reroots(key_or_empty(objects[i]), from, to);
    }
}

} // verus!
