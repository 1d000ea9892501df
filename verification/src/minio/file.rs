//! An open file: a read cursor over the fetched bytes and a write buffer
//! that is handed to the store when the file is flushed.

use vstd::prelude::*;
use vstd::utf8::encode_utf8;

use super::fileinfo::MinioMetaData;
use super::{FsErrorKind, UploadMode};
use crate::bindings::{md5, md5_digest};
use crate::text::{concat2, hex_lower, hex_lower_string, owned};

verus! {

/// The content type of uploaded file bodies.
pub const OBJECT_CONTENT_TYPE: &'static str = "application/octet-stream";

/// The directory that holds staged uploads in file mode.
pub const STAGING_DIR: &'static str = "./tmp";

/// Where a seek moves the cursor (as `std::io::SeekFrom`).
#[derive(Debug, Clone, Copy, PartialEq, Eq, Structural)]
pub enum SeekPos {
    Start(u64),
    End(i64),
    Current(i64),
}

/// A file opened for reading or writing.
#[derive(Debug)]
pub struct MinioFile {
    bucket: String,
    name: String,
    upload_mode: UploadMode,
    data: Vec<u8>,
    pos: u64,
    write_buf: Vec<u8>,
    is_open_for_write: bool,
    metadata: MinioMetaData,
}

/// The abstract state of an open file.
pub struct FileView {
    pub bucket: Seq<char>,
    pub name: Seq<char>,
    pub upload_mode: UploadMode,
    pub data: Seq<u8>,
    pub pos: u64,
    pub write_buf: Seq<u8>,
    pub is_open_for_write: bool,
    pub metadata: MinioMetaData,
}

impl View for MinioFile {
    type V = FileView;

    closed spec fn view(&self) -> FileView {
        FileView {
            bucket: self.bucket@,
            name: self.name@,
            upload_mode: self.upload_mode,
            data: self.data@,
            pos: self.pos,
            write_buf: self.write_buf@,
            is_open_for_write: self.is_open_for_write,
            metadata: self.metadata,
        }
    }
}

/// A request to store a file's buffered bytes.
#[derive(Debug)]
pub struct UploadRequest {
    pub bucket: String,
    pub key: String,
    pub body: Vec<u8>,
    pub content_type: String,
}

/// What a flush asks of the store.
#[derive(Debug)]
pub enum FlushAction {
    /// The file was opened for reading: nothing is sent.
    Nothing,
    /// Send the body straight from memory.
    Upload(UploadRequest),
    /// Write the body to `staging_path` (creating `staging_dir`), send it from
    /// there, then remove the staged file.
    UploadStaged { request: UploadRequest, staging_dir: String, staging_path: String },
}

/// The bytes a read of `count` bytes at `pos` returns.
pub open spec fn read_result(data: Seq<u8>, pos: int, count: int) -> Seq<u8> {
    if pos < data.len() {
        data.subrange(pos, read_end(data, pos, count))
    } else {
        Seq::empty()
    }
}

/// The cursor after a read of `count` bytes at `pos`.
pub open spec fn read_end(data: Seq<u8>, pos: int, count: int) -> int {
    if pos + count < data.len() {
        pos + count
    } else {
        data.len() as int
    }
}

/// A signed 64-bit value reinterpreted as unsigned.
pub open spec fn unsigned_of(x: int) -> u64 {
    if x >= 0 {
        x as u64
    } else {
        (x + 0x1_0000_0000_0000_0000) as u64
    }
}

/// An unsigned 64-bit value reinterpreted as signed.
pub open spec fn signed_of(x: u64) -> int {
    if x <= i64::MAX {
        x as int
    } else {
        x - 0x1_0000_0000_0000_0000
    }
}

/// The cursor after a seek. Offsets are added in signed 64-bit arithmetic
/// and the sum is reinterpreted as unsigned.
pub open spec fn seek_target(data_len: nat, pos: u64, to: SeekPos) -> u64 {
    match to {
        SeekPos::Start(offset) => offset,
        SeekPos::End(offset) => unsigned_of(data_len + offset),
        SeekPos::Current(offset) => unsigned_of(signed_of(pos) + offset),
    }
}

/// The seek does not overflow signed 64-bit arithmetic.
pub open spec fn seek_in_range(data_len: nat, pos: u64, to: SeekPos) -> bool {
    match to {
        SeekPos::Start(_) => true,
        SeekPos::End(offset) => data_len <= i64::MAX && i64::MIN <= data_len + offset <= i64::MAX,
        SeekPos::Current(offset) => i64::MIN <= signed_of(pos) + offset <= i64::MAX,
    }
}

/// `x as u64` on a signed value.
proof fn lemma_unsigned_cast(x: i64)
    ensures
        (x as u64) == unsigned_of(x as int),
{
    assert(x < 0 ==> (x as u64) as int == x as int + 0x1_0000_0000_0000_0000) by (bit_vector);
    assert(x >= 0 ==> (x as u64) as int == x as int) by (bit_vector);
}

/// `x as i64` on an unsigned value.
proof fn lemma_signed_cast(x: u64)
    ensures
        (x as i64) as int == signed_of(x),
{
    assert(x > 0x7fff_ffff_ffff_ffff ==> (x as i64) as int == x as int - 0x1_0000_0000_0000_0000) by (bit_vector);
    assert(x <= 0x7fff_ffff_ffff_ffff ==> (x as i64) as int == x as int) by (bit_vector);
}

/// The path at which a file-mode upload of `name` is staged: the staging
/// directory joined with the hex MD5 of the name's UTF-8 bytes.
pub open spec fn staging_path(name: Seq<char>) -> Seq<char> {
    STAGING_DIR@ + seq!['/'] + hex_lower(md5_digest(encode_utf8(name)))
}

impl UploadRequest {
    /// The abstract content of the request.
    pub open spec fn matches(&self, bucket: Seq<char>, key: Seq<char>, body: Seq<u8>) -> bool {
        &&& self.bucket@ == bucket
        &&& self.key@ == key
        &&& self.body@ == body
        &&& self.content_type@ == OBJECT_CONTENT_TYPE@
    }
}

impl FlushAction {
    /// The bytes this action sends, if it sends any.
    pub open spec fn body(&self) -> Option<Seq<u8>> {
        match self {
            FlushAction::Nothing => None,
            FlushAction::Upload(r) => Some(r.body@),
            FlushAction::UploadStaged { request, .. } => Some(request.body@),
        }
    }
}

/// The abstract effect of a flush on an open file, and the bytes it sends.
pub open spec fn flushed(v: FileView) -> FileView {
    if v.is_open_for_write {
        FileView { write_buf: Seq::empty(), ..v }
    } else {
        v
    }
}

/// The abstract effect of writing `bytes`.
pub open spec fn written(v: FileView, bytes: Seq<u8>) -> FileView {
    FileView { write_buf: v.write_buf + bytes, ..v }
}

/// A read returns the bytes stored from the cursor on, as many as asked for
/// and as are left, and moves the cursor past them (to the end when it was
/// already past it).
pub proof fn law_read_is_slice(data: Seq<u8>, pos: int, count: int)
    requires
        0 <= pos,
        0 <= count,
    ensures
        read_result(data, pos, count).len() == if pos < data.len() {
            if count < data.len() - pos {
                count
            } else {
                data.len() - pos
            }
        } else {
            0
        },
        forall|i: int|
            0 <= i < read_result(data, pos, count).len() ==> #[trigger] read_result(data, pos, count)[i] == data[pos
                + i],
        pos < data.len() ==> read_end(data, pos, count) == pos + read_result(data, pos, count).len(),
        pos >= data.len() ==> read_end(data, pos, count) == data.len(),
{
}

/// Seeking from the start goes to the offset; from the end or the cursor, to
/// the sum when it is not negative.
pub proof fn law_seek_moves_by_offset(data_len: nat, pos: u64, to: SeekPos)
    requires
        seek_in_range(data_len, pos, to),
    ensures
        to matches SeekPos::Start(o) ==> seek_target(data_len, pos, to) == o,
        to matches SeekPos::End(o) ==> (data_len + o >= 0 ==> seek_target(data_len, pos, to) == data_len + o),
        to matches SeekPos::Current(o) ==> (pos <= i64::MAX && pos + o >= 0 ==> seek_target(data_len, pos, to)
            == pos + o),
{
}

/// The state after writing each chunk of `chunks` in turn.
pub open spec fn written_all(v: FileView, chunks: Seq<Seq<u8>>) -> FileView
    decreases chunks.len(),
{
    if chunks.len() == 0 {
        v
    } else {
        written(written_all(v, chunks.drop_last()), chunks.last())
    }
}

/// Splitting a read in two returns the same bytes as reading them at once,
/// and leaves the cursor at the same place.
pub proof fn law_split_read(data: Seq<u8>, pos: int, a: int, b: int)
    requires
        0 <= pos,
        0 <= a,
        0 <= b,
    ensures
        read_result(data, pos, a) + read_result(data, read_end(data, pos, a), b) == read_result(
            data,
            pos,
            a + b,
        ),
        read_end(data, read_end(data, pos, a), b) == read_end(data, pos, a + b)
            || pos >= data.len(),
{
    let e = read_end(data, pos, a);
    if pos < data.len() {
        if e < data.len() {
            assert(data.subrange(pos, e) + data.subrange(e, read_end(data, e, b)) =~= data.subrange(
                pos,
                read_end(data, pos, a + b),
            ));
        } else {
            assert(data.subrange(pos, e) + Seq::<u8>::empty() =~= data.subrange(pos, e));
        }
    } else {
        assert(Seq::<u8>::empty() + Seq::<u8>::empty() =~= Seq::<u8>::empty());
    }
}

/// Whatever is written to a freshly opened file, in however many chunks, is
/// exactly what the next flush hands to the store, in order; the flush then
/// leaves the buffer empty, and reading is not affected.
pub proof fn law_flush_sends_all_writes(v: FileView, chunks: Seq<Seq<u8>>)
    requires
        v.write_buf.len() == 0,
    ensures
        written_all(v, chunks).write_buf == chunks.flatten(),
        written_all(v, chunks).data == v.data,
        written_all(v, chunks).pos == v.pos,
        written_all(v, chunks).is_open_for_write == v.is_open_for_write,
        v.is_open_for_write ==> flushed(written_all(v, chunks)).write_buf.len() == 0,
    decreases chunks.len(),
{
    if chunks.len() == 0 {
        assert(chunks.flatten() =~= Seq::<u8>::empty());
    } else {
        law_flush_sends_all_writes(v, chunks.drop_last());
        chunks.lemma_flatten_and_flatten_alt_are_equivalent();
        chunks.drop_last().lemma_flatten_and_flatten_alt_are_equivalent();
        assert(chunks.drop_last().flatten_alt() + chunks.last() =~= chunks.flatten_alt());
    }
}

/// Once the store holds what a flush sent, a file opened on those bytes
/// reads back exactly what was written, in one read large enough.
pub proof fn law_read_back_after_flush(v: FileView, chunks: Seq<Seq<u8>>, count: int)
    requires
        v.write_buf.len() == 0,
        count >= chunks.flatten().len(),
    ensures
        read_result(written_all(v, chunks).write_buf, 0, count) == chunks.flatten(),
{
    law_flush_sends_all_writes(v, chunks);
    let d = chunks.flatten();
    if d.len() > 0 {
        assert(d.subrange(0, d.len() as int) =~= d);
    }
}

impl MinioFile {
    /// Whether a read of `count` bytes at the cursor stays within `usize`.
    pub fn read_fits(&self, count: usize) -> (ok: bool)
        ensures
            ok == (self@.pos + count <= usize::MAX),
    {
        self.pos <= usize::MAX as u64 && count <= usize::MAX - self.pos as usize
    }

    /// Whether a seek stays within signed 64-bit arithmetic.
    pub fn seek_fits(&self, to: SeekPos) -> (ok: bool)
        ensures
            ok == seek_in_range(self@.data.len(), self@.pos, to),
    {
        match to {
            SeekPos::Start(_) => true,
            SeekPos::End(offset) => {
                let len = self.data.len();
                if len as u64 > i64::MAX as u64 {
                    false
                } else {
                    let l = len as i64;
                    if offset >= 0 {
                        l <= i64::MAX - offset
                    } else {
                        l >= i64::MIN - offset
                    }
                }
            },
            SeekPos::Current(offset) => {
                proof {
                    lemma_signed_cast(self.pos);
                }
                let p = self.pos as i64;
                if offset >= 0 {
                    p <= i64::MAX - offset
                } else {
                    p >= i64::MIN - offset
                }
            },
        }
    }

    /// A file opened for reading, over the bytes fetched from the store;
    /// `fetched` is `None` when the fetch failed, and the file is then empty.
    pub fn new_read(
        bucket: String,
        name: String,
        upload_mode: UploadMode,
        metadata: MinioMetaData,
        fetched: Option<Vec<u8>>,
    ) -> (r: Result<MinioFile, FsErrorKind>)
        ensures
            r matches Ok(f) && f@ == (FileView {
                bucket: bucket@,
                name: name@,
                upload_mode,
                data: match fetched {
                    Some(d) => d@,
                    None => Seq::empty(),
                },
                pos: 0,
                write_buf: Seq::empty(),
                is_open_for_write: false,
                metadata,
            }),
    {
        let data = match fetched {
            Some(d) => d,
            None => Vec::new(),
        };
        Ok(
            MinioFile {
                bucket,
                name,
                upload_mode,
                data,
                pos: 0,
                write_buf: Vec::new(),
                is_open_for_write: false,
                metadata,
            },
        )
    }

    /// A file opened for writing, with an empty buffer.
    pub fn new_write(bucket: String, name: String, upload_mode: UploadMode, metadata: MinioMetaData) -> (f: MinioFile)
        ensures
            f@ == (FileView {
                bucket: bucket@,
                name: name@,
                upload_mode,
                data: Seq::empty(),
                pos: 0,
                write_buf: Seq::empty(),
                is_open_for_write: true,
                metadata,
            }),
    {
        MinioFile {
            bucket,
            name,
            upload_mode,
            data: Vec::new(),
            pos: 0,
            write_buf: Vec::new(),
            is_open_for_write: true,
            metadata,
        }
    }

    /// The metadata the file was opened with.
    pub fn metadata(&self) -> (m: MinioMetaData)
        ensures
            m == self@.metadata,
    {
        self.metadata.clone()
    }

    /// Appends `bytes` to the write buffer.
    pub fn write_bytes(&mut self, bytes: &[u8])
        ensures
            final(self)@ == written(old(self)@, bytes@),
    {
        let mut i: usize = 0;
        while i < bytes.len()
            invariant
                i <= bytes@.len(),
                self.write_buf@ == old(self).write_buf@ + bytes@.take(i as int),
                self.bucket == old(self).bucket,
                self.name == old(self).name,
                self.upload_mode == old(self).upload_mode,
                self.data == old(self).data,
                self.pos == old(self).pos,
                self.is_open_for_write == old(self).is_open_for_write,
                self.metadata == old(self).metadata,
            decreases bytes@.len() - i,
        {
            self.write_buf.push(bytes[i]);
            assert(bytes@.take(i + 1) =~= bytes@.take(i as int).push(bytes@[i as int]));
            i = i + 1;
        }
        assert(bytes@.take(bytes@.len() as int) =~= bytes@);
    }

    /// Reads up to `count` bytes at the cursor and moves the cursor past them;
    /// a cursor at or past the end reads nothing and moves to the end.
    pub fn read_bytes(&mut self, count: usize) -> (out: Vec<u8>)
        requires
            old(self)@.pos + count <= usize::MAX,
        ensures
            out@ == read_result(old(self)@.data, old(self)@.pos as int, count as int),
            final(self)@ == (FileView {
                pos: read_end(old(self)@.data, old(self)@.pos as int, count as int) as u64,
                ..old(self)@
            }),
    {
        let start = self.pos as usize;
        let end = usize::min(start + count, self.data.len());
        let mut out: Vec<u8> = Vec::new();
        if start < self.data.len() {
            let mut i = start;
            while i < end
                invariant
                    start <= i <= end <= self.data@.len(),
                    out@ == self.data@.subrange(start as int, i as int),
                decreases end - i,
            {
                out.push(self.data[i]);
                assert(self.data@.subrange(start as int, i + 1) =~= self.data@.subrange(
                    start as int,
                    i as int,
                ).push(self.data@[i as int]));
                i = i + 1;
            }
        }
        self.pos = end as u64;
        out
    }

    /// Moves the cursor and returns its new position.
    pub fn seek(&mut self, to: SeekPos) -> (new_pos: u64)
        requires
            seek_in_range(old(self)@.data.len(), old(self)@.pos, to),
        ensures
            new_pos == seek_target(old(self)@.data.len(), old(self)@.pos, to),
            final(self)@ == (FileView { pos: new_pos, ..old(self)@ }),
    {
        let new_pos = match to {
            SeekPos::Start(offset) => offset,
            SeekPos::End(offset) => {
                let data_len = self.data.len() as i64;
                let sum = data_len + offset;
                proof {
                    lemma_unsigned_cast(sum);
                }
                u64::max(0, sum as u64)
            },
            SeekPos::Current(offset) => {
                proof {
                    lemma_signed_cast(self.pos);
                }
                let sum = self.pos as i64 + offset;
                proof {
                    lemma_unsigned_cast(sum);
                }
                u64::max(0, sum as u64)
            },
        };
        self.pos = new_pos;
        new_pos
    }

    /// Hands the write buffer to the store and empties it. A file opened for
    /// reading sends nothing. In memory mode the bytes are sent directly; in
    /// file mode they are staged under a name derived from the MD5 of the
    /// file's key.
    pub fn flush(&mut self) -> (action: FlushAction)
        ensures
            final(self)@ == flushed(old(self)@),
            !old(self)@.is_open_for_write ==> action is Nothing,
            old(self)@.is_open_for_write && old(self)@.upload_mode == UploadMode::Memory ==> (
            action matches FlushAction::Upload(r) && r.matches(
                old(self)@.bucket,
                old(self)@.name,
                old(self)@.write_buf,
            )),
            old(self)@.is_open_for_write && old(self)@.upload_mode == UploadMode::File ==> (
            action matches FlushAction::UploadStaged { request, staging_dir, staging_path: path }
                && request.matches(old(self)@.bucket, old(self)@.name, old(self)@.write_buf)
                && staging_dir@ == STAGING_DIR@
                && path@ == staging_path(old(self)@.name)),
    {
        if !self.is_open_for_write {
            return FlushAction::Nothing;
        }
        let mut body: Vec<u8> = Vec::new();
        std::mem::swap(&mut body, &mut self.write_buf);
        let request = UploadRequest {
            bucket: self.bucket.clone(),
            key: self.name.clone(),
            body,
            content_type: owned(OBJECT_CONTENT_TYPE),
        };
        match self.upload_mode {
            UploadMode::Memory => FlushAction::Upload(request),
            UploadMode::File => {
                let digest = md5(self.name.as_str().as_bytes());
                let hex = hex_lower_string(digest.as_slice());
                let dir_slash = concat2(STAGING_DIR, "/");
                let path = concat2(dir_slash.as_str(), hex.as_str());
                proof {
                    reveal_strlit("/");
                    assert(path@ =~= staging_path(self.name@));
                }
                FlushAction::UploadStaged { request, staging_dir: owned(STAGING_DIR), staging_path: path }
            },
        }
    }
}

} // verus!
