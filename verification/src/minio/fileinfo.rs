//! Metadata of an object or directory.

use std::time::SystemTime;

use vstd::prelude::*;

use super::FsErrorKind;
use crate::bindings::now;

verus! {

/// Size, time and kind of an object or a directory.
#[derive(Debug)]
pub struct MinioMetaData {
    pub key: String,
    pub size: u64,
    pub last_modified: SystemTime,
    pub is_dir: bool,
}

impl Clone for MinioMetaData {
    fn clone(&self) -> (r: Self)
        ensures
            r == *self,
    {
        MinioMetaData {
            key: self.key.clone(),
            size: self.size,
            last_modified: self.last_modified,
            is_dir: self.is_dir,
        }
    }
}

/// The size reported for an object whose stored length is `content_length`:
/// the length reinterpreted as unsigned, or 0 when the store gave none.
pub open spec fn reported_size(content_length: Option<i64>) -> u64 {
    match content_length {
        Some(n) => n as u64,
        None => 0,
    }
}

/// The time the store reported, or `now` when it reported none.
pub open spec fn stamp_or(reported: Option<SystemTime>, now: SystemTime) -> SystemTime {
    match reported {
        Some(t) => t,
        None => now,
    }
}

/// The reported size is the stored length itself when it is not negative; a
/// negative length is read as unsigned (it wraps around); no length is 0.
pub proof fn law_reported_size_is_length(n: i64)
    ensures
        n >= 0 ==> reported_size(Some(n)) as int == n as int,
        n < 0 ==> reported_size(Some(n)) as int == n as int + 0x1_0000_0000_0000_0000,
        reported_size(None) == 0,
{
    assert(n >= 0 ==> (n as u64) as int == n as int) by (bit_vector);
    assert(n < 0 ==> (n as u64) as int == n as int + 0x1_0000_0000_0000_0000) by (bit_vector);
}

impl MinioMetaData {
    /// Metadata of the directory `key`: size 0, stamped with the current time.
    pub fn new_dir(key: String) -> (m: Self)
        ensures
            m.key == key,
            m.size == 0,
            m.is_dir,
    {
        MinioMetaData::new_dir_at(key, now())
    }

    /// Metadata of the directory `key` at time `now`: size 0, stamped `now`.
    pub fn new_dir_at(key: String, now: SystemTime) -> (m: Self)
        ensures
            m == (MinioMetaData { key, size: 0, last_modified: now, is_dir: true }),
    {
        MinioMetaData { key, size: 0, last_modified: now, is_dir: true }
    }

    /// Metadata of the object `key` from what the store reported for it. A
    /// missing modification time is replaced by `now`, the time of the request.
    pub fn new_file(key: String, content_length: Option<i64>, last_modified: Option<SystemTime>, now: SystemTime) -> (m: Self)
        ensures
            m == (MinioMetaData {
                key,
                size: reported_size(content_length),
                last_modified: stamp_or(last_modified, now),
                is_dir: false,
            }),
    {
        let size: u64 = match content_length {
            Some(n) => n as u64,
            None => 0,
        };
        let last_modified = match last_modified {
            Some(t) => t,
            None => now,
        };
        MinioMetaData { key, size, last_modified, is_dir: false }
    }

    /// The size in bytes.
    pub fn len(&self) -> (n: u64)
        ensures
            n == self.size,
    {
        self.size
    }

    /// The modification time; always available.
    pub fn modified(&self) -> (r: Result<SystemTime, FsErrorKind>)
        ensures
            r == Ok::<SystemTime, FsErrorKind>(self.last_modified),
    {
        Ok(self.last_modified)
    }

    /// Whether this describes a directory.
    pub fn is_dir(&self) -> (b: bool)
        ensures
            b == self.is_dir,
    {
        self.is_dir
    }
}

} // verus!
