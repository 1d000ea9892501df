//! Entries of a directory listing.

use std::time::SystemTime;

use vstd::prelude::*;
use vstd::utf8::encode_utf8;

use super::fileinfo::MinioMetaData;
use crate::text::{
    after_last, after_last_char, last_index_of, lemma_after_last_has_no, lemma_last_index_bounds, trim_both, trim_char,
};

verus! {

/// One child of a listed directory.
#[derive(Debug)]
pub struct MinioDirEntry {
    pub key: String,
    pub size: u64,
    pub last_modified: SystemTime,
    pub is_dir: bool,
}

/// The name shown for an entry: the last segment of its key, where a
/// directory key is first stripped of its slashes at both ends.
pub open spec fn entry_name(key: Seq<char>, is_dir: bool) -> Seq<char> {
    let full = if is_dir {
        trim_both(key, '/')
    } else {
        key
    };
    after_last(full, '/')
}

impl MinioDirEntry {
    /// The entry's name as UTF-8 bytes.
    pub fn name(&self) -> (bytes: Vec<u8>)
        ensures
            bytes@ == encode_utf8(entry_name(self.key@, self.is_dir)),
    {
        let full = if self.is_dir {
            trim_char(self.key.as_str(), '/')
        } else {
            self.key.clone()
        };
        let name = after_last_char(full.as_str(), '/');
        name.as_str().as_bytes_vec()
    }

    /// The metadata this entry reports.
    pub fn metadata(&self) -> (m: MinioMetaData)
        ensures
            m.key == self.key,
            m.size == self.size,
            m.last_modified == self.last_modified,
            m.is_dir == self.is_dir,
    {
        MinioMetaData {
            key: self.key.clone(),
            size: self.size,
            last_modified: self.last_modified,
            is_dir: self.is_dir,
        }
    }
}

/// The name of an entry is the last segment of its key (for a directory, of
/// its key stripped of outer slashes): it ends that key, and what precedes
/// it is empty or ends with a slash.
pub proof fn law_entry_name_is_last_segment(key: Seq<char>, is_dir: bool)
    ensures
        ({
            let full = if is_dir {
                trim_both(key, '/')
            } else {
                key
            };
            let name = entry_name(key, is_dir);
            &&& name.len() <= full.len()
            &&& full.skip(full.len() - name.len()) == name
            &&& name.len() == full.len() || full[full.len() - name.len() - 1] == '/'
        }),
{
    let full = if is_dir {
        trim_both(key, '/')
    } else {
        key
    };
    lemma_last_index_bounds(full, '/');
    let li = last_index_of(full, '/');
    assert(entry_name(key, is_dir) == full.skip(li + 1));
}

/// The name of an entry never holds a slash.
pub proof fn law_entry_name_has_no_slash(key: Seq<char>, is_dir: bool)
    ensures
        forall|i: int| 0 <= i < entry_name(key, is_dir).len() ==> entry_name(key, is_dir)[i] != '/',
{
    let full = if is_dir {
        trim_both(key, '/')
    } else {
        key
    };
    lemma_after_last_has_no(full, '/');
}

} // verus!
