use vstd::prelude::*;

use crate::config::Config;
use crate::text::concat3;

pub mod dir;
pub mod file;
pub mod fileinfo;
pub mod keys;
pub mod listing;
pub mod ops;

verus! {

/// The name of the empty object that marks a directory.
pub const KEEP_FILE_NAME: &'static str = ".mindavkeep";

/// The content type given to directory markers.
pub const KEEP_FILE_CONTENT_TYPE: &'static str = "application/mindav-folder-keeper";

/// The failures that the filesystem operations report.
#[derive(Debug, Clone, Copy, PartialEq, Eq, Structural)]
pub enum FsErrorKind {
    /// The object does not exist.
    NotFound,
    /// The store refused or failed the request.
    GeneralFailure,
}

/// How a written file reaches the store when it is flushed.
#[derive(Debug, Clone, Copy, PartialEq, Eq, Structural)]
pub enum UploadMode {
    /// The buffered bytes are sent directly from memory.
    Memory,
    /// The buffered bytes are first written to a temporary file.
    File,
}

/// The upload mode used when the configuration names none.
pub fn default_upload_mode() -> (mode: UploadMode)
    ensures
        mode == UploadMode::Memory,
{
    UploadMode::Memory
}

/// The URL of the store's endpoint: `https://` or `http://`, then the
/// endpoint.
pub open spec fn endpoint_url(endpoint: Seq<char>, ssl: bool) -> Seq<char> {
    (if ssl {
        seq!['h', 't', 't', 'p', 's']
    } else {
        seq!['h', 't', 't', 'p']
    }) + seq![':', '/', '/'] + endpoint
}

/// What the object-store filesystem is created from.
#[derive(Debug, Clone)]
pub struct MinioFsConfig {
    pub endpoint: String,
    pub bucket_name: String,
    pub ssl: bool,
    pub access_key: String,
    pub secret_access_key: String,
    pub upload_mode: UploadMode,
}

impl MinioFsConfig {
    /// The filesystem settings of a configuration.
    pub fn from_config(c: &Config) -> (f: MinioFsConfig)
        ensures
            f.endpoint == c.minio.endpoint,
            f.bucket_name == c.minio.bucket_name,
            f.ssl == c.minio.ssl,
            f.access_key == c.minio.access_key,
            f.secret_access_key == c.minio.secret_access_key,
            f.upload_mode == c.app.upload_mode,
    {
        MinioFsConfig {
            endpoint: c.minio.endpoint.clone(),
            bucket_name: c.minio.bucket_name.clone(),
            ssl: c.minio.ssl,
            access_key: c.minio.access_key.clone(),
            secret_access_key: c.minio.secret_access_key.clone(),
            upload_mode: c.app.upload_mode,
        }
    }

    /// The URL of the store's endpoint.
    pub fn endpoint_url(&self) -> (url: String)
        ensures
            url@ == endpoint_url(self.endpoint@, self.ssl),
    {
        let scheme = if self.ssl {
            "https"
        } else {
            "http"
        };
        let url = concat3(scheme, "://", self.endpoint.as_str());
        proof {
            reveal_strlit("https");
            reveal_strlit("http");
            reveal_strlit("://");
        }
        url
    }
}

} // verus!
