//! The closed set of backend identifiers and the registry of those whose
//! support is compiled into this build.

use vstd::prelude::*;

verus! {

/// A backend identifier: a closed set of string-backed tokens.
///
/// Only some members have their backend compiled into this build; the rest
/// are known names whose runtime-selected construction is a reportable
/// `Unsupported` failure, not a defect.
#[derive(Clone, Copy, PartialEq, Eq, Structural, Debug)]
pub enum Scheme {
    Azblob,
    Fs,
    Gcs,
    Http,
    Memory,
    Redis,
    S3,
    Webdav,
}

impl Scheme {
    /// The token's string form.
    pub open spec fn spec_name(self) -> Seq<char> {
        match self {
            Scheme::Azblob => "azblob"@,
            Scheme::Fs => "fs"@,
            Scheme::Gcs => "gcs"@,
            Scheme::Http => "http"@,
            Scheme::Memory => "memory"@,
            Scheme::Redis => "redis"@,
            Scheme::S3 => "s3"@,
            Scheme::Webdav => "webdav"@,
        }
    }

    /// The token's string form.
    pub fn name(self) -> (s: &'static str)
        ensures
            s@ == self.spec_name(),
    {
        match self {
            Scheme::Azblob => "azblob",
            Scheme::Fs => "fs",
            Scheme::Gcs => "gcs",
            Scheme::Http => "http",
            Scheme::Memory => "memory",
            Scheme::Redis => "redis",
            Scheme::S3 => "s3",
            Scheme::Webdav => "webdav",
        }
    }

    /// Whether the scheme's backend support is compiled into this build:
    /// the registry holds an entry for it.
    pub open spec fn spec_enabled(self) -> bool {
        self == Scheme::Memory || self == Scheme::Fs
    }

    /// Registry lookup: whether a builder exists for this scheme.
    pub fn enabled(self) -> (r: bool)
        ensures
            r == self.spec_enabled(),
    {
        match self {
            Scheme::Memory => true,
            Scheme::Fs => true,
            _ => false,
        }
    }
}

} // verus!
