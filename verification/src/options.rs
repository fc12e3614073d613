//! The option translator: declarative configuration for a single call.
//!
//! Each call category takes an ordered list of options, duplicates allowed;
//! every option independently sets one field of a transient flags value, so
//! repeating an option is harmless. The flags value is scoped to the one
//! operation that built it and is discarded afterwards.

use vstd::prelude::*;

verus! {

/// An option consulted when opening a store.
#[derive(Clone, Copy, PartialEq, Eq, Structural, Debug)]
pub enum OpenOption {
    /// Create the store when none exists at the named location.
    CreateIfMissing,
    /// Fail the open when a store already exists at the named location.
    ErrorIfExists,
    /// Treat internal corruption as an error as aggressively as possible.
    ParanoidChecks,
}

/// An option consulted by a single write (`put`, `delete`, batch apply).
#[derive(Clone, Copy, PartialEq, Eq, Structural, Debug)]
pub enum WriteOption {
    /// Flush the write durably before the call returns.
    Sync,
}

/// An option consulted by a single read (`get`, cursor creation).
#[derive(Clone, Copy, PartialEq, Eq, Structural, Debug)]
pub enum ReadOption {
    /// Verify checksums of the data read.
    VerifyChecksum,
    /// Admit the data read into the cache.
    FillCache,
}

/// The transient configuration built for one open call.
#[derive(Clone, Copy, PartialEq, Eq, Structural, Debug)]
pub struct OpenFlags {
    /// Whether a missing store is created.
    pub create_if_missing: bool,
    /// Whether an existing store fails the open.
    pub error_if_exists: bool,
    /// Whether corruption checks are aggressive.
    pub paranoid_checks: bool,
}

/// The transient configuration built for one write call.
#[derive(Clone, Copy, PartialEq, Eq, Structural, Debug)]
pub struct WriteFlags {
    /// Whether the write is flushed durably before returning.
    pub sync: bool,
}

/// The transient configuration built for one read call.
#[derive(Clone, Copy, PartialEq, Eq, Structural, Debug)]
pub struct ReadFlags {
    /// Whether checksums are verified.
    pub verify_checksum: bool,
    /// Whether the data read is admitted into the cache.
    pub fill_cache: bool,
}

/// Builds the configuration of one open call: a field is set exactly when
/// the corresponding option occurs somewhere in the list.
pub fn open_flags(options: &[OpenOption]) -> (r: OpenFlags)
    ensures
        r.create_if_missing == options@.contains(OpenOption::CreateIfMissing),
        r.error_if_exists == options@.contains(OpenOption::ErrorIfExists),
        r.paranoid_checks == options@.contains(OpenOption::ParanoidChecks),
{
    let mut r = OpenFlags { create_if_missing: false, error_if_exists: false, paranoid_checks: false };
    let mut i: usize = 0;
    while i < options.len()
        invariant
            i <= options@.len(),
            r.create_if_missing == (exists|j: int|
                0 <= j < i && options@[j] == OpenOption::CreateIfMissing),
            r.error_if_exists == (exists|j: int|
                0 <= j < i && options@[j] == OpenOption::ErrorIfExists),
            r.paranoid_checks == (exists|j: int|
                0 <= j < i && options@[j] == OpenOption::ParanoidChecks),
        decreases options@.len() - i,
    {
        match options[i] {
            OpenOption::CreateIfMissing => {
                r.create_if_missing = true;
            },
            OpenOption::ErrorIfExists => {
                r.error_if_exists = true;
            },
            OpenOption::ParanoidChecks => {
                r.paranoid_checks = true;
            },
        }
        i = i + 1;
    }
    r
}

/// Builds the configuration of one write call.
pub fn write_flags(options: &[WriteOption]) -> (r: WriteFlags)
    ensures
        r.sync == options@.contains(WriteOption::Sync),
{
    let mut r = WriteFlags { sync: false };
    let mut i: usize = 0;
    while i < options.len()
        invariant
            i <= options@.len(),
            r.sync == (exists|j: int| 0 <= j < i && options@[j] == WriteOption::Sync),
        decreases options@.len() - i,
    {
        let o = options[i];
        match o {
            WriteOption::Sync => {
                proof {
                    assert(o == WriteOption::Sync);
                }
                r.sync = true;
            },
        }
        i = i + 1;
    }
    r
}

/// Builds the configuration of one read call.
pub fn read_flags(options: &[ReadOption]) -> (r: ReadFlags)
    ensures
        r.verify_checksum == options@.contains(ReadOption::VerifyChecksum),
        r.fill_cache == options@.contains(ReadOption::FillCache),
{
    let mut r = ReadFlags { verify_checksum: false, fill_cache: false };
    let mut i: usize = 0;
    while i < options.len()
        invariant
            i <= options@.len(),
            r.verify_checksum == (exists|j: int|
                0 <= j < i && options@[j] == ReadOption::VerifyChecksum),
            r.fill_cache == (exists|j: int| 0 <= j < i && options@[j] == ReadOption::FillCache),
        decreases options@.len() - i,
    {
        match options[i] {
            ReadOption::VerifyChecksum => {
                r.verify_checksum = true;
            },
            ReadOption::FillCache => {
                r.fill_cache = true;
            },
        }
        i = i + 1;
    }
    r
}

} // verus!
