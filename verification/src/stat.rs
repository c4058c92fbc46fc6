//! File metadata fingerprints.

use vstd::prelude::*;

verus! {

/// Nanoseconds in a second.
pub const NANOS_PER_SEC: i128 = 1_000_000_000;

/// A point in time, in nanoseconds from the Unix epoch; earlier times are negative.
#[derive(Debug, Clone, Copy, PartialEq, Eq, Structural)]
pub struct FileTime {
    pub nanos: i128,
}

/// The kind of a file, without following symbolic links.
#[derive(Debug, Clone, Copy, PartialEq, Eq, Structural)]
pub enum StatFileType {
    Regular,
    Directory,
    Symlink,
    Other,
}

/// What the operating system reports of a file that was looked at without following links. The
/// `unix_` fields are absent on systems that have no such value.
#[derive(Debug, Clone, Copy)]
pub struct FileMetadata {
    pub is_symlink: bool,
    pub is_dir: bool,
    pub is_file: bool,
    pub modified: Option<FileTime>,
    pub created: Option<FileTime>,
    pub len: u64,
    pub readonly: bool,
    pub unix_mode: Option<u32>,
    pub unix_ctime: Option<(i64, i64)>,
}

/// The fingerprint of a single file.
#[derive(Debug, Clone, Copy, PartialEq, Eq, Structural)]
pub struct StatEntry {
    pub exists: bool,
    pub mtime: Option<FileTime>,
    pub ctime: Option<FileTime>,
    pub size: u64,
    pub mode: u32,
    pub file_type: StatFileType,
}

/// The kind that a fingerprint records: a link first, then a directory, then a regular file.
pub open spec fn file_type_of(meta: FileMetadata) -> StatFileType {
    if meta.is_symlink {
        StatFileType::Symlink
    } else if meta.is_dir {
        StatFileType::Directory
    } else if meta.is_file {
        StatFileType::Regular
    } else {
        StatFileType::Other
    }
}

/// The permission bits that a fingerprint records. Where the system has none, a read-only file
/// counts as `0o444` and any other as `0o644`.
pub open spec fn mode_of(meta: FileMetadata) -> u32 {
    match meta.unix_mode {
        Some(mode) => mode,
        None => if meta.readonly {
            0o444
        } else {
            0o644
        },
    }
}

/// The change time that a fingerprint records: seconds and nanoseconds after the epoch, none for a
/// time before it. Where the system has no change time, the creation time stands in.
pub open spec fn ctime_of(meta: FileMetadata) -> Option<FileTime> {
    match meta.unix_ctime {
        Some((secs, nsecs)) => if secs >= 0 {
            Some(FileTime { nanos: (secs * NANOS_PER_SEC + nsecs as u32) as i128 })
        } else {
            None
        },
        None => meta.created,
    }
}

/// The fingerprint of a file that is present.
pub open spec fn stat_entry_of(meta: FileMetadata) -> StatEntry {
    StatEntry {
        exists: true,
        mtime: meta.modified,
        ctime: ctime_of(meta),
        size: meta.len,
        mode: mode_of(meta),
        file_type: file_type_of(meta),
    }
}

impl StatEntry {
    /// Builds the fingerprint of a file from its metadata.
    pub fn from_metadata(meta: &FileMetadata) -> (entry: StatEntry)
        ensures
            entry == stat_entry_of(*meta),
    {
        let file_type = if meta.is_symlink {
            StatFileType::Symlink
        } else if meta.is_dir {
            StatFileType::Directory
        } else if meta.is_file {
            StatFileType::Regular
        } else {
            StatFileType::Other
        };
        StatEntry {
            exists: true,
            mtime: meta.modified,
            ctime: Self::extract_ctime(meta),
            size: meta.len,
            mode: Self::extract_mode(meta),
            file_type,
        }
    }

    /// The permission bits of a file.
    pub fn extract_mode(meta: &FileMetadata) -> (mode: u32)
        ensures
            mode == mode_of(*meta),
    {
        match meta.unix_mode {
            Some(mode) => mode,
            None => if meta.readonly {
                0o444
            } else {
                0o644
            },
        }
    }

    /// The change time of a file.
    pub fn extract_ctime(meta: &FileMetadata) -> (ctime: Option<FileTime>)
        ensures
            ctime == ctime_of(*meta),
    {
        match meta.unix_ctime {
            Some((secs, nsecs)) => if secs >= 0 {
                let whole: i128 = (secs as i128) * NANOS_PER_SEC;
                let part: u32 = #[verifier::truncate] (nsecs as u32);
                Some(FileTime { nanos: whole + part as i128 })
            } else {
                None
            },
            None => meta.created,
        }
    }
}

/// The nanoseconds from the epoch to `time`; none for a time before it.
pub open spec fn nanos_since_epoch(time: FileTime) -> nat {
    if time.nanos >= 0 {
        time.nanos as nat
    } else {
        0
    }
}

/// Converts a time to the nanoseconds since the Unix epoch, for comparison with watermarks.
pub fn system_time_to_nanos(time: FileTime) -> (nanos: u128)
    ensures
        nanos == nanos_since_epoch(time),
{
    if time.nanos >= 0 {
        time.nanos as u128
    } else {
        0
    }
}

/// What a fingerprint records of the metadata of a file, field by field. A change time is kept to the
/// nanosecond.
pub proof fn fingerprints_record_the_metadata(meta: FileMetadata)
    ensures
        stat_entry_of(meta).exists,
        stat_entry_of(meta).mode == mode_of(meta),
        stat_entry_of(meta).ctime == ctime_of(meta),
        stat_entry_of(meta).file_type == file_type_of(meta),
        stat_entry_of(meta).mtime == meta.modified,
        stat_entry_of(meta).size == meta.len,
        meta.unix_mode matches Some(mode) ==> stat_entry_of(meta).mode == mode,
        meta.unix_mode is None && meta.readonly ==> stat_entry_of(meta).mode == 0o444,
        meta.unix_mode is None && !meta.readonly ==> stat_entry_of(meta).mode == 0o644,
        stat_entry_of(meta).file_type == StatFileType::Symlink <==> meta.is_symlink,
        stat_entry_of(meta).file_type == StatFileType::Directory <==> !meta.is_symlink
            && meta.is_dir,
        stat_entry_of(meta).file_type == StatFileType::Regular <==> !meta.is_symlink && !meta.is_dir
            && meta.is_file,
        meta.unix_ctime is None ==> stat_entry_of(meta).ctime == meta.created,
        meta.unix_ctime matches Some(time) ==> time.0 < 0 ==> stat_entry_of(meta).ctime is None,
        meta.unix_ctime matches Some(time) ==> time.0 >= 0 ==> stat_entry_of(meta).ctime is Some,
        meta.unix_ctime matches Some(time) ==> time.0 >= 0 && 0 <= time.1 < 1_000_000_000
            ==> stat_entry_of(meta).ctime->0.nanos == time.0 * 1_000_000_000 + time.1,
{
}

/// A time is counted from the epoch on; a time before it counts as the epoch.
pub proof fn times_count_from_the_epoch(time: FileTime)
    ensures
        time.nanos >= 0 ==> nanos_since_epoch(time) == time.nanos,
        time.nanos < 0 ==> nanos_since_epoch(time) == 0,
{
}

} // verus!
