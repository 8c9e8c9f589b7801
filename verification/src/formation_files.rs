//! The checks around reading and saving a settings file's probe formations
//! and importing formation files.
//!
//! A save names the check sum of the file as it was read; the file is
//! written only while it still has that check sum, so that changes the
//! client (or another window) made meanwhile are not overwritten.
use vstd::prelude::*;
use crate::digest::{hex_lower, sha256_hex, sha256_spec};
use crate::model::FormationWriteResult;
use crate::text::{decimal, push_decimal, str_eq};

verus! {

/// Formation files larger than this (1 MiB) are not read.
pub const MAX_FORMATION_FILE_BYTES: u64 = 1048576;

/// Archive manifests larger than this (2 MiB) are not read.
pub const MAX_MANIFEST_BYTES: u64 = 2097152;

/// The check sum of a settings file's bytes as read, where it is the one
/// the caller saw (or the caller names none).
pub fn expect_checksum(expected: Option<&str>, current: &[u8]) -> (r: Result<String, String>)
    ensures
        match expected {
            Some(e) if e@ != hex_lower(sha256_spec(current@)) => r matches Err(m) && m@
                == "Settings file changed on disk. Reload it before saving your formations."@,
            _ => r matches Ok(s) && s@ == hex_lower(sha256_spec(current@)),
        },
{
    let sum = sha256_hex(current);
    match expected {
        Some(e) => if !str_eq(e, sum.as_str()) {
            return Err("Settings file changed on disk. Reload it before saving your formations.".to_owned());
        },
        None => {},
    }
    Ok(sum)
}

/// Refuses to write when the file changed between reading and writing it.
pub fn expect_unchanged_while_saving(latest: &[u8], read_sha256: &str) -> (r: Result<(), String>)
    ensures
        hex_lower(sha256_spec(latest@)) == read_sha256@ ==> r is Ok,
        hex_lower(sha256_spec(latest@)) != read_sha256@ ==> (r matches Err(m) && m@
            == "Settings file changed on disk while saving. Reload it before trying again."@),
{
    let sum = sha256_hex(latest);
    if str_eq(sum.as_str(), read_sha256) {
        Ok(())
    } else {
        Err("Settings file changed on disk while saving. Reload it before trying again.".to_owned())
    }
}

/// The outcome of a save: the check sum of the bytes written, which the
/// next save names.
pub fn formation_write_result(written: &[u8]) -> (r: FormationWriteResult)
    ensures
        r.file_sha256@ == hex_lower(sha256_spec(written@)),
{
    FormationWriteResult { file_sha256: sha256_hex(written) }
}

/// Refuses a formation file larger than 1 MiB before it is read.
pub fn check_formation_file_size(len: u64) -> (r: Result<(), String>)
    ensures
        len <= MAX_FORMATION_FILE_BYTES ==> r is Ok,
        len > MAX_FORMATION_FILE_BYTES ==> (r matches Err(m) && m@ == "Formation JSON is larger than 1 MiB"@),
{
    if len > MAX_FORMATION_FILE_BYTES {
        Err("Formation JSON is larger than 1 MiB".to_owned())
    } else {
        Ok(())
    }
}

/// Refuses an archive manifest larger than 2 MiB before it is read.
pub fn check_manifest_size(len: u64) -> (r: Result<(), String>)
    ensures
        len <= MAX_MANIFEST_BYTES ==> r is Ok,
        len > MAX_MANIFEST_BYTES ==> (r matches Err(m) && m@ == "Archive manifest is larger than 2 MiB"@),
{
    if len > MAX_MANIFEST_BYTES {
        Err("Archive manifest is larger than 2 MiB".to_owned())
    } else {
        Ok(())
    }
}

/// Only schema version 1 of a formation pack is read.
pub fn check_pack_schema(version: u32) -> (r: Result<(), String>)
    ensures
        version == 1 ==> r is Ok,
        version != 1 ==> (r matches Err(m) && m@ == "Unsupported formation pack schema version "@ + decimal(
            version as nat,
        )),
{
    if version != 1 {
        let mut m = "Unsupported formation pack schema version ".to_owned();
        push_decimal(&mut m, version as u64);
        Err(m)
    } else {
        Ok(())
    }
}

/// Only schema version 1 of a single formation is read.
pub fn check_formation_schema(version: u32) -> (r: Result<(), String>)
    ensures
        version == 1 ==> r is Ok,
        version != 1 ==> (r matches Err(m) && m@ == "Unsupported formation schema version "@ + decimal(
            version as nat,
        )),
{
    if version != 1 {
        let mut m = "Unsupported formation schema version ".to_owned();
        push_decimal(&mut m, version as u64);
        Err(m)
    } else {
        Ok(())
    }
}

} // verus!
