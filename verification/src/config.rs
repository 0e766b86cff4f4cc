//! Validation of the settings a run is configured with.

use crate::text::contains_char;
use vstd::prelude::*;

verus! {

/// The smallest retention window, in days, that a setting may ask for.
pub const MIN_RETENTION_DAYS: u64 = 1;

/// The largest retention window, in days, that a setting may ask for.
pub const MAX_RETENTION_DAYS: u64 = 365;

/// Whether `days` is an acceptable retention window.
pub open spec fn retention_in_bounds(days: u64) -> bool {
    MIN_RETENTION_DAYS <= days <= MAX_RETENTION_DAYS
}

/// Whether `token` may serve as the file-name token of a directory entry:
/// it is not blank and holds no underscore, which the archive names use
/// as their separator.
pub open spec fn token_acceptable(token: Seq<char>) -> bool {
    token.len() > 0 && !token.contains('_')
}

/// Checks the application-wide log retention setting: accepted exactly
/// when it lies between one day and 365 days.
pub fn config_application_setting_checker(dir_retentionindays: &u64) -> (ok: bool)
    ensures
        ok == retention_in_bounds(*dir_retentionindays),
{
    if *dir_retentionindays < MIN_RETENTION_DAYS {
        return false;
    }
    if *dir_retentionindays > MAX_RETENTION_DAYS {
        return false;
    }
    true
}

/// Checks one directory entry of the configuration. `dir_path_is_dir` tells
/// whether the configured path names an existing directory. The entry is
/// accepted exactly when that holds, the token is acceptable and the
/// retention window is in bounds.
pub fn config_directory_setting_checker(
    dir_path_is_dir: bool,
    dir_filenamecontains: &str,
    dir_retentionindays: &u64,
) -> (ok: bool)
    ensures
        ok == (dir_path_is_dir && token_acceptable(dir_filenamecontains@) && retention_in_bounds(
            *dir_retentionindays,
        )),
{
    if !dir_path_is_dir {
        return false;
    }
    if dir_filenamecontains.is_empty() {
        return false;
    }
    if contains_char(dir_filenamecontains, '_') {
        return false;
    }
    if *dir_retentionindays == 0 {
        return false;
    }
    if *dir_retentionindays > MAX_RETENTION_DAYS {
        return false;
    }
    true
}

} // verus!
