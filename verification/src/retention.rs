//! The retention sweeper: which files have outlived the retention window.

use crate::classify::has_managed_extension;
use crate::classify::managed_extension;
use crate::clock::Timestamp;
use crate::record::FileRecord;
use crate::text::contains_text;
use crate::text::extension_of;
use crate::text::is_substring;
use crate::text::texts_of;
use vstd::prelude::*;

verus! {

/// The retention window of `days` days, in nanoseconds: `days` times 86400
/// seconds.
pub open spec fn max_age_nanos(days: u64) -> int {
    days as int * 86_400 * 1_000_000_000
}

/// Whether a file last modified at `modified` has outlived a window of
/// `days` days at the instant `now`: its age is strictly greater than the
/// window.
pub open spec fn expired(modified: Timestamp, now: Timestamp, days: u64) -> bool {
    now.total_nanos() - modified.total_nanos() > max_age_nanos(days)
}

/// Whether the sweep removes `r`: a regular file whose name contains
/// `token`, with a managed extension, whose last modification is known
/// and lies further back than the window.
pub open spec fn sweepable(r: FileRecord, token: Seq<char>, days: u64, now: Timestamp) -> bool {
    &&& r.is_file
    &&& is_substring(token, r.file_name@)
    &&& managed_extension(extension_of(r.file_name@))
    &&& r.modified matches Some(modified)
    &&& expired(modified, now, days)
}

/// The records that the sweep removes, in scan order.
pub open spec fn swept(records: Seq<FileRecord>, token: Seq<char>, days: u64, now: Timestamp) -> Seq<
    FileRecord,
> {
    records.filter(|r: FileRecord| sweepable(r, token, days, now))
}

/// The paths of a sequence of records.
pub open spec fn paths_of(records: Seq<FileRecord>) -> Seq<Seq<char>> {
    Seq::new(records.len(), |i: int| records[i].path@)
}

/// How one more record changes the sweep.
pub proof fn lemma_swept_push(
    records: Seq<FileRecord>,
    r: FileRecord,
    token: Seq<char>,
    days: u64,
    now: Timestamp,
)
    ensures
        swept(records.push(r), token, days, now) == if sweepable(r, token, days, now) {
            swept(records, token, days, now).push(r)
        } else {
            swept(records, token, days, now)
        },
{
    reveal(Seq::filter);
    assert(records.push(r).drop_last() =~= records);
}

/// The retention boundary. A file last modified exactly one window before
/// `now` is kept; a file modified a second or more before that is removed.
pub proof fn law_retention_boundary(modified: Timestamp, now: Timestamp, days: u64)
    ensures
        now.total_nanos() - modified.total_nanos() == max_age_nanos(days) ==> !expired(
            modified,
            now,
            days,
        ),
        now.total_nanos() - modified.total_nanos() >= max_age_nanos(days) + 1_000_000_000
            ==> expired(modified, now, days),
{
}

/// Whether a file last modified at `modified` has outlived the window.
pub fn is_expired(modified: &Timestamp, now: &Timestamp, days: u64) -> (old: bool)
    ensures
        old == expired(*modified, *now, days),
{
    let age: i128 = now.nanos_since_epoch() - modified.nanos_since_epoch();
    let window: i128 = (days as i128) * 86_400 * 1_000_000_000;
    age > window
}

/// Whether the sweep removes `record`.
pub fn is_sweepable(record: &FileRecord, search_str: &str, days: u64, now: &Timestamp) -> (yes: bool)
    ensures
        yes == sweepable(*record, search_str@, days, *now),
{
    if !record.is_file {
        return false;
    }
    if !contains_text(record.file_name.as_str(), search_str) {
        return false;
    }
    if !has_managed_extension(record.file_name.as_str()) {
        return false;
    }
    match &record.modified {
        None => false,
        Some(modified) => is_expired(modified, now, days),
    }
}

/// Picks the files of a scanned directory that have outlived the retention
/// window of `days` days at the instant `now`, and returns their paths in
/// scan order, for the caller to remove.
pub fn remove_old_files(records: &Vec<FileRecord>, search_str: &str, days: &u64, now: &Timestamp) -> (doomed:
    Vec<String>)
    ensures
        texts_of(doomed@) == paths_of(swept(records@, search_str@, *days, *now)),
{
    let mut doomed: Vec<String> = Vec::new();
    let mut i: usize = 0;
    proof {
        reveal(Seq::filter);
        assert(texts_of(doomed@) =~= paths_of(swept(records@.take(0), search_str@, *days, *now)));
    }
    while i < records.len()
        invariant
            i <= records.len(),
            texts_of(doomed@) == paths_of(swept(records@.take(i as int), search_str@, *days, *now)),
        decreases records.len() - i,
    {
        let record = &records[i];
        proof {
            assert(records@.take(i + 1) =~= records@.take(i as int).push(*record));
            lemma_swept_push(records@.take(i as int), *record, search_str@, *days, *now);
        }
        let ghost before = texts_of(doomed@);
        if is_sweepable(record, search_str, *days, now) {
            doomed.push(record.path.clone());
            assert(texts_of(doomed@) =~= before.push(record.path@));
            assert(texts_of(doomed@) =~= paths_of(
                swept(records@.take(i + 1), search_str@, *days, *now),
            ));
        }
        i += 1;
    }
    assert(records@.take(i as int) =~= records@);
    doomed
}

} // verus!
