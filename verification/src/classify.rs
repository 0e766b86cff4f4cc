//! The path classifier: which scanned entries qualify for archiving.

use crate::clock::date_key;
use crate::clock::date_key_of;
use crate::record::FileRecord;
use crate::text::contains_text;
use crate::text::extension;
use crate::text::extension_of;
use crate::text::is_substring;
use crate::text::text_equals;
use vstd::prelude::*;

verus! {

/// Why the classifier passed an entry over.
#[derive(Clone, Copy, Debug, PartialEq, Eq, Structural)]
pub enum SkipReason {
    /// The entry is no regular file.
    NotRegularFile,
    /// The file name does not contain the search token.
    TokenAbsent,
    /// The extension is not one of the accepted ones, or there is none.
    WrongExtension,
    /// The file system would not tell when the file was created.
    CreationTimeUnknown,
    /// The creation instant has no representable local calendar date.
    DateUnrepresentable,
    /// The file was created on the current local calendar date.
    CreatedToday,
}

/// The classifier's verdict on one entry.
#[derive(Clone, Copy, Debug, PartialEq, Eq, Structural)]
pub enum Classification {
    Eligible,
    Skipped(SkipReason),
}

/// The text `log`.
pub open spec fn ext_log() -> Seq<char> {
    seq!['l', 'o', 'g']
}

/// The text `txt`.
pub open spec fn ext_txt() -> Seq<char> {
    seq!['t', 'x', 't']
}

/// The text `zip`.
pub open spec fn ext_zip() -> Seq<char> {
    seq!['z', 'i', 'p']
}

/// Whether a file with this extension may be archived: the extension is
/// exactly `log` or `txt`.
pub open spec fn archivable_extension(ext: Option<Seq<char>>) -> bool {
    ext == Some(ext_log()) || ext == Some(ext_txt())
}

/// Whether a file with this extension is one the utility manages at all:
/// a log (`log`, `txt`) or an archive of logs (`zip`).
pub open spec fn managed_extension(ext: Option<Seq<char>>) -> bool {
    archivable_extension(ext) || ext == Some(ext_zip())
}

/// The verdict on `r`, its rules applied in order: a regular file, whose
/// name contains `token`, whose extension is `log` or `txt`, whose creation
/// date is known and is not `today`.
pub open spec fn classification_of(
    r: FileRecord,
    token: Seq<char>,
    today: Seq<char>,
) -> Classification {
    if !r.is_file {
        Classification::Skipped(SkipReason::NotRegularFile)
    } else if !is_substring(token, r.file_name@) {
        Classification::Skipped(SkipReason::TokenAbsent)
    } else if !archivable_extension(extension_of(r.file_name@)) {
        Classification::Skipped(SkipReason::WrongExtension)
    } else {
        match r.created {
            None => Classification::Skipped(SkipReason::CreationTimeUnknown),
            Some(t) => match date_key_of(t) {
                None => Classification::Skipped(SkipReason::DateUnrepresentable),
                Some(key) => if key == today {
                    Classification::Skipped(SkipReason::CreatedToday)
                } else {
                    Classification::Eligible
                },
            },
        }
    }
}

/// Whether the file name `name` has an archivable extension.
pub fn has_archivable_extension(name: &str) -> (yes: bool)
    ensures
        yes == archivable_extension(extension_of(name@)),
{
    proof {
        reveal_strlit("log");
        reveal_strlit("txt");
        assert("log"@ =~= ext_log());
        assert("txt"@ =~= ext_txt());
    }
    match extension(name) {
        None => false,
        Some(e) => text_equals(e.as_str(), "log") || text_equals(e.as_str(), "txt"),
    }
}

/// Whether the file name `name` has a managed extension.
pub fn has_managed_extension(name: &str) -> (yes: bool)
    ensures
        yes == managed_extension(extension_of(name@)),
{
    proof {
        reveal_strlit("log");
        reveal_strlit("txt");
        reveal_strlit("zip");
        assert("log"@ =~= ext_log());
        assert("txt"@ =~= ext_txt());
        assert("zip"@ =~= ext_zip());
    }
    match extension(name) {
        None => false,
        Some(e) => text_equals(e.as_str(), "log") || text_equals(e.as_str(), "txt")
            || text_equals(e.as_str(), "zip"),
    }
}

/// The date key under which an eligible entry is grouped.
pub open spec fn key_of(r: FileRecord) -> Seq<char> {
    date_key_of(r.created.unwrap()).unwrap()
}

/// Whether the classifier accepts `r`.
pub open spec fn eligible(r: FileRecord, token: Seq<char>, today: Seq<char>) -> bool {
    classification_of(r, token, today) == Classification::Eligible
}

/// Classifies `record` and, where it is eligible, hands out its date key.
pub fn classify_keyed(record: &FileRecord, search_token: &str, today: &str) -> (out: (
    Classification,
    Option<String>,
))
    ensures
        out.0 == classification_of(*record, search_token@, today@),
        match out.1 {
            Some(key) => out.0 == Classification::Eligible && key@ == key_of(*record),
            None => out.0 != Classification::Eligible,
        },
{
    if !record.is_file {
        return (Classification::Skipped(SkipReason::NotRegularFile), None);
    }
    if !contains_text(record.file_name.as_str(), search_token) {
        return (Classification::Skipped(SkipReason::TokenAbsent), None);
    }
    if !has_archivable_extension(record.file_name.as_str()) {
        return (Classification::Skipped(SkipReason::WrongExtension), None);
    }
    match &record.created {
        None => (Classification::Skipped(SkipReason::CreationTimeUnknown), None),
        Some(t) => match date_key(t) {
            None => (Classification::Skipped(SkipReason::DateUnrepresentable), None),
            Some(key) => if text_equals(key.as_str(), today) {
                (Classification::Skipped(SkipReason::CreatedToday), None)
            } else {
                (Classification::Eligible, Some(key))
            },
        },
    }
}

/// Classifies one scanned entry against the search token and the current
/// local date, given as a date key. Nothing is changed; an entry whose
/// creation time is unknown is skipped, never an error.
pub fn classify(record: &FileRecord, search_token: &str, today: &str) -> (verdict: Classification)
    ensures
        verdict == classification_of(*record, search_token@, today@),
{
    classify_keyed(record, search_token, today).0
}

} // verus!
