//! The relocator: which files move to the secondary location, and the
//! status record of the move.

use crate::classify::has_managed_extension;
use crate::classify::managed_extension;
use crate::clock::date_key;
use crate::clock::date_key_of;
use crate::record::FileRecord;
use crate::text::contains_text;
use crate::text::extension_of;
use crate::text::is_substring;
use crate::text::text_equals;
use vstd::prelude::*;
use vstd::string::StringExecFns;

verus! {

/// The status record of a relocation: the name of the file, in the source
/// directory, and its one line of text.
#[derive(Clone, Debug, PartialEq, Eq)]
pub struct StatusFile {
    pub file_name: String,
    pub content: String,
}

/// One file to move: where it lies, and the name it keeps in the
/// destination directory.
#[derive(Clone, Debug, PartialEq, Eq)]
pub struct Relocation {
    pub source: String,
    pub file_name: String,
}

/// A relocation pass: the status record to write first, the destination
/// directory, and the files to move there, in scan order.
#[derive(Clone, Debug, PartialEq, Eq)]
pub struct RelocationPlan {
    pub status: StatusFile,
    pub destination: String,
    pub moves: Vec<Relocation>,
}

/// A relocation as plain text.
pub struct RelocationView {
    pub source: Seq<char>,
    pub file_name: Seq<char>,
}

impl View for Relocation {
    type V = RelocationView;

    open spec fn view(&self) -> RelocationView {
        RelocationView { source: self.source@, file_name: self.file_name@ }
    }
}

/// The name of the status record of the token `token`:
/// `{token} files have been moved.status`.
pub open spec fn status_file_name(token: Seq<char>) -> Seq<char> {
    token + " files have been moved.status"@
}

/// The line of the status record: the pattern of the files moved, the
/// date before which they were created, and where they went.
pub open spec fn status_content(
    source_dir: Seq<char>,
    token: Seq<char>,
    dest_dir: Seq<char>,
    today: Seq<char>,
) -> Seq<char> {
    "'"@ + source_dir + "\\*"@ + token + "*.[log|txt|zip]' files older than "@ + today
        + " were moved to '"@ + dest_dir + "'"@
}

/// Whether the relocation moves `r`: a regular file with a managed
/// extension, whose creation date is known and is not `today`, and whose
/// name contains `token`.
pub open spec fn movable(r: FileRecord, token: Seq<char>, today: Seq<char>) -> bool {
    &&& r.is_file
    &&& managed_extension(extension_of(r.file_name@))
    &&& r.created matches Some(created)
    &&& date_key_of(created) matches Some(key)
    &&& key != today
    &&& is_substring(token, r.file_name@)
}

/// The records that the relocation moves, in scan order.
pub open spec fn moved(records: Seq<FileRecord>, token: Seq<char>, today: Seq<char>) -> Seq<
    FileRecord,
> {
    records.filter(|r: FileRecord| movable(r, token, today))
}

/// The relocations of a sequence of records.
pub open spec fn relocations_of(records: Seq<FileRecord>) -> Seq<RelocationView> {
    Seq::new(
        records.len(),
        |i: int| RelocationView { source: records[i].path@, file_name: records[i].file_name@ },
    )
}

/// The views of a sequence of relocations.
pub open spec fn relocation_views(moves: Seq<Relocation>) -> Seq<RelocationView> {
    Seq::new(moves.len(), |i: int| moves[i]@)
}

/// How one more record changes the relocation.
pub proof fn lemma_moved_push(
    records: Seq<FileRecord>,
    r: FileRecord,
    token: Seq<char>,
    today: Seq<char>,
)
    ensures
        moved(records.push(r), token, today) == if movable(r, token, today) {
            moved(records, token, today).push(r)
        } else {
            moved(records, token, today)
        },
{
    reveal(Seq::filter);
    assert(records.push(r).drop_last() =~= records);
}

/// Composes the status record of a relocation from `source_dir` to
/// `dest_dir` of the files that carry `filename_contains`; `today` is the
/// date key of the current local date. The caller writes it into
/// `source_dir`, in place of any earlier record of that name.
pub fn create_status_file(source_dir: &str, filename_contains: &str, dest_dir: &str, today: &str) -> (status:
    StatusFile)
    ensures
        status.file_name@ == status_file_name(filename_contains@),
        status.content@ == status_content(source_dir@, filename_contains@, dest_dir@, today@),
{
    let mut file_name = String::from_str(filename_contains);
    file_name.append(" files have been moved.status");
    let mut content = String::from_str("'");
    content.append(source_dir);
    content.append("\\*");
    content.append(filename_contains);
    content.append("*.[log|txt|zip]' files older than ");
    content.append(today);
    content.append(" were moved to '");
    content.append(dest_dir);
    content.append("'");
    StatusFile { file_name, content }
}

/// Whether the relocation moves `record`.
pub fn is_movable(record: &FileRecord, filename_contains: &str, today: &str) -> (yes: bool)
    ensures
        yes == movable(*record, filename_contains@, today@),
{
    if !record.is_file {
        return false;
    }
    if !has_managed_extension(record.file_name.as_str()) {
        return false;
    }
    match &record.created {
        None => false,
        Some(created) => match date_key(created) {
            None => false,
            Some(key) => !text_equals(key.as_str(), today) && contains_text(
                record.file_name.as_str(),
                filename_contains,
            ),
        },
    }
}

/// Plans the relocation of a scanned directory: the status record, and
/// every file that carries `filename_contains`, has a managed extension
/// and was not created today, to be moved into `dest_dir` under its own
/// name. The caller writes the record, then moves the files one by one; a
/// move that fails does not keep the others from being tried.
pub fn move_files_except_today(
    records: &Vec<FileRecord>,
    source_dir: &str,
    dest_dir: &str,
    filename_contains: &str,
    today: &str,
) -> (plan: RelocationPlan)
    ensures
        plan.status.file_name@ == status_file_name(filename_contains@),
        plan.status.content@ == status_content(source_dir@, filename_contains@, dest_dir@, today@),
        plan.destination@ == dest_dir@,
        relocation_views(plan.moves@) == relocations_of(
            moved(records@, filename_contains@, today@),
        ),
{
    let status = create_status_file(source_dir, filename_contains, dest_dir, today);
    let mut moves: Vec<Relocation> = Vec::new();
    let mut i: usize = 0;
    proof {
        reveal(Seq::filter);
        assert(relocation_views(moves@) =~= relocations_of(
            moved(records@.take(0), filename_contains@, today@),
        ));
    }
    while i < records.len()
        invariant
            i <= records.len(),
            relocation_views(moves@) == relocations_of(
                moved(records@.take(i as int), filename_contains@, today@),
            ),
        decreases records.len() - i,
    {
        let record = &records[i];
        proof {
            assert(records@.take(i + 1) =~= records@.take(i as int).push(*record));
            lemma_moved_push(records@.take(i as int), *record, filename_contains@, today@);
        }
        let ghost before = relocation_views(moves@);
        if is_movable(record, filename_contains, today) {
            let relocation = Relocation {
                source: record.path.clone(),
                file_name: record.file_name.clone(),
            };
            moves.push(relocation);
            assert(relocation_views(moves@) =~= before.push(relocation@));
            assert(relocation_views(moves@) =~= relocations_of(
                moved(records@.take(i + 1), filename_contains@, today@),
            ));
        }
        i += 1;
    }
    assert(records@.take(i as int) =~= records@);
    RelocationPlan { status, destination: String::from_str(dest_dir), moves }
}

} // verus!
