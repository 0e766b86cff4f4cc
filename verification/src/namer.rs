//! The archive namer: numbered file names that collide with nothing a
//! directory already holds.

use crate::classify::ext_log;
use crate::classify::ext_zip;
use crate::text::decimal;
use crate::text::extension_of;
use crate::text::last_index_of;
use crate::text::lemma_decimal_len;
use crate::text::decimal_text;
use crate::text::lemma_decimal_injective;
use crate::text::text_equals;
use crate::text::texts_of;
use vstd::prelude::*;
use vstd::string::StringExecFns;

verus! {

/// Where a new file is to be created: the directory and the name in it.
#[derive(Clone, Debug, PartialEq, Eq)]
pub struct ArchivePath {
    pub directory: String,
    pub file_name: String,
}

/// An archive path as plain text.
pub struct PathView {
    pub directory: Seq<char>,
    pub file_name: Seq<char>,
}

impl View for ArchivePath {
    type V = PathView;

    open spec fn view(&self) -> PathView {
        PathView { directory: self.directory@, file_name: self.file_name@ }
    }
}

impl ArchivePath {
    /// A copy of this path.
    pub fn duplicate(&self) -> (copy: ArchivePath)
        ensures
            copy@ == self@,
    {
        ArchivePath { directory: self.directory.clone(), file_name: self.file_name.clone() }
    }
}

/// The numbered name `{date}_{label}-{n}.{ext}`.
pub open spec fn numbered_name(date: Seq<char>, label: Seq<char>, n: nat, ext: Seq<char>) -> Seq<
    char,
> {
    date + seq!['_'] + label + seq!['-'] + decimal(n) + seq!['.'] + ext
}

/// The archive name `{date}_{token}-{n}.zip`.
pub open spec fn archive_name(date: Seq<char>, token: Seq<char>, n: nat) -> Seq<char> {
    numbered_name(date, token, n, ext_zip())
}

/// Whether `n` is the smallest positive number whose numbered name is not
/// among `existing`.
pub open spec fn is_first_free(
    date: Seq<char>,
    label: Seq<char>,
    ext: Seq<char>,
    existing: Seq<Seq<char>>,
    n: nat,
) -> bool {
    &&& n >= 1
    &&& !existing.contains(numbered_name(date, label, n, ext))
    &&& forall|j: nat| 1 <= j < n ==> existing.contains(#[trigger] numbered_name(date, label, j, ext))
}

/// Different numbers give different numbered names.
pub proof fn lemma_numbered_name_injective(
    date: Seq<char>,
    label: Seq<char>,
    ext: Seq<char>,
    a: nat,
    b: nat,
)
    requires
        numbered_name(date, label, a, ext) == numbered_name(date, label, b, ext),
    ensures
        a == b,
{
    let head = date + seq!['_'] + label + seq!['-'];
    let na = numbered_name(date, label, a, ext);
    let nb = numbered_name(date, label, b, ext);
    assert(na.len() == nb.len());
    assert forall|i: int| 0 <= i < decimal(a).len() implies decimal(a)[i] == decimal(b)[i] by {
        assert(na[head.len() + i] == decimal(a)[i]);
        assert(nb[head.len() + i] == decimal(b)[i]);
    }
    assert(decimal(a) =~= decimal(b));
    lemma_decimal_injective(a, b);
}

/// A listing that holds the numbered names of 1 to `n` has at least `n`
/// entries.
pub proof fn lemma_taken_names_bound(
    date: Seq<char>,
    label: Seq<char>,
    ext: Seq<char>,
    existing: Seq<Seq<char>>,
    n: nat,
)
    requires
        forall|j: nat| 1 <= j <= n ==> existing.contains(#[trigger] numbered_name(date, label, j, ext)),
    ensures
        n <= existing.len(),
    decreases n,
{
    if n >= 1 {
        let last = numbered_name(date, label, n, ext);
        let at = choose|at: int| 0 <= at < existing.len() && existing[at] == last;
        let rest = existing.remove(at);
        assert forall|j: nat| 1 <= j <= (n - 1) as nat implies rest.contains(
            #[trigger] numbered_name(date, label, j, ext),
        ) by {
            let name = numbered_name(date, label, j, ext);
            let q = choose|q: int| 0 <= q < existing.len() && existing[q] == name;
            if q == at {
                lemma_numbered_name_injective(date, label, ext, j, n);
            }
            if q < at {
                assert(rest[q] == name);
            } else {
                assert(rest[q - 1] == name);
            }
        }
        lemma_taken_names_bound(date, label, ext, rest, (n - 1) as nat);
    }
}

/// The first free number is unique, so the namer's contract leaves one
/// name only. In particular, against a listing that holds the names of 1
/// to `k - 1` and not that of `k`, the namer yields the name of `k`.
pub proof fn law_first_free_is_unique(
    date: Seq<char>,
    label: Seq<char>,
    ext: Seq<char>,
    existing: Seq<Seq<char>>,
    a: nat,
    b: nat,
)
    requires
        is_first_free(date, label, ext, existing, a),
        is_first_free(date, label, ext, existing, b),
    ensures
        a == b,
{
}

/// The extension of an archive name is `zip`.
pub proof fn lemma_archive_name_extension(date: Seq<char>, token: Seq<char>, n: nat)
    ensures
        extension_of(archive_name(date, token, n)) == Some(ext_zip()),
{
    let name = archive_name(date, token, n);
    let len = name.len() as int;
    lemma_decimal_len(n);
    reveal_with_fuel(last_index_of, 4);
    assert(last_index_of(name, '.') == len - 4);
}

/// Whether `listing` holds the name `name`.
pub fn name_taken(listing: &Vec<String>, name: &str) -> (taken: bool)
    ensures
        taken == texts_of(listing@).contains(name@),
{
    let mut i: usize = 0;
    while i < listing.len()
        invariant
            i <= listing.len(),
            forall|k: int| 0 <= k < i ==> texts_of(listing@)[k] != name@,
        decreases listing.len() - i,
    {
        if text_equals(listing[i].as_str(), name) {
            assert(texts_of(listing@)[i as int] == name@);
            return true;
        }
        i += 1;
    }
    false
}

/// Writes the numbered name `{date}_{label}-{n}.{ext}`.
pub fn numbered_file_name(date: &str, label: &str, n: u128, ext: &str) -> (name: String)
    ensures
        name@ == numbered_name(date@, label@, n as nat, ext@),
{
    proof {
        reveal_strlit("_");
        reveal_strlit("-");
        reveal_strlit(".");
    }
    let mut name = String::from_str(date);
    name.append("_");
    name.append(label);
    name.append("-");
    let numeral = decimal_text(n);
    name.append(numeral.as_str());
    name.append(".");
    name.append(ext);
    name
}

/// The first free numbered name: starting at 1, the names
/// `{date}_{label}-{n}.{ext}` are tried in turn against `existing`, the
/// names that the directory holds, and the first that is not among them is
/// returned.
pub fn next_free_name(date: &str, label: &str, ext: &str, existing: &Vec<String>) -> (name: String)
    ensures
        exists|n: nat|
            is_first_free(date@, label@, ext@, texts_of(existing@), n) && name@ == numbered_name(
                date@,
                label@,
                n,
                ext@,
            ),
{
    let mut n: u128 = 1;
    loop
        invariant
            1 <= n <= existing.len() + 1,
            forall|j: nat|
                1 <= j < n ==> texts_of(existing@).contains(
                    #[trigger] numbered_name(date@, label@, j, ext@),
                ),
        decreases existing.len() + 1 - n,
    {
        let candidate = numbered_file_name(date, label, n, ext);
        if !name_taken(existing, candidate.as_str()) {
            return candidate;
        }
        proof {
            lemma_taken_names_bound(date@, label@, ext@, texts_of(existing@), n as nat);
        }
        n += 1;
    }
}

/// Names the next archive of the cohort of `date` in the directory
/// `basepath`: `{date}_{search_string}-{N}.zip`, with N the smallest
/// positive number whose name is not among `existing`, the names that
/// `basepath` holds now.
pub fn get_new_zip_path(date: &str, basepath: &str, search_string: &str, existing: &Vec<String>) -> (path:
    ArchivePath)
    ensures
        path.directory@ == basepath@,
        exists|n: nat|
            is_first_free(date@, search_string@, ext_zip(), texts_of(existing@), n)
                && path.file_name@ == archive_name(date@, search_string@, n),
{
    proof {
        reveal_strlit("zip");
        assert("zip"@ =~= ext_zip());
    }
    let file_name = next_free_name(date, search_string, "zip", existing);
    proof {
        let n = choose|n: nat|
            is_first_free(date@, search_string@, ext_zip(), texts_of(existing@), n) && file_name@
                == numbered_name(date@, search_string@, n, ext_zip());
        assert(file_name@ == archive_name(date@, search_string@, n));
    }
    ArchivePath { directory: String::from_str(basepath), file_name }
}

/// Names the next log file of a run in the directory `basepath`:
/// `{date}_{log_name}-{N}.log`, with N the smallest positive number whose
/// name is not among `existing`.
pub fn get_new_log_path(date: &str, basepath: &str, log_name: &str, existing: &Vec<String>) -> (path:
    ArchivePath)
    ensures
        path.directory@ == basepath@,
        exists|n: nat|
            is_first_free(date@, log_name@, ext_log(), texts_of(existing@), n)
                && path.file_name@ == numbered_name(date@, log_name@, n, ext_log()),
{
    proof {
        reveal_strlit("log");
        assert("log"@ =~= ext_log());
    }
    let file_name = next_free_name(date, log_name, "log", existing);
    ArchivePath { directory: String::from_str(basepath), file_name }
}

} // verus!
