//! The cohort builder: eligible files grouped by the local calendar date
//! of their creation.

use crate::classify::archivable_extension;
use crate::classify::classify_keyed;
use crate::classify::eligible;
use crate::classify::key_of;
use crate::clock::ZonedInstant;
use crate::record::FileRecord;
use crate::text::extension_of;
use crate::text::is_substring;
use crate::text::text_equals;
use vstd::prelude::*;

verus! {

/// One file of a cohort: where it lies, the name it has there, and when
/// it was created.
#[derive(Clone, Debug, PartialEq, Eq)]
pub struct CohortMember {
    pub path: String,
    pub file_name: String,
    pub created: ZonedInstant,
}

/// The files of one scan that share a creation date, bound for one archive.
/// `parent_directory` is the directory of the first member and receives the
/// archive; `earliest_creation_time` is the earliest creation instant among
/// the members.
#[derive(Clone, Debug, PartialEq, Eq)]
pub struct Cohort {
    pub date_key: String,
    pub parent_directory: String,
    pub member_files: Vec<CohortMember>,
    pub earliest_creation_time: ZonedInstant,
}

/// A cohort member as plain values.
pub struct MemberView {
    pub path: Seq<char>,
    pub file_name: Seq<char>,
    pub created: ZonedInstant,
}

/// A cohort as plain values.
pub struct CohortView {
    pub date_key: Seq<char>,
    pub parent_directory: Seq<char>,
    pub members: Seq<MemberView>,
    pub earliest: ZonedInstant,
}

impl View for CohortMember {
    type V = MemberView;

    open spec fn view(&self) -> MemberView {
        MemberView { path: self.path@, file_name: self.file_name@, created: self.created }
    }
}

impl CohortView {
    /// The invariant of a cohort: it has a member, its earliest creation
    /// instant is that of one of its members, and no member was created
    /// before it.
    pub open spec fn wf(self) -> bool {
        &&& self.members.len() > 0
        &&& exists|w: int|
            0 <= w < self.members.len() && (#[trigger] self.members[w]).created == self.earliest
        &&& forall|m: int|
            0 <= m < self.members.len() ==> self.earliest.at.total_nanos() <= (
            #[trigger] self.members[m]).created.at.total_nanos()
    }
}

impl View for Cohort {
    type V = CohortView;

    open spec fn view(&self) -> CohortView {
        CohortView {
            date_key: self.date_key@,
            parent_directory: self.parent_directory@,
            members: Seq::new(self.member_files@.len(), |i: int| self.member_files@[i]@),
            earliest: self.earliest_creation_time,
        }
    }
}

/// The views of a sequence of cohorts.
pub open spec fn cohort_views(cohorts: Seq<Cohort>) -> Seq<CohortView> {
    Seq::new(cohorts.len(), |j: int| cohorts[j]@)
}

/// The member that stands for the record `r`.
pub open spec fn member_of(r: FileRecord) -> MemberView {
    MemberView { path: r.path@, file_name: r.file_name@, created: r.created.unwrap() }
}

/// Whether `r` belongs to the cohort of the date `key`.
pub open spec fn in_cohort(r: FileRecord, token: Seq<char>, today: Seq<char>, key: Seq<char>) -> bool {
    eligible(r, token, today) && key_of(r) == key
}

/// The records of the cohort of `key`, in scan order.
pub open spec fn cohort_records(
    records: Seq<FileRecord>,
    token: Seq<char>,
    today: Seq<char>,
    key: Seq<char>,
) -> Seq<FileRecord> {
    records.filter(|r: FileRecord| in_cohort(r, token, today, key))
}

/// The earliest creation instant among `members`; among equal instants
/// the one met first.
pub open spec fn earliest_created(members: Seq<FileRecord>) -> ZonedInstant
    decreases members.len(),
{
    if members.len() <= 1 {
        members[0].created.unwrap()
    } else {
        let before = earliest_created(members.drop_last());
        let last = members.last().created.unwrap();
        if last.at.total_nanos() < before.at.total_nanos() {
            last
        } else {
            before
        }
    }
}

/// The cohort of the date `key` among `records`.
pub open spec fn cohort_for(
    records: Seq<FileRecord>,
    token: Seq<char>,
    today: Seq<char>,
    key: Seq<char>,
) -> CohortView {
    let members = cohort_records(records, token, today, key);
    CohortView {
        date_key: key,
        parent_directory: members[0].parent_directory@,
        members: Seq::new(members.len(), |i: int| member_of(members[i])),
        earliest: earliest_created(members),
    }
}

/// The date keys of the eligible records, each once, in the order in which
/// the scan first met them.
pub open spec fn cohort_keys(records: Seq<FileRecord>, token: Seq<char>, today: Seq<char>) -> Seq<
    Seq<char>,
>
    decreases records.len(),
{
    if records.len() == 0 {
        Seq::empty()
    } else {
        let before = cohort_keys(records.drop_last(), token, today);
        let r = records.last();
        if eligible(r, token, today) && !before.contains(key_of(r)) {
            before.push(key_of(r))
        } else {
            before
        }
    }
}

/// The cohorts of a scan: one for each date key of an eligible record.
pub open spec fn cohorts_of(records: Seq<FileRecord>, token: Seq<char>, today: Seq<char>) -> Seq<
    CohortView,
> {
    let keys = cohort_keys(records, token, today);
    Seq::new(keys.len(), |j: int| cohort_for(records, token, today, keys[j]))
}

/// What one more record does to the cohorts built so far: nothing where it
/// is not eligible; else it joins the cohort of its date, or founds it.
pub open spec fn add_record(
    cohorts: Seq<CohortView>,
    r: FileRecord,
    token: Seq<char>,
    today: Seq<char>,
) -> Seq<CohortView> {
    if !eligible(r, token, today) {
        cohorts
    } else if exists|j: int| 0 <= j < cohorts.len() && cohorts[j].date_key == key_of(r) {
        let j = choose|j: int| 0 <= j < cohorts.len() && cohorts[j].date_key == key_of(r);
        cohorts.update(j, joined(cohorts[j], r))
    } else {
        cohorts.push(founded(r))
    }
}

/// The cohort `c` after `r` joined it.
pub open spec fn joined(c: CohortView, r: FileRecord) -> CohortView {
    let created = r.created.unwrap();
    CohortView {
        date_key: c.date_key,
        parent_directory: c.parent_directory,
        members: c.members.push(member_of(r)),
        earliest: if created.at.total_nanos() < c.earliest.at.total_nanos() {
            created
        } else {
            c.earliest
        },
    }
}

/// The cohort that `r` founds.
pub open spec fn founded(r: FileRecord) -> CohortView {
    CohortView {
        date_key: key_of(r),
        parent_directory: r.parent_directory@,
        members: seq![member_of(r)],
        earliest: r.created.unwrap(),
    }
}

/// How one more record changes the records of a cohort.
pub proof fn lemma_cohort_records_push(
    records: Seq<FileRecord>,
    r: FileRecord,
    token: Seq<char>,
    today: Seq<char>,
    key: Seq<char>,
)
    ensures
        cohort_records(records.push(r), token, today, key) == if in_cohort(r, token, today, key) {
            cohort_records(records, token, today, key).push(r)
        } else {
            cohort_records(records, token, today, key)
        },
{
    reveal(Seq::filter);
    assert(records.push(r).drop_last() =~= records);
}

/// How one more record changes the date keys.
pub proof fn lemma_cohort_keys_push(
    records: Seq<FileRecord>,
    r: FileRecord,
    token: Seq<char>,
    today: Seq<char>,
)
    ensures
        cohort_keys(records.push(r), token, today) == if eligible(r, token, today) && !cohort_keys(
            records,
            token,
            today,
        ).contains(key_of(r)) {
            cohort_keys(records, token, today).push(key_of(r))
        } else {
            cohort_keys(records, token, today)
        },
{
    assert(records.push(r).drop_last() =~= records);
}

/// A date key is listed exactly when some record belongs to its cohort.
pub proof fn lemma_keys_cover(
    records: Seq<FileRecord>,
    token: Seq<char>,
    today: Seq<char>,
    key: Seq<char>,
)
    ensures
        cohort_keys(records, token, today).contains(key) <==> cohort_records(
            records,
            token,
            today,
            key,
        ).len() > 0,
    decreases records.len(),
{
    if records.len() == 0 {
        reveal(Seq::filter);
    } else {
        let front = records.drop_last();
        let r = records.last();
        assert(front.push(r) =~= records);
        lemma_keys_cover(front, token, today, key);
        lemma_cohort_records_push(front, r, token, today, key);
        lemma_cohort_keys_push(front, r, token, today);
        let before = cohort_keys(front, token, today);
        if eligible(r, token, today) && !before.contains(key_of(r)) {
            let after = before.push(key_of(r));
            assert(after[after.len() - 1] == key_of(r));
            if before.contains(key) {
                let j = choose|j: int| 0 <= j < before.len() && before[j] == key;
                assert(after[j] == key);
            }
        }
    }
}

/// No date key is listed twice.
pub proof fn lemma_keys_distinct(records: Seq<FileRecord>, token: Seq<char>, today: Seq<char>)
    ensures
        cohort_keys(records, token, today).no_duplicates(),
    decreases records.len(),
{
    if records.len() > 0 {
        lemma_keys_distinct(records.drop_last(), token, today);
    }
}

/// The cohorts of a scan grow record by record.
pub proof fn lemma_cohorts_step(
    records: Seq<FileRecord>,
    r: FileRecord,
    token: Seq<char>,
    today: Seq<char>,
)
    ensures
        cohorts_of(records.push(r), token, today) == add_record(
            cohorts_of(records, token, today),
            r,
            token,
            today,
        ),
{
    let keys = cohort_keys(records, token, today);
    let old_cohorts = cohorts_of(records, token, today);
    let more = records.push(r);
    let new_cohorts = cohorts_of(more, token, today);
    lemma_cohort_keys_push(records, r, token, today);
    lemma_keys_distinct(records, token, today);
    assert forall|j: int| 0 <= j < keys.len() && !in_cohort(r, token, today, keys[j]) implies cohort_for(
        more,
        token,
        today,
        keys[j],
    ) == old_cohorts[j] by {
        lemma_cohort_records_push(records, r, token, today, keys[j]);
    }
    if !eligible(r, token, today) {
        assert(new_cohorts =~= old_cohorts);
    } else {
        let k = key_of(r);
        lemma_cohort_records_push(records, r, token, today, k);
        lemma_keys_cover(records, token, today, k);
        let members = cohort_records(records, token, today, k);
        if exists|j: int| 0 <= j < old_cohorts.len() && old_cohorts[j].date_key == k {
            let j = choose|j: int| 0 <= j < old_cohorts.len() && old_cohorts[j].date_key == k;
            assert(keys[j] == k);
            let grown = members.push(r);
            assert(grown.drop_last() =~= members);
            assert(grown[0] == members[0]);
            assert(cohort_for(more, token, today, k).members =~= joined(old_cohorts[j], r).members);
            assert(cohort_for(more, token, today, k) == joined(old_cohorts[j], r));
            assert(new_cohorts =~= old_cohorts.update(j, joined(old_cohorts[j], r)));
        } else {
            if keys.contains(k) {
                let j = choose|j: int| 0 <= j < keys.len() && keys[j] == k;
                assert(old_cohorts[j].date_key == k);
            }
            assert(members.len() == 0);
            assert(members.push(r) =~= seq![r]);
            assert(cohort_for(more, token, today, k).members =~= founded(r).members);
            assert(cohort_for(more, token, today, k) == founded(r));
            assert(new_cohorts =~= old_cohorts.push(founded(r)));
        }
    }
}

/// The records of a cohort are the records of the scan that belong to it.
pub proof fn lemma_cohort_records_members(
    records: Seq<FileRecord>,
    token: Seq<char>,
    today: Seq<char>,
    key: Seq<char>,
)
    ensures
        forall|m: int|
            0 <= m < cohort_records(records, token, today, key).len() ==> in_cohort(
                #[trigger] cohort_records(records, token, today, key)[m],
                token,
                today,
                key,
            ) && records.contains(cohort_records(records, token, today, key)[m]),
        forall|i: int|
            0 <= i < records.len() && in_cohort(records[i], token, today, key) ==> cohort_records(
                records,
                token,
                today,
                key,
            ).contains(#[trigger] records[i]),
    decreases records.len(),
{
    if records.len() == 0 {
        reveal(Seq::filter);
    } else {
        let front = records.drop_last();
        let r = records.last();
        assert(front.push(r) =~= records);
        lemma_cohort_records_members(front, token, today, key);
        lemma_cohort_records_push(front, r, token, today, key);
        let before = cohort_records(front, token, today, key);
        let after = cohort_records(records, token, today, key);
        assert forall|m: int| 0 <= m < after.len() implies in_cohort(
            #[trigger] after[m],
            token,
            today,
            key,
        ) && records.contains(after[m]) by {
            if m < before.len() {
                assert(after[m] == before[m]);
                let i = choose|i: int| 0 <= i < front.len() && front[i] == before[m];
                assert(records[i] == before[m]);
            } else {
                assert(records[records.len() - 1] == r);
            }
        }
        assert forall|i: int|
            0 <= i < records.len() && in_cohort(records[i], token, today, key) implies after.contains(
            #[trigger] records[i],
        ) by {
            if i < front.len() {
                assert(front[i] == records[i]);
                let m = choose|m: int| 0 <= m < before.len() && before[m] == front[i];
                assert(after[m] == records[i]);
            } else {
                assert(after[after.len() - 1] == r);
            }
        }
    }
}

/// The earliest creation instant of a cohort is that of one of its
/// members, and no member was created before it.
pub proof fn law_earliest_is_least(members: Seq<FileRecord>, i: int)
    requires
        0 <= i < members.len(),
    ensures
        earliest_created(members).at.total_nanos() <= members[i].created.unwrap().at.total_nanos(),
        exists|w: int|
            0 <= w < members.len() && (#[trigger] members[w]).created.unwrap() == earliest_created(
                members,
            ),
    decreases members.len(),
{
    if members.len() <= 1 {
        assert(members[0].created.unwrap() == earliest_created(members));
    } else {
        let front = members.drop_last();
        law_earliest_is_least(front, 0);
        if i < front.len() {
            law_earliest_is_least(front, i);
        }
        let w = choose|w: int|
            0 <= w < front.len() && (#[trigger] front[w]).created.unwrap() == earliest_created(
                front,
            );
        assert(members[w] == front[w]);
        assert(members[members.len() - 1] == members.last());
    }
}

/// Every cohort of a scan keeps the cohort invariant.
pub proof fn law_cohorts_well_formed(
    records: Seq<FileRecord>,
    token: Seq<char>,
    today: Seq<char>,
    j: int,
)
    requires
        0 <= j < cohorts_of(records, token, today).len(),
    ensures
        cohorts_of(records, token, today)[j].wf(),
{
    let cohort = cohorts_of(records, token, today)[j];
    let key = cohort.date_key;
    let members = cohort_records(records, token, today, key);
    lemma_keys_cover(records, token, today, key);
    assert(cohort_keys(records, token, today)[j] == key);
    law_earliest_is_least(members, 0);
    let w = choose|w: int|
        0 <= w < members.len() && (#[trigger] members[w]).created.unwrap() == earliest_created(
            members,
        );
    assert(cohort.members[w].created == cohort.earliest);
    assert forall|m: int| 0 <= m < cohort.members.len() implies cohort.earliest.at.total_nanos() <= (
    #[trigger] cohort.members[m]).created.at.total_nanos() by {
        law_earliest_is_least(members, m);
    }
}

/// Every member of every cohort stands for an eligible record of the scan:
/// a regular file whose name contains the token, whose extension is `log`
/// or `txt`, and whose creation date is the cohort's and is not today. So
/// a file with any other extension, or one created today, is in no cohort.
pub proof fn law_members_qualify(
    records: Seq<FileRecord>,
    token: Seq<char>,
    today: Seq<char>,
    j: int,
    m: int,
)
    requires
        0 <= j < cohorts_of(records, token, today).len(),
        0 <= m < cohorts_of(records, token, today)[j].members.len(),
    ensures
        exists|i: int|
            0 <= i < records.len() && in_cohort(
                #[trigger] records[i],
                token,
                today,
                cohorts_of(records, token, today)[j].date_key,
            ) && member_of(records[i]) == cohorts_of(records, token, today)[j].members[m],
        is_substring(token, cohorts_of(records, token, today)[j].members[m].file_name),
        archivable_extension(
            extension_of(cohorts_of(records, token, today)[j].members[m].file_name),
        ),
        cohorts_of(records, token, today)[j].date_key != today,
{
    let key = cohorts_of(records, token, today)[j].date_key;
    let members = cohort_records(records, token, today, key);
    lemma_cohort_records_members(records, token, today, key);
    let r = members[m];
    assert(in_cohort(r, token, today, key));
    let i = choose|i: int| 0 <= i < records.len() && records[i] == r;
    assert(in_cohort(records[i], token, today, key));
}

/// Every eligible record of the scan is a member of the one cohort of its
/// creation date.
pub proof fn law_eligible_record_has_its_cohort(
    records: Seq<FileRecord>,
    token: Seq<char>,
    today: Seq<char>,
    i: int,
)
    requires
        0 <= i < records.len(),
        eligible(records[i], token, today),
    ensures
        exists|j: int|
            0 <= j < cohorts_of(records, token, today).len() && (#[trigger] cohorts_of(
                records,
                token,
                today,
            )[j]).date_key == key_of(records[i]) && cohort_records(
                records,
                token,
                today,
                key_of(records[i]),
            ).contains(records[i]),
        forall|a: int, b: int|
            0 <= a < b < cohorts_of(records, token, today).len() ==> (#[trigger] cohorts_of(
                records,
                token,
                today,
            )[a]).date_key != (#[trigger] cohorts_of(records, token, today)[b]).date_key,
{
    let key = key_of(records[i]);
    let keys = cohort_keys(records, token, today);
    lemma_cohort_records_members(records, token, today, key);
    lemma_keys_cover(records, token, today, key);
    lemma_keys_distinct(records, token, today);
    let j = choose|j: int| 0 <= j < keys.len() && keys[j] == key;
    assert(cohorts_of(records, token, today)[j].date_key == key);
}

/// A record that the classifier skips is in no cohort.
pub proof fn law_skipped_record_in_no_cohort(
    records: Seq<FileRecord>,
    token: Seq<char>,
    today: Seq<char>,
    r: FileRecord,
    key: Seq<char>,
)
    requires
        !eligible(r, token, today),
    ensures
        !cohort_records(records, token, today, key).contains(r),
{
    lemma_cohort_records_members(records, token, today, key);
}

/// The number of eligible records among `records`.
pub open spec fn eligible_count(records: Seq<FileRecord>, token: Seq<char>, today: Seq<char>) -> nat
    decreases records.len(),
{
    if records.len() == 0 {
        0
    } else {
        eligible_count(records.drop_last(), token, today) + if eligible(
            records.last(),
            token,
            today,
        ) {
            1nat
        } else {
            0nat
        }
    }
}

/// The number of members of all `cohorts` together.
pub open spec fn member_count(cohorts: Seq<CohortView>) -> nat
    decreases cohorts.len(),
{
    if cohorts.len() == 0 {
        0
    } else {
        member_count(cohorts.drop_last()) + cohorts.last().members.len()
    }
}

proof fn lemma_member_count_update(cohorts: Seq<CohortView>, j: int, c: CohortView)
    requires
        0 <= j < cohorts.len(),
    ensures
        member_count(cohorts.update(j, c)) + cohorts[j].members.len() == member_count(cohorts)
            + c.members.len(),
    decreases cohorts.len(),
{
    let changed = cohorts.update(j, c);
    if j == cohorts.len() - 1 {
        assert(changed.drop_last() =~= cohorts.drop_last());
    } else {
        lemma_member_count_update(cohorts.drop_last(), j, c);
        assert(changed.drop_last() =~= cohorts.drop_last().update(j, c));
    }
}

/// The cohorts partition the eligible records: together they have as many
/// members as the scan has eligible records, so none is left out and none
/// is counted twice.
pub proof fn law_cohorts_partition(records: Seq<FileRecord>, token: Seq<char>, today: Seq<char>)
    ensures
        member_count(cohorts_of(records, token, today)) == eligible_count(records, token, today),
    decreases records.len(),
{
    if records.len() == 0 {
        assert(cohorts_of(records, token, today) =~= Seq::empty());
    } else {
        let front = records.drop_last();
        let r = records.last();
        assert(front.push(r) =~= records);
        law_cohorts_partition(front, token, today);
        lemma_cohorts_step(front, r, token, today);
        let before = cohorts_of(front, token, today);
        if eligible(r, token, today) {
            if exists|j: int| 0 <= j < before.len() && before[j].date_key == key_of(r) {
                let j = choose|j: int| 0 <= j < before.len() && before[j].date_key == key_of(r);
                lemma_member_count_update(before, j, joined(before[j], r));
            } else {
                assert(before.push(founded(r)).drop_last() =~= before);
            }
        }
    }
}

/// A scan leaves nothing to archive exactly when none of its records is
/// eligible. So a second pass over a directory whose eligible files the
/// first pass has consumed plans no archive.
pub proof fn law_nothing_eligible_nothing_planned(
    records: Seq<FileRecord>,
    token: Seq<char>,
    today: Seq<char>,
)
    ensures
        cohorts_of(records, token, today).len() == 0 <==> forall|i: int|
            0 <= i < records.len() ==> !eligible(#[trigger] records[i], token, today),
    decreases records.len(),
{
    if records.len() > 0 {
        let front = records.drop_last();
        let r = records.last();
        assert(front.push(r) =~= records);
        law_nothing_eligible_nothing_planned(front, token, today);
        lemma_cohort_keys_push(front, r, token, today);
        if cohorts_of(records, token, today).len() == 0 {
            assert forall|i: int| 0 <= i < records.len() implies !eligible(
                #[trigger] records[i],
                token,
                today,
            ) by {
                if i < front.len() {
                    assert(front[i] == records[i]);
                }
            }
        } else {
            if eligible(r, token, today) {
                assert(records[records.len() - 1] == r);
            } else {
                let i = choose|i: int| 0 <= i < front.len() && eligible(front[i], token, today);
                assert(records[i] == front[i]);
            }
        }
    }
}

proof fn lemma_cohort_records_count(
    records: Seq<FileRecord>,
    token: Seq<char>,
    today: Seq<char>,
    key: Seq<char>,
    x: FileRecord,
)
    ensures
        cohort_records(records, token, today, key).to_multiset().count(x) == if in_cohort(
            x,
            token,
            today,
            key,
        ) {
            records.to_multiset().count(x)
        } else {
            0
        },
    decreases records.len(),
{
    if records.len() == 0 {
        reveal(Seq::filter);
        records.to_multiset_ensures();
        cohort_records(records, token, today, key).to_multiset_ensures();
    } else {
        let front = records.drop_last();
        let r = records.last();
        assert(front.push(r) =~= records);
        lemma_cohort_records_count(front, token, today, key, x);
        lemma_cohort_records_push(front, r, token, today, key);
        vstd::seq_lib::to_multiset_build(front, r);
        vstd::seq_lib::to_multiset_build(cohort_records(front, token, today, key), r);
    }
}

/// The order of the scan does not matter to the cohorts. Two scans that
/// hold the same records, in whatever order, have the same date keys; the
/// cohort of each key has the same records in both, and the same earliest
/// creation instant.
pub proof fn law_scan_order_is_immaterial(
    a: Seq<FileRecord>,
    b: Seq<FileRecord>,
    token: Seq<char>,
    today: Seq<char>,
    key: Seq<char>,
)
    requires
        a.to_multiset() == b.to_multiset(),
    ensures
        cohort_keys(a, token, today).contains(key) <==> cohort_keys(b, token, today).contains(key),
        cohort_records(a, token, today, key).to_multiset() == cohort_records(
            b,
            token,
            today,
            key,
        ).to_multiset(),
        cohort_keys(a, token, today).contains(key) ==> earliest_created(
            cohort_records(a, token, today, key),
        ).at.total_nanos() == earliest_created(
            cohort_records(b, token, today, key),
        ).at.total_nanos(),
{
    let ma = cohort_records(a, token, today, key);
    let mb = cohort_records(b, token, today, key);
    assert forall|x: FileRecord| ma.to_multiset().count(x) == mb.to_multiset().count(x) by {
        lemma_cohort_records_count(a, token, today, key, x);
        lemma_cohort_records_count(b, token, today, key, x);
    }
    assert(ma.to_multiset() =~= mb.to_multiset());
    ma.to_multiset_ensures();
    mb.to_multiset_ensures();
    lemma_keys_cover(a, token, today, key);
    lemma_keys_cover(b, token, today, key);
    if ma.len() > 0 {
        law_earliest_is_least(ma, 0);
        law_earliest_is_least(mb, 0);
        let wa = choose|w: int|
            0 <= w < ma.len() && (#[trigger] ma[w]).created.unwrap() == earliest_created(ma);
        let wb = choose|w: int|
            0 <= w < mb.len() && (#[trigger] mb[w]).created.unwrap() == earliest_created(mb);
        assert(ma.contains(ma[wa]));
        assert(mb.contains(mb[wb]));
        assert(mb.to_multiset().count(ma[wa]) > 0);
        assert(ma.to_multiset().count(mb[wb]) > 0);
        let ia = choose|i: int| 0 <= i < mb.len() && mb[i] == ma[wa];
        let ib = choose|i: int| 0 <= i < ma.len() && ma[i] == mb[wb];
        law_earliest_is_least(mb, ia);
        law_earliest_is_least(ma, ib);
    }
}

fn find_cohort(cohorts: &Vec<Cohort>, key: &str) -> (found: Option<usize>)
    ensures
        match found {
            Some(j) => j < cohorts.len() && cohorts[j as int].date_key@ == key@,
            None => forall|j: int| 0 <= j < cohorts.len() ==> cohorts[j].date_key@ != key@,
        },
{
    let mut j: usize = 0;
    while j < cohorts.len()
        invariant
            j <= cohorts.len(),
            forall|k: int| 0 <= k < j ==> cohorts[k].date_key@ != key@,
        decreases cohorts.len() - j,
    {
        if text_equals(cohorts[j].date_key.as_str(), key) {
            return Some(j);
        }
        j += 1;
    }
    None
}

/// Groups the eligible entries of a scan into cohorts, one for each local
/// calendar date of creation, in the order in which the scan first met the
/// dates. `today` is the date key of the current local date: files created
/// today stay out.
pub fn build_cohorts(records: &Vec<FileRecord>, search_token: &str, today: &str) -> (cohorts: Vec<
    Cohort,
>)
    ensures
        cohort_views(cohorts@) == cohorts_of(records@, search_token@, today@),
        forall|j: int| 0 <= j < cohorts.len() ==> (#[trigger] cohorts[j])@.wf(),
{
    let mut cohorts: Vec<Cohort> = Vec::new();
    let mut i: usize = 0;
    assert(cohort_views(cohorts@) =~= cohorts_of(records@.take(0), search_token@, today@));
    while i < records.len()
        invariant
            i <= records.len(),
            cohort_views(cohorts@) == cohorts_of(records@.take(i as int), search_token@, today@),
        decreases records.len() - i,
    {
        let r = &records[i];
        let ghost seen = records@.take(i as int);
        let ghost before = cohort_views(cohorts@);
        proof {
            assert(records@.take(i + 1) =~= seen.push(*r));
            lemma_cohorts_step(seen, *r, search_token@, today@);
        }
        let (_, key) = classify_keyed(r, search_token, today);
        match key {
            None => {},
            Some(key) => {
                let created = r.created.unwrap();
                let member = CohortMember {
                    path: r.path.clone(),
                    file_name: r.file_name.clone(),
                    created,
                };
                match find_cohort(&cohorts, key.as_str()) {
                    Some(j) => {
                        let mut cohort = cohorts.remove(j);
                        let ghost joining = cohort@;
                        cohort.member_files.push(member);
                        if created.at.is_before(&cohort.earliest_creation_time.at) {
                            cohort.earliest_creation_time = created;
                        }
                        proof {
                            assert(before[j as int] == joining);
                            assert(cohort@.members =~= joined(joining, *r).members);
                            assert(cohort@ == joined(joining, *r));
                        }
                        cohorts.insert(j, cohort);
                        proof {
                            let w = choose|w: int|
                                0 <= w < before.len() && before[w].date_key == key_of(*r);
                            lemma_keys_distinct(seen, search_token@, today@);
                            assert(cohort_keys(seen, search_token@, today@)[j as int] == key_of(
                                *r,
                            ));
                            assert(w == j);
                            assert(cohort_views(cohorts@) =~= before.update(
                                j as int,
                                joined(joining, *r),
                            ));
                        }
                    },
                    None => {
                        let mut members: Vec<CohortMember> = Vec::new();
                        members.push(member);
                        let cohort = Cohort {
                            date_key: key,
                            parent_directory: r.parent_directory.clone(),
                            member_files: members,
                            earliest_creation_time: created,
                        };
                        proof {
                            assert(cohort@.members =~= founded(*r).members);
                            assert(cohort@ == founded(*r));
                        }
                        cohorts.push(cohort);
                        proof {
                            assert(cohort_views(cohorts@) =~= before.push(founded(*r)));
                        }
                    },
                }
            },
        }
        i += 1;
    }
    assert(records@.take(i as int) =~= records@);
    assert forall|j: int| 0 <= j < cohorts.len() implies (#[trigger] cohorts[j])@.wf() by {
        law_cohorts_well_formed(records@, search_token@, today@, j);
        assert(cohort_views(cohorts@)[j] == cohorts[j]@);
    }
    cohorts
}

} // verus!
