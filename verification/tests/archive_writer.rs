use log_rc::group_and_compress_files;
use log_rc::ArchiveAction;
use log_rc::ArchiveError;
use log_rc::ArchiveJob;
use log_rc::ArchivePath;
use log_rc::ArchivePhase;
use log_rc::Cohort;
use log_rc::CohortMember;
use log_rc::FileRecord;
use log_rc::Timestamp;
use log_rc::ZonedInstant;

const JAN_1: i64 = 1_704_067_200;
const JAN_2: i64 = 1_704_153_600;
const JAN_3: i64 = 1_704_240_000;

fn file(name: &str, created_secs: i64) -> FileRecord {
    FileRecord {
        path: format!("/logs/{}", name),
        parent_directory: String::from("/logs"),
        file_name: String::from(name),
        is_file: true,
        created: Some(ZonedInstant { at: Timestamp { secs: created_secs, nanos: 0 }, offset_secs: 0 }),
        modified: Some(Timestamp { secs: created_secs, nanos: 0 }),
    }
}

fn cohort_of(names: &[&str], earliest_secs: i64) -> Cohort {
    let mut members = Vec::new();
    for n in names {
        members.push(CohortMember {
            path: format!("/logs/{}", n),
            file_name: String::from(*n),
            created: ZonedInstant { at: Timestamp { secs: earliest_secs, nanos: 123 }, offset_secs: 3600 },
        });
    }
    Cohort {
        date_key: String::from("2024-01-01"),
        parent_directory: String::from("/logs"),
        member_files: members,
        earliest_creation_time: ZonedInstant {
            at: Timestamp { secs: earliest_secs, nanos: 123 },
            offset_secs: 3600,
        },
    }
}

fn archive(name: &str) -> ArchivePath {
    ArchivePath { directory: String::from("/logs"), file_name: String::from(name) }
}

fn begun(names: &[&str], earliest_secs: i64) -> ArchiveJob {
    let job = ArchiveJob::new(cohort_of(names, earliest_secs), "app");
    job.begin(&Vec::new()).0
}

fn drive(job: ArchiveJob, outcomes: &[bool]) -> (ArchiveJob, Vec<ArchiveAction>) {
    let mut job = job;
    let mut actions = Vec::new();
    for ok in outcomes {
        let (next, action) = job.advance(*ok);
        job = next;
        actions.push(action);
    }
    (job, actions)
}

fn asks_for_a_source(actions: &[ArchiveAction]) -> bool {
    for a in actions {
        if matches!(a, ArchiveAction::RemoveSource { .. }) {
            return true;
        }
    }
    false
}

#[test]
fn new_job_is_pending_and_asks_for_the_listing() {
    let job = ArchiveJob::new(cohort_of(&["app-a.log"], JAN_1), "app");
    assert_eq!(job.phase(), ArchivePhase::Pending);
    assert_eq!(job.archive(), None);
    assert_eq!(job.progress(), 0);
    assert_eq!(job.search_token(), "app");
    assert_eq!(job.cohort(), &cohort_of(&["app-a.log"], JAN_1));
    assert_eq!(job.outcome(), None);
    assert_eq!(job.action(), ArchiveAction::ListDirectory { directory: String::from("/logs") });
}

#[test]
fn pending_job_does_not_advance() {
    let job = ArchiveJob::new(cohort_of(&["app-a.log"], JAN_1), "app");
    let (job, action) = job.advance(true);
    assert_eq!(job.phase(), ArchivePhase::Pending);
    assert_eq!(action, ArchiveAction::ListDirectory { directory: String::from("/logs") });
    let (job, action) = job.advance(false);
    assert_eq!(job.phase(), ArchivePhase::Pending);
    assert_eq!(action, ArchiveAction::ListDirectory { directory: String::from("/logs") });
}

#[test]
fn begin_names_the_archive_and_asks_for_exclusive_creation() {
    let job = ArchiveJob::new(cohort_of(&["app-a.log"], JAN_1), "app");
    let existing = vec![String::from("2024-01-01_app-1.zip"), String::from("2024-01-01_app-2.zip")];
    let (job, action) = job.begin(&existing);
    assert_eq!(job.phase(), ArchivePhase::Creating);
    assert_eq!(job.archive(), Some(archive("2024-01-01_app-3.zip")));
    assert_eq!(action, ArchiveAction::CreateExclusive { path: archive("2024-01-01_app-3.zip") });
    assert_eq!(job.action(), action);
}

#[test]
fn begin_leaves_a_begun_job_alone() {
    let job = begun(&["app-a.log"], JAN_1);
    let (job, action) = job.begin(&vec![String::from("2024-01-01_app-1.zip")]);
    assert_eq!(job.phase(), ArchivePhase::Creating);
    assert_eq!(job.archive(), Some(archive("2024-01-01_app-1.zip")));
    assert_eq!(action, ArchiveAction::CreateExclusive { path: archive("2024-01-01_app-1.zip") });
}

#[test]
fn successful_job_writes_finalizes_stamps_and_removes() {
    let job = begun(&["app-a.log", "app-b.txt"], JAN_1 + 42);
    let (job, actions) = drive(job, &[true, true, true, true, true, true, true]);
    assert_eq!(
        actions,
        vec![
            ArchiveAction::WriteEntry {
                entry_name: String::from("app-a.log"),
                source: String::from("/logs/app-a.log"),
            },
            ArchiveAction::WriteEntry {
                entry_name: String::from("app-b.txt"),
                source: String::from("/logs/app-b.txt"),
            },
            ArchiveAction::Finalize,
            ArchiveAction::SetModified { path: archive("2024-01-01_app-1.zip"), secs: JAN_1 + 42 },
            ArchiveAction::RemoveSource { source: String::from("/logs/app-a.log") },
            ArchiveAction::RemoveSource { source: String::from("/logs/app-b.txt") },
            ArchiveAction::Stop,
        ]
    );
    assert_eq!(job.phase(), ArchivePhase::SourcesRemoved);
    assert_eq!(job.outcome(), Some(Ok(archive("2024-01-01_app-1.zip"))));
}

#[test]
fn archive_is_stamped_with_the_earliest_creation_second() {
    let records = vec![
        file("app-late.log", JAN_1 + 5000),
        file("app-early.log", JAN_1 + 17),
        file("app-mid.log", JAN_1 + 300),
    ];
    let mut jobs = group_and_compress_files(&records, "app", "2024-01-03");
    assert_eq!(jobs.len(), 1);
    let job = jobs.remove(0).begin(&Vec::new()).0;
    let (_, actions) = drive(job, &[true, true, true, true, true]);
    assert_eq!(
        actions[4],
        ArchiveAction::SetModified { path: archive("2024-01-01_app-1.zip"), secs: JAN_1 + 17 }
    );
}

#[test]
fn name_collision_leaves_everything_untouched() {
    let job = begun(&["app-a.log", "app-b.log"], JAN_1);
    let (job, actions) = drive(job, &[false, true, true]);
    assert_eq!(actions, vec![ArchiveAction::Stop, ArchiveAction::Stop, ArchiveAction::Stop]);
    assert_eq!(job.phase(), ArchivePhase::Cleaned(ArchiveError::NameCollision));
    assert_eq!(job.outcome(), Some(Err(ArchiveError::NameCollision)));
}

#[test]
fn write_failure_after_some_entries_removes_the_archive_and_no_source() {
    let job = begun(&["app-a.log", "app-b.log", "app-c.log"], JAN_1);
    let (job, actions) = drive(job, &[true, true, true, false, true, true, true]);
    assert_eq!(
        actions,
        vec![
            ArchiveAction::WriteEntry {
                entry_name: String::from("app-a.log"),
                source: String::from("/logs/app-a.log"),
            },
            ArchiveAction::WriteEntry {
                entry_name: String::from("app-b.log"),
                source: String::from("/logs/app-b.log"),
            },
            ArchiveAction::WriteEntry {
                entry_name: String::from("app-c.log"),
                source: String::from("/logs/app-c.log"),
            },
            ArchiveAction::RemoveArchive { path: archive("2024-01-01_app-1.zip") },
            ArchiveAction::Stop,
            ArchiveAction::Stop,
            ArchiveAction::Stop,
        ]
    );
    assert!(!asks_for_a_source(&actions));
    assert_eq!(job.phase(), ArchivePhase::Cleaned(ArchiveError::WriteFailed));
    assert_eq!(job.outcome(), Some(Err(ArchiveError::WriteFailed)));
}

#[test]
fn write_failure_on_the_first_entry_removes_the_archive() {
    let job = begun(&["app-a.log", "app-b.log"], JAN_1);
    let (job, actions) = drive(job, &[true, false]);
    assert_eq!(actions[1], ArchiveAction::RemoveArchive { path: archive("2024-01-01_app-1.zip") });
    assert_eq!(job.phase(), ArchivePhase::Failed(ArchiveError::WriteFailed));
    assert_eq!(job.progress(), 0);
    assert_eq!(job.outcome(), None);
}

#[test]
fn finalize_failure_removes_the_archive_and_no_source() {
    let job = begun(&["app-a.log"], JAN_1);
    let (job, actions) = drive(job, &[true, true, false, true]);
    assert_eq!(actions[1], ArchiveAction::Finalize);
    assert_eq!(actions[2], ArchiveAction::RemoveArchive { path: archive("2024-01-01_app-1.zip") });
    assert_eq!(actions[3], ArchiveAction::Stop);
    assert!(!asks_for_a_source(&actions));
    assert_eq!(job.outcome(), Some(Err(ArchiveError::FinalizeFailed)));
}

#[test]
fn failed_cleanup_does_not_escalate() {
    let job = begun(&["app-a.log"], JAN_1);
    let (job, actions) = drive(job, &[true, false, false]);
    assert_eq!(actions[2], ArchiveAction::Stop);
    assert_eq!(job.phase(), ArchivePhase::Cleaned(ArchiveError::WriteFailed));
}

#[test]
fn failed_source_removal_does_not_stop_the_others() {
    let job = begun(&["app-a.log", "app-b.log", "app-c.log"], JAN_1);
    let (job, actions) =
        drive(job, &[true, true, true, true, true, true, false, false, false]);
    assert_eq!(actions[5], ArchiveAction::RemoveSource { source: String::from("/logs/app-a.log") });
    assert_eq!(actions[6], ArchiveAction::RemoveSource { source: String::from("/logs/app-b.log") });
    assert_eq!(actions[7], ArchiveAction::RemoveSource { source: String::from("/logs/app-c.log") });
    assert_eq!(actions[8], ArchiveAction::Stop);
    assert_eq!(job.outcome(), Some(Ok(archive("2024-01-01_app-1.zip"))));
}

#[test]
fn failed_stamping_does_not_keep_the_sources() {
    let job = begun(&["app-a.log"], JAN_1);
    let (job, actions) = drive(job, &[true, true, true, false, true]);
    assert_eq!(actions[2], ArchiveAction::SetModified { path: archive("2024-01-01_app-1.zip"), secs: JAN_1 });
    assert_eq!(actions[3], ArchiveAction::RemoveSource { source: String::from("/logs/app-a.log") });
    assert_eq!(job.phase(), ArchivePhase::SourcesRemoved);
}

#[test]
fn finished_job_stays_finished() {
    let job = begun(&["app-a.log"], JAN_1);
    let (job, _) = drive(job, &[true, true, true, true, true]);
    assert_eq!(job.phase(), ArchivePhase::SourcesRemoved);
    let (job, actions) = drive(job, &[true, false]);
    assert_eq!(actions, vec![ArchiveAction::Stop, ArchiveAction::Stop]);
    assert_eq!(job.phase(), ArchivePhase::SourcesRemoved);
}

#[test]
fn job_without_members_still_makes_an_archive() {
    let job = begun(&[], JAN_1);
    let (job, actions) = drive(job, &[true, true, true]);
    assert_eq!(
        actions,
        vec![
            ArchiveAction::Finalize,
            ArchiveAction::SetModified { path: archive("2024-01-01_app-1.zip"), secs: JAN_1 },
            ArchiveAction::Stop,
        ]
    );
    assert_eq!(job.phase(), ArchivePhase::SourcesRemoved);
}

#[test]
fn pass_plans_one_pending_job_for_each_day() {
    let records = vec![
        file("app-a.log", JAN_1 + 1),
        file("app-b.log", JAN_2 + 1),
        file("app-c.txt", JAN_1 + 2),
        file("app-today.log", JAN_3 + 1),
        file("app_test.csv", JAN_1 + 1),
    ];
    let jobs = group_and_compress_files(&records, "app", "2024-01-03");
    assert_eq!(jobs.len(), 2);
    assert_eq!(jobs[0].phase(), ArchivePhase::Pending);
    assert_eq!(jobs[0].cohort().date_key, "2024-01-01");
    assert_eq!(jobs[0].cohort().member_files.len(), 2);
    assert_eq!(jobs[0].search_token(), "app");
    assert_eq!(jobs[1].phase(), ArchivePhase::Pending);
    assert_eq!(jobs[1].cohort().date_key, "2024-01-02");
    assert_eq!(jobs[1].cohort().member_files.len(), 1);
}

#[test]
fn second_pass_over_a_consumed_directory_plans_nothing() {
    let records = vec![file("app-a.log", JAN_1 + 1), file("app-b.log", JAN_2 + 1), file("notes.md", JAN_1)];
    let mut listing: Vec<String> = Vec::new();
    let mut left: Vec<FileRecord> = records.clone();
    for job in group_and_compress_files(&records, "app", "2024-01-03") {
        let (mut job, mut action) = job.begin(&listing);
        while action != ArchiveAction::Stop {
            match &action {
                ArchiveAction::CreateExclusive { path } => listing.push(path.file_name.clone()),
                ArchiveAction::RemoveSource { source } => left.retain(|r| &r.path != source),
                _ => {}
            }
            let (next, following) = job.advance(true);
            job = next;
            action = following;
        }
        assert!(matches!(job.outcome(), Some(Ok(_))));
    }
    assert_eq!(listing, vec![String::from("2024-01-01_app-1.zip"), String::from("2024-01-02_app-1.zip")]);
    for name in &listing {
        left.push(file(name, JAN_3));
    }
    assert_eq!(left.len(), 3);
    assert_eq!(group_and_compress_files(&left, "app", "2024-01-03").len(), 0);
    assert_eq!(group_and_compress_files(&left, "app", "2024-01-05").len(), 0);
}

#[test]
fn rerun_after_a_collision_takes_the_next_name() {
    let job = ArchiveJob::new(cohort_of(&["app-a.log"], JAN_1), "app");
    let (job, action) = job.begin(&Vec::new());
    assert_eq!(action, ArchiveAction::CreateExclusive { path: archive("2024-01-01_app-1.zip") });
    let (job, _) = job.advance(false);
    assert_eq!(job.outcome(), Some(Err(ArchiveError::NameCollision)));
    let again = ArchiveJob::new(cohort_of(&["app-a.log"], JAN_1), "app");
    let (_, action) = again.begin(&vec![String::from("2024-01-01_app-1.zip")]);
    assert_eq!(action, ArchiveAction::CreateExclusive { path: archive("2024-01-01_app-2.zip") });
}
