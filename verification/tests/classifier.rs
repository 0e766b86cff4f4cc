use log_rc::classify;
use log_rc::classify::has_archivable_extension;
use log_rc::classify::has_managed_extension;
use log_rc::Classification;
use log_rc::FileRecord;
use log_rc::SkipReason;
use log_rc::Timestamp;
use log_rc::ZonedInstant;

const JAN_1: i64 = 1_704_067_200;
const JAN_3: i64 = 1_704_240_000;

fn file(name: &str, created_secs: i64) -> FileRecord {
    FileRecord {
        path: format!("/var/log/{}", name),
        parent_directory: String::from("/var/log"),
        file_name: String::from(name),
        is_file: true,
        created: Some(ZonedInstant { at: Timestamp { secs: created_secs, nanos: 0 }, offset_secs: 0 }),
        modified: Some(Timestamp { secs: created_secs, nanos: 0 }),
    }
}

#[test]
fn classify_accepts_a_log_of_an_earlier_day() {
    assert_eq!(classify(&file("app.log", JAN_1), "app", "2024-01-03"), Classification::Eligible);
    assert_eq!(classify(&file("old_app.txt", JAN_1), "app", "2024-01-03"), Classification::Eligible);
}

#[test]
fn classify_skips_what_is_no_regular_file() {
    let mut dir = file("app.log", JAN_1);
    dir.is_file = false;
    assert_eq!(
        classify(&dir, "app", "2024-01-03"),
        Classification::Skipped(SkipReason::NotRegularFile)
    );
}

#[test]
fn classify_skips_a_name_without_the_token() {
    assert_eq!(
        classify(&file("other.log", JAN_1), "app", "2024-01-03"),
        Classification::Skipped(SkipReason::TokenAbsent)
    );
    assert_eq!(
        classify(&file("APP.log", JAN_1), "app", "2024-01-03"),
        Classification::Skipped(SkipReason::TokenAbsent)
    );
}

#[test]
fn classify_never_accepts_a_csv() {
    assert_eq!(
        classify(&file("app_test.csv", JAN_1), "app", "2024-01-03"),
        Classification::Skipped(SkipReason::WrongExtension)
    );
    assert_eq!(
        classify(&file("app_test.csv", JAN_3), "app", "2024-01-03"),
        Classification::Skipped(SkipReason::WrongExtension)
    );
    assert_eq!(
        classify(&file("app_test.csv", 0), "app_test", "2024-01-03"),
        Classification::Skipped(SkipReason::WrongExtension)
    );
}

#[test]
fn classify_skips_a_file_without_extension() {
    assert_eq!(
        classify(&file("app", JAN_1), "app", "2024-01-03"),
        Classification::Skipped(SkipReason::WrongExtension)
    );
    assert_eq!(
        classify(&file(".log", JAN_1), "log", "2024-01-03"),
        Classification::Skipped(SkipReason::WrongExtension)
    );
}

#[test]
fn classify_takes_the_extension_exactly() {
    assert_eq!(
        classify(&file("app.LOG", JAN_1), "app", "2024-01-03"),
        Classification::Skipped(SkipReason::WrongExtension)
    );
    assert_eq!(
        classify(&file("app.logs", JAN_1), "app", "2024-01-03"),
        Classification::Skipped(SkipReason::WrongExtension)
    );
    assert_eq!(
        classify(&file("app.log.bak", JAN_1), "app", "2024-01-03"),
        Classification::Skipped(SkipReason::WrongExtension)
    );
    assert_eq!(
        classify(&file("app.zip", JAN_1), "app", "2024-01-03"),
        Classification::Skipped(SkipReason::WrongExtension)
    );
}

#[test]
fn classify_skips_a_file_of_unknown_creation_time() {
    let mut unknown = file("app.log", JAN_1);
    unknown.created = None;
    assert_eq!(
        classify(&unknown, "app", "2024-01-03"),
        Classification::Skipped(SkipReason::CreationTimeUnknown)
    );
}

#[test]
fn classify_skips_a_file_whose_date_cannot_be_represented() {
    assert_eq!(
        classify(&file("app.log", i64::MAX), "app", "2024-01-03"),
        Classification::Skipped(SkipReason::DateUnrepresentable)
    );
}

#[test]
fn classify_skips_a_file_created_today() {
    assert_eq!(
        classify(&file("app.log", JAN_3), "app", "2024-01-03"),
        Classification::Skipped(SkipReason::CreatedToday)
    );
    assert_eq!(
        classify(&file("app.log", JAN_3 + 86_399), "app", "2024-01-03"),
        Classification::Skipped(SkipReason::CreatedToday)
    );
}

#[test]
fn classify_reads_today_in_the_local_offset_of_the_file() {
    let mut late = file("app.log", JAN_3 - 1800);
    late.created = Some(ZonedInstant {
        at: Timestamp { secs: JAN_3 - 1800, nanos: 0 },
        offset_secs: 3600,
    });
    assert_eq!(
        classify(&late, "app", "2024-01-03"),
        Classification::Skipped(SkipReason::CreatedToday)
    );
    assert_eq!(classify(&file("app.log", JAN_3 - 1800), "app", "2024-01-03"), Classification::Eligible);
}

#[test]
fn classify_applies_its_rules_in_order() {
    let mut nothing_fits = file("other.csv", JAN_3);
    nothing_fits.is_file = false;
    nothing_fits.created = None;
    assert_eq!(
        classify(&nothing_fits, "app", "2024-01-03"),
        Classification::Skipped(SkipReason::NotRegularFile)
    );
    nothing_fits.is_file = true;
    assert_eq!(
        classify(&nothing_fits, "app", "2024-01-03"),
        Classification::Skipped(SkipReason::TokenAbsent)
    );
    assert_eq!(
        classify(&nothing_fits, "other", "2024-01-03"),
        Classification::Skipped(SkipReason::WrongExtension)
    );
}

#[test]
fn archivable_extensions_are_log_and_txt() {
    assert!(has_archivable_extension("a.log"));
    assert!(has_archivable_extension("a.txt"));
    assert!(!has_archivable_extension("a.zip"));
    assert!(!has_archivable_extension("a.csv"));
    assert!(!has_archivable_extension("log"));
}

#[test]
fn managed_extensions_are_log_txt_and_zip() {
    assert!(has_managed_extension("a.log"));
    assert!(has_managed_extension("a.txt"));
    assert!(has_managed_extension("a.zip"));
    assert!(!has_managed_extension("a.csv"));
    assert!(!has_managed_extension("a.Zip"));
    assert!(!has_managed_extension("zip"));
}
