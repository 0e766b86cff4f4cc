use log_rc::get_new_log_path;
use log_rc::get_new_zip_path;
use log_rc::namer::name_taken;
use log_rc::namer::next_free_name;
use log_rc::namer::numbered_file_name;
use log_rc::ArchivePath;

fn listing(names: &[&str]) -> Vec<String> {
    let mut out = Vec::new();
    for n in names {
        out.push(String::from(*n));
    }
    out
}

#[test]
fn first_archive_of_a_day_is_number_one() {
    let path = get_new_zip_path("2024-01-01", "/logs", "app", &Vec::new());
    assert_eq!(
        path,
        ArchivePath {
            directory: String::from("/logs"),
            file_name: String::from("2024-01-01_app-1.zip"),
        }
    );
}

#[test]
fn namer_yields_three_after_one_and_two() {
    let existing = listing(&["2024-01-01_app-1.zip", "2024-01-01_app-2.zip"]);
    let path = get_new_zip_path("2024-01-01", "/logs", "app", &existing);
    assert_eq!(path.file_name, "2024-01-01_app-3.zip");
    assert_eq!(path.directory, "/logs");
}

#[test]
fn namer_takes_the_smallest_free_number() {
    let existing = listing(&["2024-01-01_app-1.zip", "2024-01-01_app-3.zip"]);
    assert_eq!(get_new_zip_path("2024-01-01", "/logs", "app", &existing).file_name, "2024-01-01_app-2.zip");
    let existing = listing(&["2024-01-01_app-2.zip", "2024-01-01_app-3.zip"]);
    assert_eq!(get_new_zip_path("2024-01-01", "/logs", "app", &existing).file_name, "2024-01-01_app-1.zip");
}

#[test]
fn namer_ignores_other_days_tokens_and_extensions() {
    let existing = listing(&[
        "2024-01-02_app-1.zip",
        "2024-01-01_web-1.zip",
        "2024-01-01_app-1.log",
        "2024-01-01_app-01.zip",
        "2024-01-01_APP-1.zip",
        "app.log",
    ]);
    assert_eq!(get_new_zip_path("2024-01-01", "/logs", "app", &existing).file_name, "2024-01-01_app-1.zip");
}

#[test]
fn namer_counts_past_nine() {
    let mut existing = Vec::new();
    for n in 1..=11 {
        existing.push(format!("2024-01-01_app-{}.zip", n));
    }
    existing.reverse();
    assert_eq!(get_new_zip_path("2024-01-01", "/logs", "app", &existing).file_name, "2024-01-01_app-12.zip");
}

#[test]
fn namer_is_not_confused_by_repeated_names() {
    let existing = listing(&["d_t-1.zip", "d_t-1.zip", "d_t-1.zip"]);
    assert_eq!(get_new_zip_path("d", "/logs", "t", &existing).file_name, "d_t-2.zip");
}

#[test]
fn named_path_is_never_in_the_listing() {
    let mut existing = Vec::new();
    for round in 0..20 {
        let path = get_new_zip_path("2024-01-01", "/logs", "app", &existing);
        assert!(!existing.contains(&path.file_name));
        assert_eq!(path.file_name, format!("2024-01-01_app-{}.zip", round + 1));
        existing.push(path.file_name);
    }
}

#[test]
fn log_path_is_numbered_like_an_archive() {
    let path = get_new_log_path("2024-01-01", "log", "LogRetentionandCompression", &Vec::new());
    assert_eq!(path.directory, "log");
    assert_eq!(path.file_name, "2024-01-01_LogRetentionandCompression-1.log");
    let existing = listing(&[
        "2024-01-01_LogRetentionandCompression-1.log",
        "2024-01-01_LogRetentionandCompression-2.log",
    ]);
    assert_eq!(
        get_new_log_path("2024-01-01", "log", "LogRetentionandCompression", &existing).file_name,
        "2024-01-01_LogRetentionandCompression-3.log"
    );
}

#[test]
fn numbered_file_name_joins_its_parts() {
    assert_eq!(numbered_file_name("2024-01-01", "app", 7, "zip"), "2024-01-01_app-7.zip");
    assert_eq!(numbered_file_name("", "", 120, ""), "_-120.");
    assert_eq!(numbered_file_name("d", "my-app", 1, "log"), "d_my-app-1.log");
}

#[test]
fn next_free_name_takes_any_extension() {
    let existing = listing(&["d_t-1.bak"]);
    assert_eq!(next_free_name("d", "t", "bak", &existing), "d_t-2.bak");
    assert_eq!(next_free_name("d", "t", "zip", &existing), "d_t-1.zip");
}

#[test]
fn name_taken_looks_for_the_exact_name() {
    let existing = listing(&["a.zip", "b.zip"]);
    assert!(name_taken(&existing, "a.zip"));
    assert!(name_taken(&existing, "b.zip"));
    assert!(!name_taken(&existing, "A.zip"));
    assert!(!name_taken(&existing, "a.zi"));
    assert!(!name_taken(&Vec::new(), "a.zip"));
}
