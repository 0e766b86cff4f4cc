//! Log retention and compression: the decisions behind a scheduled
//! log-maintenance pass, stated over plain values and proved.
//!
//! A caller scans a directory into [`FileRecord`]s, hands them to the
//! functions here, and performs the file operations they ask for:
//! [`remove_old_files`] picks what has outlived the retention window,
//! [`group_and_compress_files`] plans one [`ArchiveJob`] for each day's
//! cohort of logs, and [`move_files_except_today`] plans the move to a
//! secondary location.

pub mod archive;
pub mod classify;
pub mod clock;
pub mod cohort;
pub mod config;
pub mod namer;
pub mod record;
pub mod relocate;
pub mod retention;
pub mod text;

pub use archive::group_and_compress_files;
pub use archive::ArchiveAction;
pub use archive::ArchiveError;
pub use archive::ArchiveJob;
pub use archive::ArchivePhase;
pub use classify::classify;
pub use classify::Classification;
pub use classify::SkipReason;
pub use clock::date_key;
pub use clock::Timestamp;
pub use clock::ZonedInstant;
pub use cohort::build_cohorts;
pub use cohort::Cohort;
pub use cohort::CohortMember;
pub use config::config_application_setting_checker;
pub use config::config_directory_setting_checker;
pub use namer::get_new_log_path;
pub use namer::get_new_zip_path;
pub use namer::ArchivePath;
pub use record::FileRecord;
pub use relocate::create_status_file;
pub use relocate::move_files_except_today;
pub use relocate::Relocation;
pub use relocate::RelocationPlan;
pub use relocate::StatusFile;
pub use retention::remove_old_files;
