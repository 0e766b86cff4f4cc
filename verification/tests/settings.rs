use log_rc::config_application_setting_checker;
use log_rc::config_directory_setting_checker;

#[test]
fn application_retention_accepts_one_to_365_days() {
    assert!(config_application_setting_checker(&1));
    assert!(config_application_setting_checker(&30));
    assert!(config_application_setting_checker(&365));
}

#[test]
fn application_retention_rejects_zero_and_more_than_a_year() {
    assert!(!config_application_setting_checker(&0));
    assert!(!config_application_setting_checker(&366));
    assert!(!config_application_setting_checker(&u64::MAX));
}

#[test]
fn directory_setting_accepts_a_valid_entry() {
    assert!(config_directory_setting_checker(true, "app", &1));
    assert!(config_directory_setting_checker(true, "my-service", &365));
}

#[test]
fn directory_setting_rejects_a_missing_directory() {
    assert!(!config_directory_setting_checker(false, "app", &30));
}

#[test]
fn directory_setting_rejects_a_blank_token() {
    assert!(!config_directory_setting_checker(true, "", &30));
}

#[test]
fn directory_setting_rejects_an_underscore_in_the_token() {
    assert!(!config_directory_setting_checker(true, "app_test", &30));
    assert!(!config_directory_setting_checker(true, "_", &30));
    assert!(!config_directory_setting_checker(true, "app_", &30));
}

#[test]
fn directory_setting_rejects_retention_out_of_bounds() {
    assert!(!config_directory_setting_checker(true, "app", &0));
    assert!(!config_directory_setting_checker(true, "app", &366));
}
