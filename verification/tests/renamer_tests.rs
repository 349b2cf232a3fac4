use regex::Regex;
use renamer::renamer::{check_warning, should_process_file, transform_filename};
use renamer::RenamerError;

#[test]
fn renamer_test_transform_with_title_provided() {
    // When new_pattern includes title directly
    let re = Regex::new(r"S(?P<season>\d+)E(?P<episode>\d+)").unwrap();
    let original = "S1E1_video.mkv";
    let new_pattern = "MyShow - S{season:02}E{episode:02}";
    let transformed = transform_filename(original, new_pattern, &re).unwrap();
    assert_eq!(transformed, "MyShow - S01E01.mkv");
}

#[test]
fn renamer_test_transform_with_title_omitted() {
    // When title placeholder is empty
    let re = Regex::new(r"S(?P<season>\d+)E(?P<episode>\d+)").unwrap();
    let original = "S1E1_video.mkv";
    let new_pattern = " - S{season:02}E{episode:02}";
    let transformed = transform_filename(original, new_pattern, &re).unwrap();
    assert_eq!(transformed, " - S01E01.mkv");
}

#[test]
fn renamer_test_transform_without_title_placeholder() {
    // Just season and episode
    let re = Regex::new(r"S(?P<season>\d+)E(?P<episode>\d+)").unwrap();
    let original = "S1E1_video.mkv";
    let new_pattern = "S{season:02}E{episode:02}";
    let transformed = transform_filename(original, new_pattern, &re).unwrap();
    assert_eq!(transformed, "S01E01.mkv");
}

#[test]
fn renamer_test_transform_default_format_double_digit() {
    let re = Regex::new(r"S(?P<season>\d+)E(?P<episode>\d+)").unwrap();
    let original = "S12E34_video.mkv";
    let new_pattern = "TestShow - S{season:02}E{episode:02}";
    let transformed = transform_filename(original, new_pattern, &re).unwrap();
    assert_eq!(transformed, "TestShow - S12E34.mkv");
}

#[test]
fn renamer_test_transform_high_episode() {
    let re = Regex::new(r"S(?P<season>\d+)E(?P<episode>\d+)").unwrap();
    let original = "S01E100_video.mkv";
    let new_pattern = "TestShow - S{season:02}E{episode:02}";
    let transformed = transform_filename(original, new_pattern, &re).unwrap();
    assert_eq!(transformed, "TestShow - S01E100.mkv");
}

#[test]
fn renamer_test_transform_no_regex_match() {
    let re = Regex::new(r"S(?P<season>\d+)E(?P<episode>\d+)").unwrap();
    let original = "random_file.txt";
    let new_pattern = "TestShow - S{season:02}E{episode:02}";
    let transformed = transform_filename(original, new_pattern, &re);
    assert!(transformed.is_err());
    // More specifically:
    assert!(matches!(transformed, Err(RenamerError::InvalidPattern)));
}

#[test]
fn renamer_test_transform_with_default_season() {
    // Using regex to capture episode and adding a fixed season in the pattern
    let re = Regex::new(r"\[(?P<title>[^]]+)\]\[(?P<episode>\d+)\]").unwrap();
    let original = "[Ao no Exorcist][01][1080P][BDRip][HEVC-10bit][FLAC].mkv";
    let new_pattern = "{title} - S01E{episode:02}";
    let transformed = transform_filename(original, new_pattern, &re).unwrap();
    assert_eq!(transformed, "Ao no Exorcist - S01E01.mkv");
}

#[test]
fn renamer_test_check_warning_no_warning() {
    let re = Regex::new(r"S(?P<season>\d+)E(?P<episode>\d+)").unwrap();
    let file_name = "S01E01_video.mkv";
    assert_eq!(check_warning(file_name, &re), false);
}

#[test]
fn renamer_test_check_warning_with_warning() {
    let re = Regex::new(r"S(?P<season>\d+)E(?P<episode>\d+)").unwrap();
    let file_name1 = "S0E01_video.mkv";
    let file_name2 = "S01E0_video.mkv";
    assert_eq!(check_warning(file_name1, &re), true);
    assert_eq!(check_warning(file_name2, &re), true);
}

#[test]
fn renamer_test_should_process_file_allowed() {
    let allowed_types = vec!["mkv".to_string(), "ass".to_string()];
    let path = "S01E01_video.mkv";
    assert!(should_process_file(path, &allowed_types));
}

#[test]
fn renamer_test_should_process_file_not_allowed() {
    let allowed_types = vec!["mkv".to_string(), "ass".to_string()];
    let path = "S01E01_video.mp4";
    assert!(!should_process_file(path, &allowed_types));
}

#[test]
fn renamer_test_should_process_file_no_extension() {
    let allowed_types = vec!["mkv".to_string(), "ass".to_string()];
    let path = "README";
    assert!(!should_process_file(path, &allowed_types));
}

#[test]
fn renamer_test_should_process_subdirectory() {
    let allowed_types = vec!["mkv".to_string(), "ass".to_string()];
    let path = "subdir";
    assert!(!should_process_file(path, &allowed_types));
}

#[test]
fn renamer_test_check_warning_true() {
    // season '0' should trigger warning.
    let pattern = r"S(?P<season>\d+)E(?P<episode>\d+)";
    let re = Regex::new(pattern).unwrap();
    let file_name = "MyShow S0E10.mkv"; // season is 0 -> warn true
    assert!(check_warning(file_name, &re));
}

#[test]
fn renamer_test_check_warning_false() {
    // valid season/episode should not trigger warning.
    let pattern = r"S(?P<season>\d+)E(?P<episode>\d+)";
    let re = Regex::new(pattern).unwrap();
    let file_name = "MyShow S01E10.mkv";
    assert!(!check_warning(file_name, &re));
}
