use regex::Regex;
use renamer::renamer::build_plan;
use renamer::template::{parse_placeholders, Token};
use renamer::RenamerError;

#[test]
fn test_extension_invariance_replaces_template_extension() {
    // The template's own extension guess is overridden by the original's.
    let re = Regex::new(r"S(?P<season>\d+)E(?P<episode>\d+)").unwrap();
    let result =
        renamer::transform::transform_filename("S1E1_video.MKV", "{title}.txt", &re, "1", "Show")
            .unwrap();
    assert_eq!(result, "Show.mkv");
}

#[test]
fn test_extension_invariance_keeps_equal_extension() {
    // A rendered extension equal up to case is left exactly as rendered.
    let re = Regex::new(r"S(?P<season>\d+)E(?P<episode>\d+)").unwrap();
    let result =
        renamer::transform::transform_filename("S1E1_video.mkv", "{title}.MKV", &re, "1", "Show")
            .unwrap();
    assert_eq!(result, "Show.MKV");
}

#[test]
fn test_no_match_yields_skip() {
    let re = Regex::new(r"S(?P<season>\d+)E(?P<episode>\d+)").unwrap();
    let plan = build_plan(
        "random_file.txt",
        &re,
        "{title} - S{season:02}E{episode:02}",
        "1",
        "Show",
    )
    .unwrap();
    assert!(plan.is_none());
}

#[test]
fn test_build_plan_produces_plan_and_flag() {
    let re = Regex::new(r"S(?P<season>\d+)E(?P<episode>\d+)").unwrap();
    let plan = build_plan(
        "S0E01_video.mkv",
        &re,
        "{title} - S{season:02}E{episode:02}",
        "1",
        "Show",
    )
    .unwrap()
    .expect("the pattern matches, so a plan is owed");
    assert_eq!(plan.old_path, "S0E01_video.mkv");
    assert_eq!(plan.new_path, "Show - S00E01.mkv");
    assert!(plan.warn);

    let plan2 = build_plan(
        "S01E01_video.mkv",
        &re,
        "{title} - S{season:02}E{episode:02}",
        "1",
        "Show",
    )
    .unwrap()
    .expect("the pattern matches, so a plan is owed");
    assert!(!plan2.warn);
}

#[test]
fn test_zero_padding_is_a_minimum() {
    // A value wider than the requested width keeps all its digits.
    let re = Regex::new(r"E(?P<episode>\d+)").unwrap();
    let result = renamer::transform_filename("E100_show.mkv", "E{episode:02}", &re).unwrap();
    assert_eq!(result, "E100.mkv");
}

#[test]
fn test_zero_padding_canonicalizes() {
    // Padding re-canonicalizes the digits: leading zeros beyond the width go.
    let re = Regex::new(r"E(?P<episode>\d+)").unwrap();
    let result = renamer::transform_filename("E007_show.mkv", "E{episode:02}", &re).unwrap();
    assert_eq!(result, "E07.mkv");
    let zero = renamer::transform_filename("E0_show.mkv", "E{episode:02}", &re).unwrap();
    assert_eq!(zero, "E00.mkv");
}

#[test]
fn test_non_numeric_field_space_padded() {
    // A non-numeric captured value is filled with spaces, never zeros.
    let re = Regex::new(r"(?P<name>[a-z]+)").unwrap();
    let result = renamer::transform_filename("ab.mkv", "x{name:4}", &re).unwrap();
    assert_eq!(result, "x  ab.mkv");
}

#[test]
fn test_advisory_ignores_other_fields() {
    // Only season and episode contribute to the advisory check.
    let re = Regex::new(r"(?P<track>\d+)").unwrap();
    assert!(!renamer::check_warning("0_file.mkv", &re));
}

#[test]
fn test_eligibility_empty_allow_list_accepts_all() {
    let empty: Vec<String> = vec![];
    assert!(renamer::renamer::should_process_file("no_extension", &empty));
    assert!(!renamer::renamer::should_process_file(
        "no_extension",
        &vec!["mkv".to_string()]
    ));
}

#[test]
fn test_eligibility_is_case_insensitive() {
    let types = vec!["mkv".to_string()];
    assert!(renamer::renamer::should_process_file("video.MKV", &types));
}

#[test]
fn test_strict_filter_is_case_sensitive() {
    // The strict filter compares extensions exactly and lets nothing
    // through an empty list.
    let types = vec!["mkv".to_string()];
    assert!(renamer::should_process_file("video.mkv", &types));
    assert!(!renamer::should_process_file("video.MKV", &types));
    let empty: Vec<String> = vec![];
    assert!(!renamer::should_process_file("video.mkv", &empty));
}

#[test]
fn test_literal_template_round_trips() {
    // A template with no recognized placeholder renders to itself, up to
    // the extension guard appending the original extension.
    let re = Regex::new(r"(?P<x>.)").unwrap();
    let result =
        renamer::transform_filename("abc.txt", "plain name {not a placeholder", &re).unwrap();
    assert_eq!(result, "plain name {not a placeholder.txt");
}

#[test]
fn test_negative_value_is_refused() {
    // A captured value beginning with '-' under a width-bearing placeholder
    // fails this file's plan; the sign is never stripped.
    let re = Regex::new(r"S(?P<season>-\d+)E(?P<episode>\d+)").unwrap();
    let result = renamer::transform::transform_filename(
        "S-1E10_video.mkv",
        "{title} - S{season:02}E{episode:02}",
        &re,
        "1",
        "TestShow",
    );
    assert!(matches!(result, Err(RenamerError::NegativeValue)));
}

#[test]
fn test_oversized_width_is_malformed() {
    let re = Regex::new(r"E(?P<episode>\d+)").unwrap();
    let result = renamer::transform_filename(
        "E1_show.mkv",
        "E{episode:99999999999999999999999999}",
        &re,
    );
    assert!(matches!(result, Err(RenamerError::MalformedTemplate)));
}

#[test]
fn test_parse_placeholders_tokens() {
    let tokens = parse_placeholders("a{b:02}c{d}").unwrap();
    assert_eq!(tokens.len(), 4);
    assert!(matches!(&tokens[0], Token::Literal(t) if t.iter().collect::<String>() == "a"));
    match &tokens[1] {
        Token::Placeholder { name, width, raw } => {
            assert_eq!(name.iter().collect::<String>(), "b");
            assert_eq!(*width, Some(2));
            assert_eq!(raw.iter().collect::<String>(), "{b:02}");
        }
        Token::Literal(_) => panic!("expected a placeholder"),
    }
    assert!(matches!(&tokens[2], Token::Literal(t) if t.iter().collect::<String>() == "c"));
    assert!(matches!(&tokens[3], Token::Placeholder { width: None, .. }));
}

#[test]
fn test_unpaired_braces_are_literal() {
    let tokens = parse_placeholders("{} {a b} {:02}").unwrap();
    assert_eq!(tokens.len(), 1);
    assert!(matches!(&tokens[0], Token::Literal(t) if t.iter().collect::<String>() == "{} {a b} {:02}"));
}

#[test]
fn test_error_messages() {
    assert_eq!(
        RenamerError::InvalidPattern.message(),
        "Invalid pattern provided"
    );
    assert_eq!(
        RenamerError::NegativeValue.message(),
        "Negative value for a zero-padded field"
    );
    assert_eq!(
        RenamerError::MalformedTemplate.message(),
        "Malformed width in the new-name template"
    );
}

#[test]
fn test_merge_config_cli_takes_priority() {
    let config = renamer::AppConfig {
        directory: Some("/from/config".to_string()),
        current_pattern: Some("configured".to_string()),
        new_pattern: Some("configured".to_string()),
        file_types: Some(vec!["avi".to_string()]),
        dry_run: Some(true),
        default_season: Some("9".to_string()),
        title: Some("Configured".to_string()),
        depth: Some(7),
    };
    let mut cli = renamer::Cli {
        config: None,
        directory: "/from/cli".to_string(),
        current_pattern: "cli".to_string(),
        new_pattern: "cli".to_string(),
        file_types: vec!["mkv".to_string()],
        dry_run: false,
        default_season: "1".to_string(),
        title: Some("Cli".to_string()),
        depth: 2,
    };
    renamer::merge_config(&mut cli, config);
    assert_eq!(cli.directory, "/from/cli");
    assert_eq!(cli.current_pattern, "cli");
    assert_eq!(cli.new_pattern, "cli");
    assert_eq!(cli.file_types, vec!["mkv".to_string()]);
    // a configuration file can never turn dry-run on
    assert_eq!(cli.dry_run, false);
    assert_eq!(cli.default_season, "1");
    assert_eq!(cli.title, Some("Cli".to_string()));
    assert_eq!(cli.depth, 2);
}

#[test]
fn test_repeated_placeholder_renders_each_time() {
    let re = Regex::new(r"E(?P<episode>\d+)").unwrap();
    let result =
        renamer::transform_filename("E7_show.mkv", "{episode}-{episode:03}", &re).unwrap();
    assert_eq!(result, "7-007.mkv");
}

#[test]
fn test_unknown_placeholder_policies_differ() {
    let re = Regex::new(r"E(?P<episode>\d+)").unwrap();
    // the plain transformation renders unknown placeholders as nothing
    let blanked = renamer::transform_filename("E7_show.mkv", "a{unknown}b", &re).unwrap();
    assert_eq!(blanked, "ab.mkv");
    // the defaults-bearing transformation keeps them verbatim
    let kept =
        renamer::transform::transform_filename("E7_show.mkv", "a{unknown}b", &re, "1", "")
            .unwrap();
    assert_eq!(kept, "a{unknown}b.mkv");
}
