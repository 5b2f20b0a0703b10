use history_core::project::extract_project_name;
use history_core::scan::{estimate_message_count_from_size, find_line_ranges, find_line_starts};

#[test]
fn test_find_line_ranges_empty() {
    let data = b"";
    let ranges = find_line_ranges(data);
    assert!(ranges.is_empty());
}

#[test]
fn test_find_line_ranges_single_line_no_newline() {
    let data = b"hello world";
    let ranges = find_line_ranges(data);
    assert_eq!(ranges, vec![(0, 11)]);
}

#[test]
fn test_find_line_ranges_single_line_with_newline() {
    let data = b"hello world\n";
    let ranges = find_line_ranges(data);
    assert_eq!(ranges, vec![(0, 11)]);
}

#[test]
fn test_find_line_ranges_multiple_lines() {
    let data = b"line1\nline2\nline3";
    let ranges = find_line_ranges(data);
    assert_eq!(ranges, vec![(0, 5), (6, 11), (12, 17)]);
}

#[test]
fn test_find_line_ranges_with_empty_lines() {
    let data = b"line1\n\nline3\n";
    let ranges = find_line_ranges(data);
    assert_eq!(ranges, vec![(0, 5), (7, 12)]);
}

#[test]
fn test_find_line_ranges_only_newlines() {
    let data = b"\n\n\n";
    let ranges = find_line_ranges(data);
    assert!(ranges.is_empty());
}

#[test]
fn test_find_line_starts_empty() {
    let data = b"";
    let starts = find_line_starts(data);
    assert_eq!(starts, vec![0]);
}

#[test]
fn test_find_line_starts_single_line() {
    let data = b"hello";
    let starts = find_line_starts(data);
    assert_eq!(starts, vec![0]);
}

#[test]
fn test_find_line_starts_multiple_lines() {
    let data = b"line1\nline2\nline3";
    let starts = find_line_starts(data);
    assert_eq!(starts, vec![0, 6, 12]);
}

#[test]
fn line_ranges_skip_empty_lines_and_cover_every_other_byte() {
    let data = b"\r\n\nab\n\n\ncd\ne";
    let ranges = find_line_ranges(data);
    assert_eq!(ranges, vec![(0, 1), (3, 5), (8, 10), (11, 12)]);
    for (s, e) in &ranges {
        assert!(s < e);
    }
    for (p, b) in data.iter().enumerate() {
        let covered = ranges.iter().any(|(s, e)| *s <= p && p < *e);
        assert_eq!(covered, *b != b'\n');
    }
}

#[test]
fn line_starts_skip_a_final_newline() {
    assert_eq!(find_line_starts(b"a\nb\n"), vec![0, 2]);
    assert_eq!(find_line_starts(b"\n\n"), vec![0, 1]);
}

#[test]
fn test_extract_project_name_with_prefix() {
    let result = extract_project_name("-user-home-project");
    assert_eq!(result, "project");
}

#[test]
fn test_extract_project_name_with_complex_prefix() {
    let result = extract_project_name("-usr-local-myproject");
    assert_eq!(result, "myproject");
}

#[test]
fn test_extract_project_name_without_prefix() {
    let result = extract_project_name("simple-project");
    assert_eq!(result, "simple-project");
}

#[test]
fn test_extract_project_name_empty() {
    let result = extract_project_name("");
    assert_eq!(result, "");
}

#[test]
fn test_extract_project_name_only_dashes() {
    let result = extract_project_name("-a-b");
    assert_eq!(result, "-a-b");
}

#[test]
fn test_extract_project_name_exact_four_parts() {
    let result = extract_project_name("-a-b-c");
    assert_eq!(result, "c");
}

#[test]
fn test_empty_project_name() {
    let result = extract_project_name("");
    assert_eq!(result, "");
}

#[test]
fn test_single_dash_project_name() {
    let result = extract_project_name("-");
    assert_eq!(result, "-");
}

#[test]
fn test_multiple_dashes_project_name() {
    let result = extract_project_name("---");
    assert_eq!(result, "");
}

#[test]
fn test_unicode_project_name() {
    let result = extract_project_name("project-name");
    assert_eq!(result, "project-name");
}

#[test]
fn test_very_long_project_name() {
    let long_name = "a".repeat(1000);
    let result = extract_project_name(&long_name);
    assert_eq!(result, long_name);
}

#[test]
fn project_name_keeps_dashes_after_the_third() {
    assert_eq!(extract_project_name("-home-me-my-app"), "my-app");
    assert_eq!(extract_project_name("-hé-ü-naïve"), "naïve");
}

#[test]
fn test_estimate_message_count_zero_size() {
    let result = estimate_message_count_from_size(0);
    assert_eq!(result, 1);
}

#[test]
fn test_estimate_message_count_small_file() {
    let result = estimate_message_count_from_size(500);
    assert_eq!(result, 1);
}

#[test]
fn test_estimate_message_count_medium_file() {
    let result = estimate_message_count_from_size(2500);
    assert_eq!(result, 3);
}

#[test]
fn test_estimate_message_count_large_file() {
    let result = estimate_message_count_from_size(10000);
    assert_eq!(result, 10);
}

#[test]
fn test_estimate_message_count_exact_boundary() {
    let result = estimate_message_count_from_size(1000);
    assert_eq!(result, 1);
}

#[test]
fn estimate_never_decreases_with_size() {
    let sizes = [0u64, 1, 999, 1000, 1001, 1999, 2000, 123_456, u64::MAX];
    for w in sizes.windows(2) {
        assert!(estimate_message_count_from_size(w[0]) <= estimate_message_count_from_size(w[1]));
    }
    assert_eq!(estimate_message_count_from_size(1001), 2);
}
