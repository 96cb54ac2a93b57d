use gocortex::parser::globals::{CUM_MINIMUM, SUM_MAXIMUM};
use gocortex::parser::header::{build_header, field, parse_parallelism, parse_total_nodes};
use gocortex::parser::helpers::{
    collect_function_profile_data, is_retained, trim_non_numeric_end, validate_profile_string,
};
use gocortex::parser::profile_parsing::{extract_profile_data, parse_profile_data};
use gocortex::parser::types::{FunctionProfileData, ProfileParsingError};
use gocortex::decimal::Decimal;

const POOL_PROFILE: &str = "File: pool.test
Type: cpu
Time: 2025-06-21 08:00:24 PDT
Duration: 2.01s, Total samples = 10.90s (542.34%)
Showing nodes accounting for 10.90s, 100% of 10.90s total
      flat  flat%   sum%        cum   cum%
5.00s  45.87%  45.87%  6.00s  55.05% main.worker
";

const HEAP_PROFILE: &str = "File: pool.test
Type: alloc_space
Time: 2025-06-21 08:00:24 PDT
Showing nodes accounting for 512.50MB, 99.5% of 515.07MB total
      flat  flat%   sum%        cum   cum%
  256.25MB 49.75% 49.75%   256.25MB 49.75%  bytes.makeSlice
  128.00MB 24.85% 74.60%   384.25MB 74.60%  main.(*Pool).Get (inline)
   64.00MB 12.43% 87.03%    64.00MB 12.43%  encoding/json.Marshal
   32.00MB  6.21% 93.24%    32.00MB  6.21%  fmt.Sprintf
";

fn number(d: &Decimal) -> f64 {
    d.to_text().parse::<f64>().unwrap()
}

fn chars(text: &str) -> Vec<char> {
    text.chars().collect()
}

fn row(sum_percentage: &str, cum_percentage: &str) -> FunctionProfileData {
    FunctionProfileData::new(
        "f".to_string(),
        Decimal::from_text("1.0").unwrap(),
        Decimal::from_text("1.0").unwrap(),
        Decimal::from_text(sum_percentage).unwrap(),
        Decimal::from_text("1.0").unwrap(),
        Decimal::from_text(cum_percentage).unwrap(),
    )
}

fn failure<T>(result: Result<T, ProfileParsingError>) -> ProfileParsingError {
    match result {
        Ok(_) => panic!("expected a failure"),
        Err(e) => e,
    }
}

fn without_line(text: &str, line_index: usize) -> String {
    let mut lines: Vec<&str> = text.lines().collect();
    lines.remove(line_index);
    let mut out = lines.join("\n");
    out.push('\n');
    out
}

#[test]
fn pool_profile_parses_to_header_and_one_row() {
    let (header, rows) = extract_profile_data(POOL_PROFILE).unwrap();
    assert_eq!(header.file_name, "pool.test");
    assert_eq!(header.profile_type, "cpu");
    assert_eq!(number(&header.parallelism.duration), 2.01);
    assert_eq!(number(&header.parallelism.total_samples_time), 10.90);
    assert_eq!(number(&header.parallelism.total_samples_percentage), 542.34);
    assert_eq!(number(&header.total_nodes.collected_nodes_accounting), 10.90);
    assert_eq!(number(&header.total_nodes.collected_nodes_accounting_percentage), 100.0);
    assert_eq!(number(&header.total_nodes.total_nodes_accounting), 10.90);
    assert_eq!(rows.len(), 1);
    assert_eq!(rows[0].function_name, "main.worker");
    assert_eq!(number(&rows[0].flat), 5.0);
    assert_eq!(number(&rows[0].flat_percentage), 45.87);
    assert_eq!(number(&rows[0].sum_percentage), 45.87);
    assert_eq!(number(&rows[0].cum), 6.0);
    assert_eq!(number(&rows[0].cum_percentage), 55.05);
    assert!(is_retained(&rows[0], SUM_MAXIMUM, CUM_MINIMUM));
}

#[test]
fn header_size_is_six_for_cpu_and_five_otherwise() {
    let cpu: Vec<&str> = POOL_PROFILE.lines().collect();
    let (header, size) = build_header(&cpu).unwrap();
    assert_eq!(header.profile_type, "cpu");
    assert_eq!(size, 6);
    let heap: Vec<&str> = HEAP_PROFILE.lines().collect();
    let (header, size) = build_header(&heap).unwrap();
    assert_eq!(header.profile_type, "alloc_space");
    assert_eq!(size, 5);
    assert_eq!(number(&header.parallelism.duration), 0.0);
    assert_eq!(number(&header.parallelism.total_samples_time), 0.0);
    assert_eq!(number(&header.parallelism.total_samples_percentage), 0.0);
    assert_eq!(number(&header.total_nodes.collected_nodes_accounting), 512.50);
    assert_eq!(number(&header.total_nodes.collected_nodes_accounting_percentage), 99.5);
    assert_eq!(number(&header.total_nodes.total_nodes_accounting), 515.07);
}

#[test]
fn profile_type_is_compared_exactly() {
    let text = POOL_PROFILE.replace("Type: cpu", "Type: CPU");
    let lines: Vec<&str> = text.lines().collect();
    let e = failure(build_header(&lines));
    assert_eq!(
        e.message(),
        "Incomplete header: Missing nodes accounting (Showing nodes accounting for )"
    );
    let text = POOL_PROFILE.replace("Type: cpu", "Type:   cpu  ");
    let lines: Vec<&str> = text.lines().collect();
    let (header, size) = build_header(&lines).unwrap();
    assert_eq!(header.profile_type, "cpu");
    assert_eq!(size, 6);
}

#[test]
fn heap_profile_keeps_rows_by_either_threshold() {
    let (header, rows) = extract_profile_data(HEAP_PROFILE).unwrap();
    assert_eq!(header.profile_type, "alloc_space");
    let names: Vec<&str> = rows.iter().map(|r| r.function_name.as_str()).collect();
    assert_eq!(names, vec!["bytes.makeSlice", "main.(*Pool).Get", "encoding/json.Marshal"]);
}

#[test]
fn header_failures_name_what_is_missing() {
    let cases = [
        ("Type: cpu", "Typ: cpu", "Missing profile type (Type: )"),
        ("File: ", "Fil: ", "Missing file name (File: )"),
        ("Duration: ", "Duration ", "Missing duration (Duration: )"),
        ("2.01s, Total", "2.01s Total", "Missing ',' in duration line"),
        ("samples = ", "samples ", "Missing '=' in duration line"),
        ("(542.34%)", "542.34%)", "Missing '(' in duration line"),
        ("(542.34%)", "(542.34%", "Missing ')' in duration line"),
        ("Showing nodes", "Showing", "Missing nodes accounting (Showing nodes accounting for )"),
        ("10.90s, 100%", "10.90s 100%", "Missing ',' in nodes accounting line"),
        ("100% of", "100 of", "Missing '%' in nodes accounting line"),
        ("100% of", "100% ", "Missing 'of' in nodes accounting line"),
    ];
    for (from, to, detail) in cases {
        let text = POOL_PROFILE.replacen(from, to, 1);
        assert_ne!(text, POOL_PROFILE);
        let e = failure(extract_profile_data(&text));
        assert!(matches!(e, ProfileParsingError::IncompleteHeader(_)));
        assert_eq!(e.message(), format!("Incomplete header: {}", detail));
    }
}

#[test]
fn header_with_too_few_lines_is_incomplete() {
    let e = failure(extract_profile_data("File: pool.test\nType: cpu\nTime: now\n"));
    assert_eq!(e.message(), "Incomplete header: Fewer header lines than the profile type has");
    let e = failure(extract_profile_data("File: pool.test\n"));
    assert_eq!(e.message(), "Incomplete header: Missing profile type (Type: )");
    let e = failure(extract_profile_data("File: pool.test\nType: heap\nTime: now\nShowing\n"));
    assert_eq!(e.message(), "Incomplete header: Fewer header lines than the profile type has");
}

#[test]
fn header_numbers_fall_back_to_zero() {
    let text = POOL_PROFILE
        .replace("Duration: 2.01s", "Duration: fast")
        .replace("(542.34%)", "(n/a)")
        .replace("for 10.90s,", "for much,");
    let (header, _) = extract_profile_data(&text).unwrap();
    assert_eq!(number(&header.parallelism.duration), 0.0);
    assert_eq!(number(&header.parallelism.total_samples_time), 10.90);
    assert_eq!(number(&header.parallelism.total_samples_percentage), 0.0);
    assert_eq!(number(&header.total_nodes.collected_nodes_accounting), 0.0);
    assert_eq!(number(&header.total_nodes.total_nodes_accounting), 10.90);
    assert_eq!(number(&field(&chars("  12.5ms "))), 12.5);
    assert_eq!(number(&field(&chars("ms"))), 0.0);
    assert_eq!(number(&field(&chars("1.2.3"))), 0.0);
}

#[test]
fn header_lines_are_read_part_by_part() {
    let p = parse_parallelism(&chars("Duration: 30.5s, Total samples = 1.25min (245.9%)")).unwrap();
    assert_eq!(number(&p.duration), 30.5);
    assert_eq!(number(&p.total_samples_time), 1.25);
    assert_eq!(number(&p.total_samples_percentage), 245.9);
    let t = parse_total_nodes(&chars("Showing nodes accounting for 3.5s, 87.5% of 4s total")).unwrap();
    assert_eq!(number(&t.collected_nodes_accounting), 3.5);
    assert_eq!(number(&t.collected_nodes_accounting_percentage), 87.5);
    assert_eq!(number(&t.total_nodes_accounting), 4.0);
}

#[test]
fn total_starts_after_the_first_of() {
    let t = parse_total_nodes(&chars("Showing nodes accounting for 3s, 50% of 6s of 9s total")).unwrap();
    assert_eq!(number(&t.total_nodes_accounting), 6.0);
    let t = parse_total_nodes(&chars("Showing nodes accounting for 3s, 50% off 6s total")).unwrap();
    assert_eq!(number(&t.total_nodes_accounting), 0.0);
}

#[test]
fn numeric_prefix_is_the_leading_run() {
    let cases = [("5.00s", "5.00"), ("45.87%", "45.87"), ("512.50MB", "512.50"), ("100", "100"), ("s", ""), ("", ""), ("1a2", "1"), ("-3", ""), ("1.2.3x", "1.2.3")];
    for (token, want) in cases {
        let source = chars(token);
        let got: String = trim_non_numeric_end(&source).iter().collect();
        assert_eq!(got, want);
    }
}

#[test]
fn row_with_fewer_than_six_words_fails() {
    for parts in [
        vec![],
        vec!["5.00s"],
        vec!["5.00s", "45.87%", "45.87%", "6.00s", "55.05%"],
    ] {
        let e = failure(collect_function_profile_data(&parts));
        assert!(matches!(e, ProfileParsingError::IncompleteBody(_)));
        assert_eq!(e.message(), "Incomplete body: Invalid line parts");
    }
    let text = format!("{}1.00s 9.17% 55.04% 1.00s 9.17%\n", POOL_PROFILE);
    let e = failure(extract_profile_data(&text));
    assert_eq!(e.message(), "Incomplete body: Invalid line parts");
    let text = format!("{}1.00s 0.17% 95.04% 1.00s\n", POOL_PROFILE);
    let e = failure(extract_profile_data(&text));
    assert_eq!(e.message(), "Incomplete body: Invalid line parts");
}

#[test]
fn inline_marker_is_left_out_only_at_the_end() {
    let parts = ["1.00s", "9.17%", "55.04%", "1.00s", "9.17%", "sync.(*Pool).Get", "(inline)"];
    let row = collect_function_profile_data(&parts).unwrap().unwrap();
    assert_eq!(row.function_name, "sync.(*Pool).Get");
    let parts = ["1.00s", "9.17%", "55.04%", "1.00s", "9.17%", "a", "(inline)", "b"];
    let row = collect_function_profile_data(&parts).unwrap().unwrap();
    assert_eq!(row.function_name, "a (inline) b");
    let parts = ["1.00s", "9.17%", "55.04%", "1.00s", "9.17%", "(inline)", "(inline)"];
    let row = collect_function_profile_data(&parts).unwrap().unwrap();
    assert_eq!(row.function_name, "(inline)");
    let parts = ["1.00s", "9.17%", "55.04%", "1.00s", "9.17%", "(inline)"];
    let row = collect_function_profile_data(&parts).unwrap().unwrap();
    assert_eq!(row.function_name, "");
    let parts = ["1.00s", "9.17%", "55.04%", "1.00s", "9.17%", "func", "(Inline)"];
    let row = collect_function_profile_data(&parts).unwrap().unwrap();
    assert_eq!(row.function_name, "func (Inline)");
}

#[test]
fn function_name_keeps_its_words() {
    let parts = ["1.00s", "9.17%", "55.04%", "1.50s", "13.76%", "runtime.gcBgMarkWorker", "func2"];
    let row = collect_function_profile_data(&parts).unwrap().unwrap();
    assert_eq!(row.function_name, "runtime.gcBgMarkWorker func2");
    assert_eq!(number(&row.flat), 1.0);
    assert_eq!(number(&row.flat_percentage), 9.17);
    assert_eq!(number(&row.sum_percentage), 55.04);
    assert_eq!(number(&row.cum), 1.5);
    assert_eq!(number(&row.cum_percentage), 13.76);
}

#[test]
fn column_that_is_no_number_is_named() {
    let good = ["1.00s", "9.17%", "55.04%", "1.00s", "9.17%", "f"];
    let names = ["Flat time", "Flat percentage", "Sum percentage", "Cum time", "Cum percentage"];
    for (i, name) in names.iter().enumerate() {
        let mut parts = good;
        parts[i] = "n/a";
        let e = failure(collect_function_profile_data(&parts));
        assert!(matches!(e, ProfileParsingError::InvalidFormat(_)));
        assert_eq!(e.message(), format!("Invalid profile format: {}: not a decimal number", name));
    }
    let parts = ["x", "y", "55.04%", "1.00s", "9.17%", "f"];
    let e = failure(collect_function_profile_data(&parts));
    assert_eq!(e.message(), "Invalid profile format: Flat time: not a decimal number");
    let parts = ["-1.00s", "9.17%", "55.04%", "1.00s", "9.17%", "f"];
    assert!(collect_function_profile_data(&parts).is_err());
    let parts = ["1.0.0s", "9.17%", "55.04%", "1.00s", "9.17%", "f"];
    assert!(collect_function_profile_data(&parts).is_err());
}

#[test]
fn malformed_row_fails_the_whole_parse() {
    let text = format!("{}0.10s 0.5% bad 0.10s 0.5% tail\n", POOL_PROFILE);
    let e = failure(extract_profile_data(&text));
    assert_eq!(e.message(), "Invalid profile format: Sum percentage: not a decimal number");
}

#[test]
fn retention_boundaries_are_inclusive() {
    assert!(is_retained(&row("80.0", "0.0"), SUM_MAXIMUM, CUM_MINIMUM));
    assert!(!is_retained(&row("80.01", "9.99"), SUM_MAXIMUM, CUM_MINIMUM));
    assert!(is_retained(&row("99.99", "10.0"), SUM_MAXIMUM, CUM_MINIMUM));
    assert!(is_retained(&row("100", "10"), SUM_MAXIMUM, CUM_MINIMUM));
    assert!(is_retained(&row("45.87", "55.05"), SUM_MAXIMUM, CUM_MINIMUM));
    assert!(!is_retained(&row("80.000001", "9.999999"), SUM_MAXIMUM, CUM_MINIMUM));
    assert_eq!(SUM_MAXIMUM, 80);
    assert_eq!(CUM_MINIMUM, 10);
}

#[test]
fn retention_thresholds_can_vary() {
    assert!(is_retained(&row("50.0", "0.0"), 50, 100));
    assert!(!is_retained(&row("50.1", "0.0"), 50, 100));
    assert!(is_retained(&row("50.1", "100"), 50, 100));
    assert!(!is_retained(&row("0.1", "0.0"), 0, 1));
    assert!(is_retained(&row("0.0", "0.0"), 0, 1));
}

#[test]
fn rows_keep_file_order_and_dropped_rows_are_no_failure() {
    let text = format!(
        "{}4.00s 36.70% 82.57% 0.50s 4.59% low.impact\n\n1.00s 9.17% 91.74% 2.00s 18.35% heavy.late\n",
        POOL_PROFILE
    );
    let (_, rows) = extract_profile_data(&text).unwrap();
    let names: Vec<&str> = rows.iter().map(|r| r.function_name.as_str()).collect();
    assert_eq!(names, vec!["main.worker", "heavy.late"]);
}

#[test]
fn body_without_a_kept_row_is_incomplete() {
    let header = without_line(POOL_PROFILE, 6);
    let e = failure(extract_profile_data(&header));
    assert_eq!(e.message(), "Incomplete body: Empty body");
    let e = failure(extract_profile_data(&format!("{}\n  \n\t\n", header)));
    assert!(matches!(e, ProfileParsingError::IncompleteBody(_)));
    assert_eq!(e.message(), "Incomplete body: Empty functions profile data");
    let e = failure(extract_profile_data(&format!("{}0.1s 1% 99% 0.1s 1% tiny\n", header)));
    assert_eq!(e.message(), "Incomplete body: Empty functions profile data");
}

#[test]
fn removing_the_type_line_fails_and_restoring_it_parses() {
    let cut = without_line(POOL_PROFILE, 1);
    let e = failure(extract_profile_data(&cut));
    assert!(matches!(e, ProfileParsingError::IncompleteHeader(_)));
    let mut lines: Vec<&str> = cut.lines().collect();
    lines.insert(1, "Type: cpu");
    let mut restored = lines.join("\n");
    restored.push('\n');
    assert_eq!(restored, POOL_PROFILE);
    assert!(extract_profile_data(&restored).is_ok());
}

#[test]
fn empty_text_is_an_empty_file() {
    let e = failure(extract_profile_data(""));
    assert!(matches!(e, ProfileParsingError::EmptyFile));
    assert_eq!(e.message(), "Profile file is empty");
}

#[test]
fn blank_content_is_refused_before_parsing() {
    for text in ["", " ", "\n\n", " \t\r\n \u{a0}"] {
        let e = failure(validate_profile_string(text));
        assert!(matches!(e, ProfileParsingError::EmptyFile));
        let e = failure(parse_profile_data(text));
        assert!(matches!(e, ProfileParsingError::EmptyFile));
    }
    assert!(validate_profile_string("x").is_ok());
    assert!(validate_profile_string(POOL_PROFILE).is_ok());
    let e = failure(extract_profile_data("\n\n"));
    assert!(matches!(e, ProfileParsingError::IncompleteHeader(_)));
    let (header, rows) = parse_profile_data(POOL_PROFILE).unwrap();
    assert_eq!(header.file_name, "pool.test");
    assert_eq!(rows.len(), 1);
}

#[test]
fn carriage_returns_end_lines_too() {
    let text = POOL_PROFILE.replace('\n', "\r\n");
    let (header, rows) = extract_profile_data(&text).unwrap();
    assert_eq!(header.file_name, "pool.test");
    assert_eq!(header.profile_type, "cpu");
    assert_eq!(rows[0].function_name, "main.worker");
}

#[test]
fn error_messages_name_the_kind() {
    assert_eq!(
        ProfileParsingError::FileReadError("No such file".to_string()).message(),
        "Failed to read profile file: No such file"
    );
    assert_eq!(ProfileParsingError::EmptyFile.message(), "Profile file is empty");
    assert_eq!(
        ProfileParsingError::InvalidFormat("x".to_string()).message(),
        "Invalid profile format: x"
    );
    assert_eq!(
        ProfileParsingError::IncompleteHeader("y".to_string()).message(),
        "Incomplete header: y"
    );
    assert_eq!(
        ProfileParsingError::IncompleteBody("z".to_string()).message(),
        "Incomplete body: z"
    );
}

#[test]
fn long_report_parses_in_one_pass() {
    let mut text = String::from(POOL_PROFILE);
    let mut i: u32 = 0;
    while i < 20000 {
        text.push_str(&format!(
            "     0.01s  0.09% 99.{:02}%      1.50s 13.76%  pkg.(*Type).method{} (inline)\n",
            i % 100,
            i
        ));
        i += 1;
    }
    let (_, rows) = extract_profile_data(&text).unwrap();
    assert_eq!(rows.len(), 20001);
    assert_eq!(rows[20000].function_name, "pkg.(*Type).method19999");
    let compact = gocortex::parser::interface::parse_profile_data(&text).unwrap();
    assert_eq!(compact.lines().count(), 3 + 1 + 20001);
}
