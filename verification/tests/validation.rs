use gocortex::parser::profile_parsing::extract_profile_data;
use gocortex::parser::types::{FunctionProfileData, Header, ProfileParsingError};

const CPU_PROFILE: &str = "File: pool.test\n\
Type: cpu\n\
Time: 2025-06-21 08:00:24 PDT\n\
Duration: 2.01s, Total samples = 10.90s (542.34%)\n\
Showing nodes accounting for 10.90s, 100% of 10.90s total\n\
      flat  flat%   sum%        cum   cum%\n\
     5.00s 45.87% 45.87%      6.00s 55.05%  main.worker\n\
     3.00s 27.52% 73.39%      3.00s 27.52%  runtime.mallocgc\n";

const CPU_MISSING_BODY: &str = "File: pool.test\n\
Type: cpu\n\
Time: 2025-06-21 08:00:24 PDT\n\
Duration: 2.01s, Total samples = 10.90s (542.34%)\n\
Showing nodes accounting for 10.90s, 100% of 10.90s total\n\
      flat  flat%   sum%        cum   cum%\n";

const CPU_EMPTY_LINES_BODY: &str = "File: pool.test\n\
Type: cpu\n\
Time: 2025-06-21 08:00:24 PDT\n\
Duration: 2.01s, Total samples = 10.90s (542.34%)\n\
Showing nodes accounting for 10.90s, 100% of 10.90s total\n\
      flat  flat%   sum%        cum   cum%\n\
\n\
   \n\
\t\n";

const MISSING_PROFILE_TYPE_PREFIX: &str = "Incomplete header: Missing profile type (Type: )";
const MISSING_DURATION: &str = "Incomplete header: Missing duration (Duration: )";
const MISSING_TOTAL_NODES_PREFIX: &str =
    "Incomplete header: Missing nodes accounting (Showing nodes accounting for )";
const EMPTY_BODY: &str = "Incomplete body: Empty body";
const EMPTY_FUNCTIONS_PROFILE_DATA: &str = "Incomplete body: Empty functions profile data";

fn without_line(text: &str, line_index: usize) -> String {
    let mut lines: Vec<String> = text.lines().map(|s| s.to_string()).collect();
    assert!(line_index < lines.len(), "Line not found, File length insufficient");
    lines.remove(line_index);
    lines.join("\n")
}

fn expect_failure(
    name: &str,
    expected_err_msg: &str,
    result: Result<(Header, Vec<FunctionProfileData>), ProfileParsingError>,
) {
    println!("Running subtest: {}", name);
    match result {
        Ok(_) => panic!("Expected error but test_fn returned Ok"),
        Err(e) => {
            let err_msg = e.message();
            assert_eq!(err_msg, expected_err_msg, "Error message mismatch");
            println!("Test passed: {}", name);
        }
    }
}

#[test]
fn test_invalid_profile_header() {
    expect_failure(
        "missing_profile_type_line",
        MISSING_PROFILE_TYPE_PREFIX,
        extract_profile_data(&without_line(CPU_PROFILE, 1)),
    );
    expect_failure(
        "missing_duration",
        MISSING_DURATION,
        extract_profile_data(&without_line(CPU_PROFILE, 3)),
    );
    expect_failure(
        "missing_nodes_accounting",
        MISSING_TOTAL_NODES_PREFIX,
        extract_profile_data(&without_line(CPU_PROFILE, 4)),
    );
    assert!(extract_profile_data(CPU_PROFILE).is_ok());
}

#[test]
fn test_invalid_profile_body() {
    expect_failure("empty_body", EMPTY_BODY, extract_profile_data(CPU_MISSING_BODY));
    expect_failure(
        "empty_body_lines",
        EMPTY_FUNCTIONS_PROFILE_DATA,
        extract_profile_data(CPU_EMPTY_LINES_BODY),
    );
}
