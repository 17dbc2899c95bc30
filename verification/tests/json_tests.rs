use solana_runner::types::{TTest, TTestResponse};

#[test]
fn ser_solve_response() {
    let response = TTestResponse {
        passed: false,
        error: None,
        tests: vec![
            TTest {
                title: String::from(
                    "HI! Method `increment` should increment the user's personal counter",
                ),
                passed: true,
                error: None,
            },
            TTest {
                title: String::from("HI! Method `get_value` should accept accountId parameter"),
                passed: false,
                error: Some(String::from("expected 3 to equal 1")),
            },
        ],
    };
    let serialized = response.to_json_pretty();
    println!("serialized: {serialized}");
    assert_eq!(
        r##"{
  "passed": false,
  "tests": [
    {
      "title": "HI! Method `increment` should increment the user's personal counter",
      "passed": true
    },
    {
      "title": "HI! Method `get_value` should accept accountId parameter",
      "passed": false,
      "error": "expected 3 to equal 1"
    }
  ]
}"##,
        serialized
    );
}

#[test]
fn top_level_error_written_only_on_failure() {
    let failing = TTestResponse::from_tests(vec![
        TTest::ok(String::from("a")),
        TTest::error(String::from("b"), String::from("boom")),
    ]);
    let failing_json = failing.to_json_pretty();
    assert!(failing_json.contains("\"error\": \"1 of 2 tests failed\""));

    let passing = TTestResponse::from_tests(vec![
        TTest::ok(String::from("a")),
        TTest::ok(String::from("b")),
    ]);
    let passing_json = passing.to_json_pretty();
    assert!(!passing_json.contains("\"error\""));
    assert!(passing_json.contains("\"passed\": true"));
}

#[test]
fn record_error_written_only_when_present() {
    let r = TTestResponse::from_tests(vec![
        TTest::ok(String::from("a")),
        TTest::error(String::from("b"), String::from("expected 3 to equal 1")),
    ]);
    let json = r.to_json_pretty();
    assert!(json.contains("\"error\": \"expected 3 to equal 1\""));
    let first_record = json.split("{\n    ").nth(0).unwrap_or("");
    assert!(!first_record.contains("\"error\": null"));
}

#[test]
fn empty_report_serializes_empty_array() {
    let r = TTestResponse::from_tests(Vec::new());
    let json = r.to_json_pretty();
    assert_eq!(
        json,
        "{\n  \"passed\": false,\n  \"error\": \"No tests executed.\",\n  \"tests\": []\n}"
    );
}

#[test]
fn titles_are_escaped() {
    let r = TTestResponse {
        passed: true,
        error: None,
        tests: vec![TTest {
            title: String::from("say \"hi\" \\ there\nnow\ttab\u{1}"),
            passed: true,
            error: None,
        }],
    };
    let json = r.to_json_pretty();
    assert!(json.contains("say \\\"hi\\\" \\\\ there\\nnow\\ttab\\u0001"));
}
