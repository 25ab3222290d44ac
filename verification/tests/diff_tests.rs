use csvdiff::primary_key::diff_csv_primary_key_internal;
use csvdiff::content_match::diff_csv_internal;
use csvdiff::engine::{CsvDifferInternal, diff_text_internal};
use csvdiff::types::{DiffError, DiffResult};

struct Case {
    name: &'static str,
    source_csv: &'static str,
    target_csv: &'static str,
    mode: &'static str,
    key_columns: &'static [&'static str],
    case_sensitive: bool,
    ignore_whitespace: bool,
    ignore_empty_vs_null: bool,
    excluded_columns: &'static [&'static str],
    has_headers: bool,
    added: usize,
    removed: usize,
    modified: usize,
    unchanged: usize,
    should_error: bool,
    error_contains: Option<&'static str>,
}

fn run_case(case: &Case) -> Result<(), String> {
    let key_columns: Vec<String> = case.key_columns.iter().map(|s| s.to_string()).collect();
    let excluded: Vec<String> = case.excluded_columns.iter().map(|s| s.to_string()).collect();
    let result: Result<DiffResult, DiffError> = if case.mode == "primary-key" {
        diff_csv_primary_key_internal(
            case.source_csv,
            case.target_csv,
            key_columns,
            case.case_sensitive,
            case.ignore_whitespace,
            case.ignore_empty_vs_null,
            excluded,
            case.has_headers,
        )
    } else {
        diff_csv_internal(
            case.source_csv,
            case.target_csv,
            case.case_sensitive,
            case.ignore_whitespace,
            case.ignore_empty_vs_null,
            excluded,
            case.has_headers,
        )
    };
    if case.should_error {
        match result {
            Err(e) => {
                let msg = e.message();
                if let Some(want) = case.error_contains {
                    if msg.contains(want) {
                        Ok(())
                    } else {
                        Err(format!("{}: expected error containing '{}', got '{}'", case.name, want, msg))
                    }
                } else {
                    Ok(())
                }
            }
            Ok(_) => Err(format!("{}: expected an error, got a result", case.name)),
        }
    } else {
        match result {
            Err(e) => Err(format!("{}: unexpected error: {}", case.name, e.message())),
            Ok(r) => {
                if r.added.len() != case.added {
                    return Err(format!("{}: expected {} added, got {}", case.name, case.added, r.added.len()));
                }
                if r.removed.len() != case.removed {
                    return Err(format!("{}: expected {} removed, got {}", case.name, case.removed, r.removed.len()));
                }
                if r.modified.len() != case.modified {
                    return Err(format!("{}: expected {} modified, got {}", case.name, case.modified, r.modified.len()));
                }
                if r.unchanged.len() != case.unchanged {
                    return Err(format!("{}: expected {} unchanged, got {}", case.name, case.unchanged, r.unchanged.len()));
                }
                Ok(())
            }
        }
    }
}

fn all_cases() -> Vec<Case> {
    vec![
        Case {
            name: "simple_diff",
            source_csv: "id,name,age\n1,Alice,30\n2,Bob,25",
            target_csv: "id,name,age\n1,Alice,30\n2,Bobby,25",
            mode: "primary-key",
            key_columns: &["id"],
            case_sensitive: true,
            ignore_whitespace: false,
            ignore_empty_vs_null: false,
            excluded_columns: &[],
            has_headers: true,
            added: 0,
            removed: 0,
            modified: 1,
            unchanged: 1,
            should_error: false,
            error_contains: None,
        },
        Case {
            name: "add_remove",
            source_csv: "id,name,age\n1,Alice,30\n2,Bob,25\n3,Charlie,35",
            target_csv: "id,name,age\n1,Alice,30\n2,Bob,25\n4,David,28",
            mode: "primary-key",
            key_columns: &["id"],
            case_sensitive: true,
            ignore_whitespace: false,
            ignore_empty_vs_null: false,
            excluded_columns: &[],
            has_headers: true,
            added: 1,
            removed: 1,
            modified: 0,
            unchanged: 2,
            should_error: false,
            error_contains: None,
        },
        Case {
            name: "multiple_modifications",
            source_csv: "id,name,age,city\n1,Alice,30,NYC\n2,Bob,25,LA\n3,Charlie,35,Chicago",
            target_csv: "id,name,age,city\n1,Alice,31,NYC\n2,Robert,25,San Francisco\n3,Charlie,35,Chicago",
            mode: "primary-key",
            key_columns: &["id"],
            case_sensitive: true,
            ignore_whitespace: false,
            ignore_empty_vs_null: false,
            excluded_columns: &[],
            has_headers: true,
            added: 0,
            removed: 0,
            modified: 2,
            unchanged: 1,
            should_error: false,
            error_contains: None,
        },
        Case {
            name: "no_headers_auto_detect",
            source_csv: "1,Alice,30\n2,Bob,25\n3,Charlie,35",
            target_csv: "1,Alice,30\n2,Bob,25\n4,David,28",
            mode: "primary-key",
            key_columns: &["Column1"],
            case_sensitive: true,
            ignore_whitespace: false,
            ignore_empty_vs_null: false,
            excluded_columns: &[],
            has_headers: false,
            added: 1,
            removed: 1,
            modified: 0,
            unchanged: 2,
            should_error: false,
            error_contains: None,
        },
        Case {
            name: "numeric_headers_as_data",
            source_csv: "1,2,3\nAlice,30,NYC\nBob,25,LA",
            target_csv: "1,2,3\nAlice,30,NYC\nCharlie,28,Chicago",
            mode: "primary-key",
            key_columns: &["Column1"],
            case_sensitive: true,
            ignore_whitespace: false,
            ignore_empty_vs_null: false,
            excluded_columns: &[],
            has_headers: true,
            added: 1,
            removed: 1,
            modified: 0,
            unchanged: 2,
            should_error: false,
            error_contains: None,
        },
        Case {
            name: "empty_source",
            source_csv: "id,name,age\n",
            target_csv: "id,name,age\n1,Alice,30\n2,Bob,25",
            mode: "primary-key",
            key_columns: &["id"],
            case_sensitive: true,
            ignore_whitespace: false,
            ignore_empty_vs_null: false,
            excluded_columns: &[],
            has_headers: true,
            added: 2,
            removed: 0,
            modified: 0,
            unchanged: 0,
            should_error: false,
            error_contains: None,
        },
        Case {
            name: "empty_target",
            source_csv: "id,name,age\n1,Alice,30\n2,Bob,25",
            target_csv: "id,name,age\n",
            mode: "primary-key",
            key_columns: &["id"],
            case_sensitive: true,
            ignore_whitespace: false,
            ignore_empty_vs_null: false,
            excluded_columns: &[],
            has_headers: true,
            added: 0,
            removed: 2,
            modified: 0,
            unchanged: 0,
            should_error: false,
            error_contains: None,
        },
        Case {
            name: "both_empty",
            source_csv: "id,name,age\n",
            target_csv: "id,name,age\n",
            mode: "primary-key",
            key_columns: &["id"],
            case_sensitive: true,
            ignore_whitespace: false,
            ignore_empty_vs_null: false,
            excluded_columns: &[],
            has_headers: true,
            added: 0,
            removed: 0,
            modified: 0,
            unchanged: 0,
            should_error: false,
            error_contains: None,
        },
        Case {
            name: "duplicate_key_source",
            source_csv: "id,name,age\n1,Alice,30\n1,Bob,25\n2,Charlie,35",
            target_csv: "id,name,age\n1,Alice,30\n2,Bob,25\n3,David,28",
            mode: "primary-key",
            key_columns: &["id"],
            case_sensitive: true,
            ignore_whitespace: false,
            ignore_empty_vs_null: false,
            excluded_columns: &[],
            has_headers: true,
            added: 0,
            removed: 0,
            modified: 0,
            unchanged: 0,
            should_error: true,
            error_contains: Some("Duplicate Primary Key found in source"),
        },
        Case {
            name: "duplicate_key_target",
            source_csv: "id,name,age\n1,Alice,30\n2,Bob,25\n3,Charlie,35",
            target_csv: "id,name,age\n1,Alice,30\n2,Bob,25\n2,David,28",
            mode: "primary-key",
            key_columns: &["id"],
            case_sensitive: true,
            ignore_whitespace: false,
            ignore_empty_vs_null: false,
            excluded_columns: &[],
            has_headers: true,
            added: 0,
            removed: 0,
            modified: 0,
            unchanged: 0,
            should_error: true,
            error_contains: Some("Duplicate Primary Key found in target"),
        },
        Case {
            name: "missing_key_source",
            source_csv: "name,age\nAlice,30\nBob,25",
            target_csv: "id,name,age\n1,Alice,30\n2,Bob,25",
            mode: "primary-key",
            key_columns: &["id"],
            case_sensitive: true,
            ignore_whitespace: false,
            ignore_empty_vs_null: false,
            excluded_columns: &[],
            has_headers: true,
            added: 0,
            removed: 0,
            modified: 0,
            unchanged: 0,
            should_error: true,
            error_contains: Some("Primary key column \"id\" not found in source"),
        },
        Case {
            name: "missing_key_target",
            source_csv: "id,name,age\n1,Alice,30\n2,Bob,25",
            target_csv: "name,age\nAlice,30\nBob,25",
            mode: "primary-key",
            key_columns: &["id"],
            case_sensitive: true,
            ignore_whitespace: false,
            ignore_empty_vs_null: false,
            excluded_columns: &[],
            has_headers: true,
            added: 0,
            removed: 0,
            modified: 0,
            unchanged: 0,
            should_error: true,
            error_contains: Some("Primary key column \"id\" not found in target"),
        },
        Case {
            name: "composite_key",
            source_csv: "first_name,last_name,age,city\nAlice,Smith,30,NYC\nBob,Jones,25,LA\nCharlie,Brown,35,Chicago",
            target_csv: "first_name,last_name,age,city\nAlice,Smith,31,NYC\nBob,Jones,25,San Francisco\nDavid,Wilson,28,Seattle",
            mode: "primary-key",
            key_columns: &["first_name", "last_name"],
            case_sensitive: true,
            ignore_whitespace: false,
            ignore_empty_vs_null: false,
            excluded_columns: &[],
            has_headers: true,
            added: 1,
            removed: 1,
            modified: 2,
            unchanged: 0,
            should_error: false,
            error_contains: None,
        },
        Case {
            name: "basic_content_match",
            source_csv: "name,age,city\nAlice,30,NYC\nBob,25,LA\nCharlie,35,Chicago",
            target_csv: "name,age,city\nAlice,30,NYC\nBob,25,San Francisco\nDavid,28,Seattle",
            mode: "content-match",
            key_columns: &[],
            case_sensitive: true,
            ignore_whitespace: false,
            ignore_empty_vs_null: false,
            excluded_columns: &[],
            has_headers: true,
            added: 1,
            removed: 1,
            modified: 1,
            unchanged: 1,
            should_error: false,
            error_contains: None,
        },
        Case {
            name: "exact_fingerprint_match",
            source_csv: "id,name,value\n1,Alice,100\n2,Bob,200\n3,Charlie,300",
            target_csv: "id,name,value\n1,Alice,100\n2,Bob,200\n4,David,400",
            mode: "content-match",
            key_columns: &[],
            case_sensitive: true,
            ignore_whitespace: false,
            ignore_empty_vs_null: false,
            excluded_columns: &[],
            has_headers: true,
            added: 1,
            removed: 1,
            modified: 0,
            unchanged: 2,
            should_error: false,
            error_contains: None,
        },
        Case {
            // The threshold rule accepts any candidate whose averaged score
            // exceeds one half: here the first two rows keep two of their
            // three columns close, so both are matches, and only the third
            // row (no shared value at all) falls to removed/added.
            name: "similarity_threshold",
            source_csv: "name,age,city\nAlice,30,New York\nBob,25,Los Angeles\nCharlie,35,Chicago",
            target_csv: "name,age,city\nAlice,31,New York City\nRobert,25,LA\nDavid,28,Seattle",
            mode: "content-match",
            key_columns: &[],
            case_sensitive: true,
            ignore_whitespace: false,
            ignore_empty_vs_null: false,
            excluded_columns: &[],
            has_headers: true,
            added: 1,
            removed: 1,
            modified: 2,
            unchanged: 0,
            should_error: false,
            error_contains: None,
        },
        Case {
            name: "case_sensitive",
            source_csv: "id,name\n1,Alice\n2,Bob",
            target_csv: "id,name\n1,alice\n2,BOB",
            mode: "primary-key",
            key_columns: &["id"],
            case_sensitive: true,
            ignore_whitespace: false,
            ignore_empty_vs_null: false,
            excluded_columns: &[],
            has_headers: true,
            added: 0,
            removed: 0,
            modified: 2,
            unchanged: 0,
            should_error: false,
            error_contains: None,
        },
        Case {
            name: "case_insensitive",
            source_csv: "id,name\n1,Alice\n2,Bob",
            target_csv: "id,name\n1,alice\n2,BOB",
            mode: "primary-key",
            key_columns: &["id"],
            case_sensitive: false,
            ignore_whitespace: false,
            ignore_empty_vs_null: false,
            excluded_columns: &[],
            has_headers: true,
            added: 0,
            removed: 0,
            modified: 0,
            unchanged: 2,
            should_error: false,
            error_contains: None,
        },
        Case {
            name: "whitespace_handling",
            source_csv: "id,name\n1,Alice Smith\n2,Bob Jones",
            target_csv: "id,name\n1,  Alice   Smith  \n2,BobJones",
            mode: "primary-key",
            key_columns: &["id"],
            case_sensitive: true,
            ignore_whitespace: true,
            ignore_empty_vs_null: false,
            excluded_columns: &[],
            has_headers: true,
            added: 0,
            removed: 0,
            modified: 2,
            unchanged: 0,
            should_error: false,
            error_contains: None,
        },
        Case {
            name: "empty_vs_null",
            source_csv: "id,name,value\n1,Alice,\n2,Bob,null",
            target_csv: "id,name,value\n1,Alice,null\n2,Bob,",
            mode: "primary-key",
            key_columns: &["id"],
            case_sensitive: true,
            ignore_whitespace: false,
            ignore_empty_vs_null: true,
            excluded_columns: &[],
            has_headers: true,
            added: 0,
            removed: 0,
            modified: 0,
            unchanged: 2,
            should_error: false,
            error_contains: None,
        },
        Case {
            name: "excluded_columns",
            source_csv: "id,name,age,timestamp\n1,Alice,30,2023-01-01\n2,Bob,25,2023-01-02",
            target_csv: "id,name,age,timestamp\n1,Alice,30,2023-01-03\n2,Bob,25,2023-01-04",
            mode: "primary-key",
            key_columns: &["id"],
            case_sensitive: true,
            ignore_whitespace: false,
            ignore_empty_vs_null: false,
            excluded_columns: &["timestamp"],
            has_headers: true,
            added: 0,
            removed: 0,
            modified: 0,
            unchanged: 2,
            should_error: false,
            error_contains: None,
        },
        Case {
            name: "quoted_fields_with_commas",
            source_csv: "id,name,address\n1,Alice,\"123 Main St, Apt 4B\"\n2,Bob,\"456 Oak Ave\"",
            target_csv: "id,name,address\n1,Alice,\"123 Main St, Apt 4B\"\n2,Bob,\"789 Pine Rd\"",
            mode: "primary-key",
            key_columns: &["id"],
            case_sensitive: true,
            ignore_whitespace: false,
            ignore_empty_vs_null: false,
            excluded_columns: &[],
            has_headers: true,
            added: 0,
            removed: 0,
            modified: 1,
            unchanged: 1,
            should_error: false,
            error_contains: None,
        },
        Case {
            name: "escaped_quotes",
            source_csv: "id,quote\n1,\"She said \"\"Hello\"\"\"\n2,\"He said \"\"Goodbye\"\"\"",
            target_csv: "id,quote\n1,\"She said \"\"Hello\"\"\"\n2,\"He said \"\"Hi\"\"\"",
            mode: "primary-key",
            key_columns: &["id"],
            case_sensitive: true,
            ignore_whitespace: false,
            ignore_empty_vs_null: false,
            excluded_columns: &[],
            has_headers: true,
            added: 0,
            removed: 0,
            modified: 1,
            unchanged: 1,
            should_error: false,
            error_contains: None,
        },
        Case {
            name: "mixed_line_endings",
            source_csv: "id,name\r\n1,Alice\r\n2,Bob\n3,Charlie",
            target_csv: "id,name\r\n1,Alice\r\n2,Bobby\n3,Charlie",
            mode: "primary-key",
            key_columns: &["id"],
            case_sensitive: true,
            ignore_whitespace: false,
            ignore_empty_vs_null: false,
            excluded_columns: &[],
            has_headers: true,
            added: 0,
            removed: 0,
            modified: 1,
            unchanged: 2,
            should_error: false,
            error_contains: None,
        },
    ]
}

fn case_named(name: &str) -> Case {
    all_cases().into_iter().find(|c| c.name == name).unwrap()
}

#[test]
fn test_simple_diff() {
    let result = run_case(&case_named("simple_diff"));
    assert!(result.is_ok(), "Simple diff test failed: {:?}", result);
}

#[test]
fn test_add_remove() {
    let result = run_case(&case_named("add_remove"));
    assert!(result.is_ok(), "Add/remove test failed: {:?}", result);
}

#[test]
fn test_multiple_modifications() {
    let result = run_case(&case_named("multiple_modifications"));
    assert!(result.is_ok(), "Multiple modifications test failed: {:?}", result);
}

#[test]
fn test_no_headers_auto_detect() {
    let result = run_case(&case_named("no_headers_auto_detect"));
    assert!(result.is_ok(), "No headers auto-detect test failed: {:?}", result);
}

#[test]
fn test_numeric_headers_as_data() {
    let result = run_case(&case_named("numeric_headers_as_data"));
    assert!(result.is_ok(), "Numeric headers as data test failed: {:?}", result);
}

#[test]
fn test_empty_source() {
    let result = run_case(&case_named("empty_source"));
    assert!(result.is_ok(), "Empty source test failed: {:?}", result);
}

#[test]
fn test_empty_target() {
    let result = run_case(&case_named("empty_target"));
    assert!(result.is_ok(), "Empty target test failed: {:?}", result);
}

#[test]
fn test_both_empty() {
    let result = run_case(&case_named("both_empty"));
    assert!(result.is_ok(), "Both empty test failed: {:?}", result);
}

#[test]
fn test_duplicate_key_source() {
    let result = run_case(&case_named("duplicate_key_source"));
    assert!(result.is_ok(), "Duplicate key source should have passed the test case wrapper");
}

#[test]
fn test_duplicate_key_target() {
    let result = run_case(&case_named("duplicate_key_target"));
    assert!(result.is_ok(), "Duplicate key target should have passed the test case wrapper");
}

#[test]
fn test_missing_key_source() {
    let result = run_case(&case_named("missing_key_source"));
    assert!(result.is_ok(), "Missing key source should have passed the test case wrapper");
}

#[test]
fn test_missing_key_target() {
    let result = run_case(&case_named("missing_key_target"));
    assert!(result.is_ok(), "Missing key target should have passed the test case wrapper");
}

#[test]
fn test_composite_key() {
    let result = run_case(&case_named("composite_key"));
    assert!(result.is_ok(), "Composite key test failed: {:?}", result);
}

#[test]
fn test_basic_content_match() {
    let result = run_case(&case_named("basic_content_match"));
    assert!(result.is_ok(), "Basic content match test failed: {:?}", result);
}

#[test]
fn test_exact_fingerprint_match() {
    let result = run_case(&case_named("exact_fingerprint_match"));
    assert!(result.is_ok(), "Exact fingerprint match test failed: {:?}", result);
}

#[test]
fn test_similarity_threshold() {
    let result = run_case(&case_named("similarity_threshold"));
    assert!(result.is_ok(), "Similarity threshold test failed: {:?}", result);
}

#[test]
fn test_case_sensitive() {
    let result = run_case(&case_named("case_sensitive"));
    assert!(result.is_ok(), "Case sensitive test failed: {:?}", result);
}

#[test]
fn test_case_insensitive() {
    let result = run_case(&case_named("case_insensitive"));
    assert!(result.is_ok(), "Case insensitive test failed: {:?}", result);
}

#[test]
fn test_whitespace_handling() {
    let result = run_case(&case_named("whitespace_handling"));
    assert!(result.is_ok(), "Whitespace handling test failed: {:?}", result);
}

#[test]
fn test_empty_vs_null() {
    let result = run_case(&case_named("empty_vs_null"));
    assert!(result.is_ok(), "Empty vs null test failed: {:?}", result);
}

#[test]
fn test_excluded_columns() {
    let result = run_case(&case_named("excluded_columns"));
    assert!(result.is_ok(), "Excluded columns test failed: {:?}", result);
}

#[test]
fn test_quoted_fields_with_commas() {
    let result = run_case(&case_named("quoted_fields_with_commas"));
    assert!(result.is_ok(), "Quoted fields with commas test failed: {:?}", result);
}

#[test]
fn test_escaped_quotes() {
    let result = run_case(&case_named("escaped_quotes"));
    assert!(result.is_ok(), "Escaped quotes test failed: {:?}", result);
}

#[test]
fn test_mixed_line_endings() {
    let result = run_case(&case_named("mixed_line_endings"));
    assert!(result.is_ok(), "Mixed line endings test failed: {:?}", result);
}

#[test]
fn test_all_cases() {
    let mut passed = 0;
    let mut failed = 0;
    for case in all_cases() {
        match run_case(&case) {
            Ok(()) => {
                passed += 1;
            }
            Err(e) => {
                println!("{}: {}", case.name, e);
                failed += 1;
            }
        }
    }
    println!("{} passed, {} failed", passed, failed);
    assert_eq!(failed, 0, "Some cases failed. See output above.");
}

#[test]
fn test_diff_csv_progress() {
    let source = "id,name,age\n1,Alice,30\n2,Bob,25";
    let target = "id,name,age\n1,Alice,30\n2,Bobby,25";
    let excluded = vec![];

    let result = diff_csv_internal(source, target, true, true, false, excluded, true).unwrap();

    assert_eq!(result.modified.len(), 1);
    assert_eq!(result.unchanged.len(), 1);
}

#[test]
fn test_diff_text_case_sensitive() {
    let diffs = diff_text_internal("Hello World", "hello world", true);
    assert!(!diffs.is_empty());

    let has_changes = diffs.iter().any(|d| d.added || d.removed);
    assert!(has_changes);
}

#[test]
fn test_diff_text_case_insensitive() {
    let diffs = diff_text_internal("Hello World", "hello world", false);
    let has_changes = diffs.iter().any(|d| d.added || d.removed);
    assert!(!has_changes);
}

#[test]
fn test_diff_text_partial_match() {
    let diffs = diff_text_internal("Hello World", "Hello Universe", true);
    assert!(!diffs.is_empty());

    let has_changes = diffs.iter().any(|d| d.added || d.removed);
    assert!(has_changes);
}

#[test]
fn test_csv_differ_primary_key() {
    let source = "id,name,age\n1,Alice,30\n2,Bob,25\n3,Charlie,35";
    let target = "id,name,age\n1,Alice,30\n2,Bobby,25\n4,David,28";

    let differ = CsvDifferInternal::new(
        source,
        target,
        vec!["id".to_string()],
        true,
        false,
        false,
        vec![],
        true,
        "primary-key".to_string(),
    );
    assert!(differ.is_ok());

    let mut differ = match differ {
        Ok(d) => d,
        Err(_) => unreachable!(),
    };
    let result = differ.diff_chunk(0, 10).unwrap();

    assert_eq!(result.added.len(), 1);
    assert_eq!(result.removed.len(), 1);
    assert_eq!(result.modified.len(), 1);
    assert_eq!(result.unchanged.len(), 1);
}

#[test]
fn test_csv_differ_content_match() {
    let source = "name,age,city\nAlice,30,NYC\nBob,25,LA\nCharlie,35,Chicago";
    let target = "name,age,city\nAlice,30,NYC\nBob,25,San Francisco\nDavid,28,Seattle";

    let differ = CsvDifferInternal::new(
        source,
        target,
        vec![],
        true,
        false,
        false,
        vec![],
        true,
        "content-match".to_string(),
    );
    assert!(differ.is_ok());

    let mut differ = match differ {
        Ok(d) => d,
        Err(_) => unreachable!(),
    };
    let result = differ.diff_chunk(0, 10).unwrap();

    assert_eq!(result.added.len(), 1);
    assert_eq!(result.removed.len(), 1);
    assert_eq!(result.modified.len(), 1);
    assert_eq!(result.unchanged.len(), 1);
}

#[test]
fn test_csv_differ_chunked_processing() {
    let source = "id,name\n1,Alice\n2,Bob\n3,Charlie\n4,David\n5,Eve";
    let target = "id,name\n1,Alice\n2,Bobby\n3,Charlie\n4,David\n5,Eve\n6,Frank";

    let differ = CsvDifferInternal::new(
        source,
        target,
        vec!["id".to_string()],
        true,
        false,
        false,
        vec![],
        true,
        "primary-key".to_string(),
    );
    assert!(differ.is_ok());

    let mut differ = match differ {
        Ok(d) => d,
        Err(_) => unreachable!(),
    };

    let chunk1 = differ.diff_chunk(0, 3).unwrap();
    let chunk2 = differ.diff_chunk(3, 3).unwrap();

    assert!(!chunk1.added.is_empty() || !chunk1.modified.is_empty() || !chunk1.unchanged.is_empty());
    assert!(!chunk2.added.is_empty() || !chunk2.modified.is_empty() || !chunk2.unchanged.is_empty());
}

#[test]
fn test_strsim_improved_matching() {
    let source = "name,age,location\nJohn Doe,30,New York\nJane Smith,25,Los Angeles";
    let target = "name,age,location\nJohn D.,30,NYC\nJane S.,25,LA";

    let result = diff_csv_internal(source, target, true, false, false, vec![], true).unwrap();

    assert!(result.modified.len() >= 1, "Should find modified rows with similar but not identical values");
}

#[test]
fn chunked_counts_match_one_shot() {
    let source = "id,name\n1,Alice\n2,Bob\n3,Charlie\n4,David\n5,Eve";
    let target = "id,name\n1,Alice\n2,Bobby\n3,Charlie\n4,David\n5,Eve\n6,Frank";

    let one_shot = diff_csv_primary_key_internal(
        source,
        target,
        vec!["id".to_string()],
        true,
        false,
        false,
        vec![],
        true,
    )
    .unwrap();

    let mut differ = CsvDifferInternal::new(
        source,
        target,
        vec!["id".to_string()],
        true,
        false,
        false,
        vec![],
        true,
        "primary-key".to_string(),
    )
    .unwrap();
    let chunk1 = differ.diff_chunk(0, 2).unwrap();
    let chunk2 = differ.diff_chunk(2, 2).unwrap();
    let chunk3 = differ.diff_chunk(4, 2).unwrap();

    assert_eq!(
        one_shot.added.len(),
        chunk1.added.len() + chunk2.added.len() + chunk3.added.len()
    );
    assert_eq!(
        one_shot.modified.len(),
        chunk1.modified.len() + chunk2.modified.len() + chunk3.modified.len()
    );
    assert_eq!(
        one_shot.unchanged.len(),
        chunk1.unchanged.len() + chunk2.unchanged.len() + chunk3.unchanged.len()
    );
    assert_eq!(
        one_shot.removed.len(),
        chunk1.removed.len() + chunk2.removed.len() + chunk3.removed.len()
    );
}

#[test]
fn self_diff_is_all_unchanged() {
    let text = "id,name,age\n1,Alice,30\n2,Bob,25\n3,Charlie,35";
    let result = diff_csv_primary_key_internal(
        text,
        text,
        vec!["id".to_string()],
        true,
        false,
        false,
        vec![],
        true,
    )
    .unwrap();
    assert_eq!(result.added.len(), 0);
    assert_eq!(result.removed.len(), 0);
    assert_eq!(result.modified.len(), 0);
    assert_eq!(result.unchanged.len(), 3);
}

#[test]
fn low_similarity_rows_are_removed_and_added() {
    let source = "a,b,c\nfoo,bar,baz\n";
    let target = "a,b,c\nquux,corge,grault\n";
    let result = diff_csv_internal(source, target, true, false, false, vec![], true).unwrap();
    assert_eq!(result.modified.len(), 0);
    assert_eq!(result.unchanged.len(), 0);
    assert_eq!(result.removed.len(), 1);
    assert_eq!(result.added.len(), 1);
}

#[test]
fn partition_covers_every_row() {
    let source = "id,name\n1,Alice\n2,Bob\n3,Charlie";
    let target = "id,name\n2,Bobby\n3,Charlie\n4,David";
    let result = diff_csv_primary_key_internal(
        source,
        target,
        vec!["id".to_string()],
        true,
        false,
        false,
        vec![],
        true,
    )
    .unwrap();
    // source rows: removed + modified + unchanged; target rows: added +
    // modified + unchanged
    assert_eq!(result.removed.len() + result.modified.len() + result.unchanged.len(), 3);
    assert_eq!(result.added.len() + result.modified.len() + result.unchanged.len(), 3);
}

#[test]
fn parse_error_is_reported() {
    let bad = "id,name\n1,A\nlonely";
    let result = diff_csv_primary_key_internal(
        bad,
        "id,name\n1,A",
        vec!["id".to_string()],
        true,
        false,
        false,
        vec![],
        true,
    );
    assert!(result.is_err());
}

#[test]
fn exact_end_to_end_primary_key() {
    let source = "id,name,age\n1,Alice,30\n2,Bob,25";
    let target = "id,name,age\n1,Alice,30\n2,Bobby,25";
    let result = diff_csv_primary_key_internal(
        source,
        target,
        vec!["id".to_string()],
        true,
        false,
        false,
        vec![],
        true,
    )
    .unwrap();

    assert_eq!(result.added.len(), 0);
    assert_eq!(result.removed.len(), 0);
    assert_eq!(result.unchanged.len(), 1);
    assert_eq!(result.modified.len(), 1);

    assert_eq!(result.unchanged[0].key, "1");
    let modified = &result.modified[0];
    assert_eq!(modified.key, "2");
    assert_eq!(modified.differences.len(), 1);
    assert_eq!(modified.differences[0].column, "name");
    assert_eq!(modified.differences[0].old_value, "Bob");
    assert_eq!(modified.differences[0].new_value, "Bobby");
    assert_eq!(result.mode, "primary-key");
}

#[test]
fn word_diff_spans_reconstruct_both_texts() {
    let old_text = "the quick brown fox";
    let new_text = "the slow brown dog";
    let spans = diff_text_internal(old_text, new_text, true);
    let rebuilt_old: String = spans.iter().filter(|s| !s.added).map(|s| s.value.as_str()).collect();
    let rebuilt_new: String = spans.iter().filter(|s| !s.removed).map(|s| s.value.as_str()).collect();
    assert_eq!(rebuilt_old, old_text);
    assert_eq!(rebuilt_new, new_text);
}
