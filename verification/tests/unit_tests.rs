use csvdiff::utils::{is_empty_or_null, normalize_value_cow, normalize_value_with_empty_vs_null};
use csvdiff::similarity::{levenshtein, lev_similarity, osa_distance, short_similarity, cell_similarity};
use csvdiff::parse::parse_csv_internal;
use csvdiff::content_match::{resolve_matches, ScoredPair};
use csvdiff::streaming::{StreamingConfig, StreamingDiffResult};
use csvdiff::profiling::{Profiler, MemoryTracker};
use csvdiff::text::dec_string;
use csvdiff::parse::build_header_map;
use csvdiff::utils::{get_row_key, get_row_fingerprint};

fn chars(s: &str) -> Vec<char> {
    s.chars().collect()
}

#[test]
fn test_is_empty_or_null() {
    assert!(is_empty_or_null(""));
    assert!(is_empty_or_null("   "));
    assert!(is_empty_or_null("null"));
    assert!(is_empty_or_null("NULL"));
    assert!(is_empty_or_null("  NuLl  "));
    assert!(!is_empty_or_null("0"));
    assert!(!is_empty_or_null("nulls"));
    assert!(!is_empty_or_null("none"));
}

#[test]
fn test_normalize_value() {
    assert_eq!(normalize_value_with_empty_vs_null("  Hello ", true, true, false), "Hello");
    assert_eq!(normalize_value_with_empty_vs_null("  Hello ", true, false, false), "  Hello ");
    assert_eq!(normalize_value_with_empty_vs_null("HeLLo", false, false, false), "hello");
    assert_eq!(normalize_value_with_empty_vs_null("", true, false, true), "EMPTY_OR_NULL");
    assert_eq!(normalize_value_with_empty_vs_null(" null ", true, true, true), "EMPTY_OR_NULL");
    assert_eq!(normalize_value_with_empty_vs_null("null", true, false, false), "null");
    assert_eq!(normalize_value_cow("Wide  Space", true, true, false), "Wide  Space");
}

#[test]
fn test_levenshtein_distance() {
    assert_eq!(levenshtein(&chars("kitten"), &chars("sitting")), 3);
    assert_eq!(levenshtein(&chars(""), &chars("abc")), 3);
    assert_eq!(levenshtein(&chars("abc"), &chars("")), 3);
    assert_eq!(levenshtein(&chars("same"), &chars("same")), 0);
    assert_eq!(levenshtein(&chars("flaw"), &chars("lawn")), 2);
}

#[test]
fn test_similarity_scale() {
    // 1000 - ceil(1000 * 3 / 7) = 1000 - 429
    assert_eq!(lev_similarity(&chars("kitten"), &chars("sitting")), 571);
    assert_eq!(lev_similarity(&chars("same"), &chars("same")), 1000);
    assert_eq!(lev_similarity(&chars(""), &chars("")), 1000);
    assert_eq!(lev_similarity(&chars("a"), &chars("b")), 0);
    // base 1000 - ceil(2000 / 6) = 666, plus four prefix tenths of the gap
    assert_eq!(short_similarity(&chars("Alice"), &chars("Alicia")), 799);
    // an adjacent swap costs one operation for the short metric, two for
    // the plain edit distance
    assert_eq!(osa_distance(&chars("ab"), &chars("ba")), 1);
    assert_eq!(levenshtein(&chars("ab"), &chars("ba")), 2);
    assert_eq!(short_similarity(&chars("ab"), &chars("ba")), 500);
    assert_eq!(osa_distance(&chars("flaw"), &chars("lawn")), 2);
    assert_eq!(short_similarity(&chars("Alice"), &chars("Alice")), 1000);
    assert!(short_similarity(&chars("Alice"), &chars("Bob")) < 500);
    // at most twenty characters per side picks the prefix-rewarding metric
    assert_eq!(
        cell_similarity(&chars("Alice"), &chars("Alicia")),
        short_similarity(&chars("Alice"), &chars("Alicia"))
    );
    let long_a = chars("this value runs well past twenty characters");
    let long_b = chars("this value runs well past twenty character!");
    assert_eq!(cell_similarity(&long_a, &long_b), lev_similarity(&long_a, &long_b));
}

#[test]
fn test_parse_csv_with_headers() {
    let csv = "id,name,age\n1,Alice,30\n2,Bob,25";
    let result = parse_csv_internal(csv, true);
    assert!(result.is_ok());

    let ds = result.unwrap();
    assert_eq!(ds.headers, vec!["id", "name", "age"]);
    assert_eq!(ds.rows.len(), 2);
    assert_eq!(ds.header_map.get("id"), Some(&0));
    assert_eq!(ds.header_map.get("name"), Some(&1));
    assert_eq!(ds.header_map.get("age"), Some(&2));
}

#[test]
fn test_parse_csv_without_headers() {
    let csv = "1,Alice,30\n2,Bob,25";
    let result = parse_csv_internal(csv, false);
    assert!(result.is_ok());

    let ds = result.unwrap();
    assert_eq!(ds.headers, vec!["Column1", "Column2", "Column3"]);
    assert_eq!(ds.rows.len(), 2);
    assert_eq!(ds.header_map.get("Column1"), Some(&0));
    assert_eq!(ds.header_map.get("Column2"), Some(&1));
    assert_eq!(ds.header_map.get("Column3"), Some(&2));
}

#[test]
fn test_parse_csv_auto_header_detection() {
    let csv = "1,2,3\nAlice,30,NYC\nBob,25,LA";
    let result = parse_csv_internal(csv, true);
    assert!(result.is_ok());

    let ds = result.unwrap();
    assert_eq!(ds.headers, vec!["Column1", "Column2", "Column3"]);
    assert_eq!(ds.rows.len(), 3);
    assert_eq!(ds.header_map.get("Column1"), Some(&0));
}

#[test]
fn test_parse_csv_empty() {
    let csv = "";
    let result = parse_csv_internal(csv, true);
    assert!(result.is_ok());

    let ds = result.unwrap();
    assert_eq!(ds.headers, Vec::<String>::new());
    assert_eq!(ds.rows.len(), 0);
    assert_eq!(ds.header_map.len(), 0);
}

#[test]
fn test_dec_string() {
    assert_eq!(dec_string(0), "0");
    assert_eq!(dec_string(7), "7");
    assert_eq!(dec_string(10), "10");
    assert_eq!(dec_string(90210), "90210");
}

#[test]
fn test_resolve_matches_claims_each_row_once() {
    let pairs = vec![
        ScoredPair { source_index: 0, target_index: 0, score: 900 },
        ScoredPair { source_index: 0, target_index: 1, score: 800 },
        ScoredPair { source_index: 1, target_index: 0, score: 700 },
        ScoredPair { source_index: 1, target_index: 1, score: 600 },
        ScoredPair { source_index: 2, target_index: 2, score: 400 },
    ];
    let chosen = resolve_matches(&pairs);
    // the top pair wins its rows, the remaining pair of free rows follows,
    // and the below-threshold pair is never accepted
    assert_eq!(chosen.len(), 2);
    assert_eq!(chosen[0].source_index, 0);
    assert_eq!(chosen[0].target_index, 0);
    assert_eq!(chosen[1].source_index, 1);
    assert_eq!(chosen[1].target_index, 1);
    for a in 0..chosen.len() {
        for b in (a + 1)..chosen.len() {
            assert_ne!(chosen[a].source_index, chosen[b].source_index);
            assert_ne!(chosen[a].target_index, chosen[b].target_index);
        }
    }
}

#[test]
fn test_streaming_config() {
    let config = StreamingConfig::new(1000);
    assert_eq!(config.chunk_size, 1000);
    assert!(config.enable_progress_updates);

    let config2 = StreamingConfig::default().with_progress_interval(5);
    assert_eq!(config2.progress_update_interval, 5);
}

#[test]
fn test_streaming_diff_result() {
    let mut result = StreamingDiffResult::new(100, 150);
    assert_eq!(result.total_source_rows, 100);
    assert_eq!(result.total_target_rows, 150);
    assert_eq!(result.total_processed, 0);

    result.total_processed = 75;
    let mut other = StreamingDiffResult::new(100, 150);
    other.total_processed = 25;
    result.merge(other);
    assert_eq!(result.total_processed, 100);
}

#[test]
fn test_profiler_and_memory_tracker() {
    let mut profiler = Profiler::new();
    profiler.checkpoint("parse".to_string());
    profiler.checkpoint("compare".to_string());
    assert_eq!(profiler.checkpoints.len(), 2);
    assert_eq!(profiler.checkpoints[0].0, "parse");
    assert_eq!(profiler.checkpoints[1].0, "compare");
    profiler.log();

    let tracker = MemoryTracker::new();
    assert_eq!(tracker.initial, 0);
}

#[test]
fn test_row_key_and_fingerprint_formats() {
    let headers = vec!["a".to_string(), "b".to_string(), "c".to_string()];
    let map = build_header_map(&headers);
    let row = vec!["1".to_string(), "x".to_string(), "y".to_string()];

    let key = get_row_key(&row, &map, &vec!["a".to_string(), "c".to_string()], true, false, false);
    assert_eq!(key, "1|y");

    let fp = get_row_fingerprint(&row, &headers, &map, true, false, false, &vec![]);
    assert_eq!(fp, "1||x||y");

    let fp_excluded =
        get_row_fingerprint(&row, &headers, &map, true, false, false, &vec!["b".to_string()]);
    assert_eq!(fp_excluded, "1||y");

    let folded = get_row_fingerprint(&row, &headers, &map, false, false, false, &vec![]);
    assert_eq!(folded, "1||x||y");
}
