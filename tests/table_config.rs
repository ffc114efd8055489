use deltective::config::{detect_advanced_features, has_unique_keys, parse_i32, property, trim_text, remove_text, starts_with_text, summarize_log, LogFile};
use deltective::location::is_remote_path;

fn props(pairs: &[(&str, &str)]) -> Vec<(String, String)> {
    pairs.iter().map(|(k, v)| (k.to_string(), v.to_string())).collect()
}

#[test]
fn defaults_without_properties() {
    let f = detect_advanced_features(&Vec::new(), &Vec::new());
    assert!(!f.deletion_vectors);
    assert!(!f.column_mapping.enabled);
    assert_eq!(f.column_mapping.mode, "none");
    assert!(!f.liquid_clustering);
    assert!(f.check_constraints.is_empty());
    assert!(!f.auto_optimize.enabled);
    assert!(f.data_skipping.enabled);
    assert_eq!(f.data_skipping.num_indexed_cols, 32);
    assert!(!f.change_data_feed);
    assert_eq!(f.vacuum_retention_hours, 168);
}

#[test]
fn features_from_properties() {
    let cfg = props(&[
        ("delta.columnMapping.mode", "name"),
        ("delta.constraints.positive", "id > 0"),
        ("delta.autoOptimize.optimizeWrite", "true"),
        ("delta.autoOptimize.autoCompact", "false"),
        ("delta.dataSkippingNumIndexedCols", "16"),
        ("delta.enableChangeDataFeed", "true"),
        ("delta.deletedFileRetentionDuration", " 72 hours"),
        ("clustering", "a,b"),
    ]);
    let writers = vec!["deletionVectors".to_string(), "timestampNtz".to_string()];
    let f = detect_advanced_features(&cfg, &writers);
    assert!(f.deletion_vectors);
    assert!(f.timestamp_ntz);
    assert!(f.column_mapping.enabled);
    assert_eq!(f.column_mapping.mode, "name");
    assert!(f.liquid_clustering);
    assert_eq!(f.check_constraints, props(&[("delta.constraints.positive", "id > 0")]));
    assert!(f.auto_optimize.enabled);
    assert!(f.auto_optimize.optimize_write);
    assert!(!f.auto_optimize.auto_compact);
    assert_eq!(f.data_skipping.num_indexed_cols, 16);
    assert!(f.change_data_feed);
    assert_eq!(f.vacuum_retention_hours, 72);
}

#[test]
fn unreadable_numbers_fall_back() {
    let cfg = props(&[
        ("delta.dataSkippingNumIndexedCols", "many"),
        ("delta.deletedFileRetentionDuration", "interval 7 days"),
    ]);
    let f = detect_advanced_features(&cfg, &Vec::new());
    assert_eq!(f.data_skipping.num_indexed_cols, 32);
    assert_eq!(f.vacuum_retention_hours, 168);
    let neg = detect_advanced_features(&props(&[("delta.dataSkippingNumIndexedCols", "-1")]), &Vec::new());
    assert_eq!(neg.data_skipping.num_indexed_cols, -1);
}

#[test]
fn text_helpers() {
    assert!(starts_with_text("delta.constraints.x", "delta.constraints."));
    assert!(!starts_with_text("delta", "delta.constraints."));
    assert_eq!(remove_text("72hours hours", "hours"), "72 ");
    assert_eq!(remove_text("72 hours", ""), "72 hours");
    let cfg = props(&[("a", "1"), ("c", "2")]);
    assert_eq!(property(&cfg, "a").map(|s| s.as_str()), Some("1"));
    assert_eq!(property(&cfg, "b"), None);
}

fn log_file(name: &str, size: u64, modified: u128) -> LogFile {
    LogFile { path: format!("/data/t/_delta_log/{}", name), name: name.to_string(), size_bytes: size, modified_nanos: modified }
}

#[test]
fn log_summary() {
    let files = vec![
        log_file("00000000000000000000.json", 100, 1),
        log_file("00000000000000000001.json", 50, 2),
        log_file("00000000000000000010.checkpoint.parquet", 4000, 5),
        log_file("00000000000000000020.checkpoint.parquet", 3000, 5),
        log_file("_last_checkpoint", 20, 3),
        log_file(".json", 7, 1),
    ];
    let (c, l) = summarize_log(&files);
    assert_eq!(l.num_json_files, 2);
    assert_eq!(l.num_checkpoints, 3);
    assert_eq!(l.log_size_bytes, 150);
    assert!(c.has_checkpoints);
    assert_eq!(c.latest_checkpoint.as_deref(), Some("00000000000000000020.checkpoint.parquet"));
    assert_eq!(c.checkpoint_size_bytes, 3000);
}

#[test]
fn checkpoints_apart_by_nanoseconds() {
    let files = vec![
        log_file("00000000000000000020.checkpoint.parquet", 3000, 5_000_000_001),
        log_file("00000000000000000010.checkpoint.parquet", 4000, 5_000_000_000),
    ];
    let (c, _) = summarize_log(&files);
    assert_eq!(c.latest_checkpoint.as_deref(), Some("00000000000000000020.checkpoint.parquet"));
}

#[test]
fn duplicate_keys_are_found() {
    assert!(has_unique_keys(&props(&[("a", "1"), ("b", "1")])));
    assert!(!has_unique_keys(&props(&[("a", "1"), ("b", "1"), ("a", "2")])));
    assert!(has_unique_keys(&Vec::new()));
}

#[test]
fn empty_log() {
    let (c, l) = summarize_log(&Vec::new());
    assert!(!c.has_checkpoints);
    assert!(c.latest_checkpoint.is_none());
    assert_eq!(l.num_json_files, 0);
}

#[test]
fn remote_locations() {
    assert!(is_remote_path("abfss://container@account.dfs.core.windows.net/t"));
    assert!(is_remote_path("az://container/t"));
    assert!(!is_remote_path("/data/az://t"));
    assert!(!is_remote_path("./table"));
}

#[test]
fn integers_are_read_like_std() {
    for t in ["0", "+5", "-0", "007", "2147483647", "-2147483648", "", "-", "+", "1a", "2147483648", "-2147483649", " 1", "99999999999999999999"] {
        assert_eq!(parse_i32(t), t.parse::<i32>().ok(), "{:?}", t);
    }
}

#[test]
fn trimming_matches_std() {
    for t in ["", "   ", " 72 ", "\t72\n", "\u{3000}a b\u{a0}", "x", "\u{200b}y"] {
        assert_eq!(trim_text(t), t.trim(), "{:?}", t);
    }
}
