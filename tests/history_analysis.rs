use deltective::stats::{last_operation_of, last_vacuum_time, oldest_read_version, total_file_size, FileInfo, TableMetadata, TableStatistics};
use deltective::timeline::{group_positions, millis_to_secs, tally, timeline_analysis, CommitRecord};

fn commit(ms: i64, op: &str, read: Option<i64>) -> CommitRecord {
    CommitRecord {
        timestamp: Some(ms),
        operation: Some(op.to_string()),
        read_version: read,
        parameters: vec![("mode".to_string(), "Append".to_string())],
    }
}

const DAY_MS: i64 = 86_400_000;

#[test]
fn tally_counts_each_label_once() {
    let labels: Vec<String> = ["WRITE", "MERGE", "WRITE", "DELETE", "WRITE"].iter().map(|s| s.to_string()).collect();
    let t = tally(&labels);
    assert_eq!(
        t,
        vec![("WRITE".to_string(), 3), ("MERGE".to_string(), 1), ("DELETE".to_string(), 1)]
    );
    assert!(tally(&Vec::new()).is_empty());
}

#[test]
fn grouping_lists_positions() {
    let labels: Vec<String> = ["b", "a", "b", "c", "a"].iter().map(|s| s.to_string()).collect();
    let g = group_positions(&labels);
    assert_eq!(
        g,
        vec![("b".to_string(), vec![0, 2]), ("a".to_string(), vec![1, 4]), ("c".to_string(), vec![3])]
    );
}

#[test]
fn empty_history_timeline() {
    let t = timeline_analysis(&Vec::new());
    assert_eq!(t.total_operations, 0);
    assert!(t.operations_by_type.is_empty());
    assert!(t.write_patterns.is_empty());
    assert!(t.first_operation.is_none());
    assert!(t.latest_operation.is_none());
    assert_eq!(t.days_elapsed, 1);
}

#[test]
fn timeline_groups_by_type_and_day() {
    let h = vec![
        commit(2 * DAY_MS + 5000, "WRITE", Some(2)),
        commit(2 * DAY_MS, "OPTIMIZE", Some(1)),
        commit(0, "CREATE TABLE", None),
    ];
    let t = timeline_analysis(&h);
    assert_eq!(t.total_operations, 3);
    assert_eq!(t.operations_by_type.len(), 3);
    assert_eq!(
        t.operations_by_day,
        vec![("1970-01-03".to_string(), vec![0, 1]), ("1970-01-01".to_string(), vec![2])]
    );
    assert_eq!(t.days_elapsed, 2);
    assert_eq!(t.creation_rate_hundredths(), 150);
    assert_eq!(t.first_operation.as_ref().unwrap().operation.as_deref(), Some("CREATE TABLE"));
    assert_eq!(t.latest_operation.as_ref().unwrap().operation.as_deref(), Some("WRITE"));
}

#[test]
fn missing_operation_is_unknown() {
    let mut c = commit(0, "WRITE", None);
    c.operation = None;
    let t = timeline_analysis(&vec![c]);
    assert_eq!(t.operations_by_type, vec![("Unknown".to_string(), 1)]);
}

#[test]
fn streaming_writes() {
    let h: Vec<CommitRecord> = (0..5).rev().map(|i| commit(i * 60_000, "WRITE", None)).collect();
    let t = timeline_analysis(&h);
    assert_eq!(t.write_patterns, vec!["Streaming pattern: writes every few minutes".to_string()]);
}

#[test]
fn batch_writes() {
    let h: Vec<CommitRecord> = (0..4).rev().map(|i| commit(i * 2 * DAY_MS, "MERGE", None)).collect();
    let t = timeline_analysis(&h);
    assert_eq!(t.write_patterns, vec!["Batch pattern: writes once per day or less".to_string()]);
}

#[test]
fn hourly_writes_have_no_pattern() {
    let mut h: Vec<CommitRecord> = (0..4).rev().map(|i| commit(i * 3_600_000, "UPDATE", None)).collect();
    h.push(commit(0, "VACUUM START", None));
    let t = timeline_analysis(&h);
    assert!(t.write_patterns.is_empty());
}

#[test]
fn single_write_has_no_pattern() {
    let t = timeline_analysis(&vec![commit(0, "WRITE", None), commit(0, "OPTIMIZE", None)]);
    assert!(t.write_patterns.is_empty());
}

#[test]
fn millis_round_toward_zero() {
    assert_eq!(millis_to_secs(1999), 1);
    assert_eq!(millis_to_secs(-1999), -1);
    assert_eq!(millis_to_secs(i64::MIN), -9223372036854775);
}

#[test]
fn last_vacuum_is_first_vacuum_of_history() {
    let h = vec![
        commit(9_000, "WRITE", Some(3)),
        commit(8_000, "VACUUM", Some(2)),
        commit(5_000, "VACUUM", Some(1)),
    ];
    assert_eq!(last_vacuum_time(&h), Some(8));
    assert_eq!(last_vacuum_time(&vec![commit(1, "WRITE", None)]), None);
}

#[test]
fn oldest_version_from_history() {
    let h = vec![commit(3, "WRITE", Some(7)), commit(2, "WRITE", None), commit(1, "WRITE", Some(4))];
    assert_eq!(oldest_read_version(&h), 4);
    assert_eq!(oldest_read_version(&vec![commit(1, "WRITE", None)]), 0);
}

#[test]
fn last_operation_summary() {
    let h = vec![commit(7_500, "MERGE", None), commit(1_000, "WRITE", None)];
    let op = last_operation_of(&h).unwrap();
    assert_eq!(op.operation, "MERGE");
    assert_eq!(op.timestamp, 7);
    assert_eq!(op.parameters, vec![("mode".to_string(), "Append".to_string())]);
    assert!(last_operation_of(&Vec::new()).is_none());
}

fn sized(size: i64) -> FileInfo {
    FileInfo { path: "f".to_string(), size_bytes: size, modification_time: 0, partition_values: Vec::new() }
}

#[test]
fn total_size_and_overflow() {
    assert_eq!(total_file_size(&vec![sized(3), sized(4)]), Some(7));
    assert_eq!(total_file_size(&vec![sized(i64::MAX), sized(1)]), None);
    assert_eq!(total_file_size(&vec![sized(-1)]), None);
}

#[test]
fn well_formed_snapshot() {
    let mut st = TableStatistics {
        table_path: "t".to_string(),
        version: 0,
        num_files: 2,
        total_size_bytes: 7,
        schema: Vec::new(),
        partition_columns: Vec::new(),
        num_rows: None,
        files: vec![sized(3), sized(4)],
        metadata: TableMetadata { id: None, name: None, description: None, created_time: None },
        total_versions: 1,
        oldest_version: 0,
        min_reader_version: 1,
        min_writer_version: 2,
        reader_features: Vec::new(),
        writer_features: Vec::new(),
        created_time: None,
        last_operation: None,
        last_vacuum: None,
    };
    assert!(st.is_well_formed());
    st.total_size_bytes = 8;
    assert!(!st.is_well_formed());
}
