use deltective::analyzer::{analyze_at, DeltaTableAnalyzer};
use deltective::insights::{Category, Insight, Severity};
use deltective::rules::count_partitions;
use deltective::stats::{FileInfo, TableMetadata, TableStatistics};

const MIB: i64 = 1024 * 1024;
const DAY: i64 = 86400;
const NOW: i64 = 1_700_000_000;

fn file(size: i64) -> FileInfo {
    FileInfo {
        path: format!("part-{}.parquet", size),
        size_bytes: size,
        modification_time: 0,
        partition_values: Vec::new(),
    }
}

fn part_file(size: i64, pairs: &[(&str, &str)]) -> FileInfo {
    let mut f = file(size);
    f.partition_values = pairs.iter().map(|(k, v)| (k.to_string(), v.to_string())).collect();
    f
}

fn stats(files: Vec<FileInfo>, versions: usize, last_vacuum: Option<i64>) -> TableStatistics {
    let total: i64 = files.iter().map(|f| f.size_bytes).sum();
    TableStatistics {
        table_path: "/tmp/table".to_string(),
        version: versions as i64 - 1,
        num_files: files.len(),
        total_size_bytes: total,
        schema: vec![("id".to_string(), "Int64".to_string())],
        partition_columns: Vec::new(),
        num_rows: None,
        files,
        metadata: TableMetadata { id: None, name: None, description: None, created_time: None },
        total_versions: versions,
        oldest_version: 0,
        min_reader_version: 1,
        min_writer_version: 2,
        reader_features: Vec::new(),
        writer_features: Vec::new(),
        created_time: None,
        last_operation: None,
        last_vacuum,
    }
}

fn titles(r: &[Insight]) -> Vec<String> {
    r.iter().map(|i| i.title.clone()).collect()
}

fn rank(s: Severity) -> u8 {
    match s {
        Severity::Critical => 0,
        Severity::Warning => 1,
        Severity::Info => 2,
        Severity::Good => 3,
    }
}

#[test]
fn ten_small_files_give_critical_then_warning() {
    let st = stats((0..10).map(|_| file(5 * MIB)).collect(), 1, None);
    let r = analyze_at(&st, NOW);
    assert_eq!(titles(&r), vec!["Small Files Problem Detected", "Suboptimal Average File Size"]);
    assert_eq!(r[0].severity, Severity::Critical);
    assert_eq!(r[1].severity, Severity::Warning);
    assert_eq!(r[0].category, Category::Performance);
    assert_eq!(
        r[0].description,
        "100.0% of files (10/10) are smaller than 10MB. Average file size: 5.00MB. Small files severely impact query performance."
    );
    assert_eq!(r[1].description, "Average file size (5.00MB) is much smaller than optimal (128MB).");
}

#[test]
fn some_small_files_give_a_warning() {
    let mut files: Vec<FileInfo> = (0..3).map(|_| file(MIB)).collect();
    files.extend((0..7).map(|_| file(200 * MIB)));
    let r = analyze_at(&stats(files, 1, None), NOW);
    assert_eq!(r[0].title, "Some Small Files Detected");
    assert_eq!(r[0].severity, Severity::Warning);
    assert_eq!(r[0].description, "30.0% of files are smaller than 10MB. Average file size: 140.30MB.");
    assert!(!titles(&r).contains(&"Suboptimal Average File Size".to_string()));
}

#[test]
fn no_files_give_no_size_findings() {
    let r = analyze_at(&stats(Vec::new(), 0, None), NOW);
    assert_eq!(titles(&r), vec!["Table Configuration Looks Good"]);
    assert_eq!(r[0].severity, Severity::Good);
    assert_eq!(r[0].description, "No significant configuration issues detected.");
}

#[test]
fn never_vacuumed_with_fifteen_versions() {
    for n in [0usize, 1, 40] {
        let files = (0..n).map(|_| file(200 * MIB)).collect();
        let r = analyze_at(&stats(files, 15, None), NOW);
        let v: Vec<&Insight> = r.iter().filter(|i| i.title == "Table Has Never Been Vacuumed").collect();
        assert_eq!(v.len(), 1);
        assert_eq!(v[0].severity, Severity::Warning);
        assert_eq!(v[0].category, Category::Cost);
        assert!(v[0].description.starts_with("Table has 15 versions but has never been vacuumed."));
    }
}

#[test]
fn vacuum_thirty_days_ago_is_overdue() {
    let r = analyze_at(&stats(vec![file(200 * MIB)], 15, Some(NOW - 30 * DAY)), NOW);
    let v: Vec<&Insight> = r.iter().filter(|i| i.title == "Vacuum Overdue").collect();
    assert_eq!(v.len(), 1);
    assert_eq!(v[0].severity, Severity::Warning);
    assert_eq!(v[0].description, "Last vacuum was 30 days ago. Old data files may be accumulating.");
    assert!(!titles(&r).contains(&"Table Has Never Been Vacuumed".to_string()));
}

#[test]
fn vacuum_three_days_ago_is_fine() {
    let r = analyze_at(&stats(vec![file(200 * MIB)], 15, Some(NOW - 3 * DAY)), NOW);
    assert!(r.iter().all(|i| i.category != Category::Cost));
}

#[test]
fn vacuum_twenty_eight_days_ago_is_not_overdue() {
    let r = analyze_at(&stats(vec![file(200 * MIB)], 2, Some(NOW - 28 * DAY - 3600)), NOW);
    assert!(!titles(&r).contains(&"Vacuum Overdue".to_string()));
}

#[test]
fn healthy_table_has_one_good_and_only_info() {
    let files = (0..4).map(|_| file(200 * MIB)).collect();
    let r = analyze_at(&stats(files, 15, Some(NOW - DAY)), NOW);
    assert_eq!(titles(&r), vec!["Many Small Writes Detected", "Table Configuration Looks Good"]);
    assert_eq!(r[0].severity, Severity::Info);
    assert_eq!(
        r[0].description,
        "Table has 15 versions with ~0.3 files added per write on average. Frequent small writes create many small files."
    );
    assert_eq!(r.iter().filter(|i| i.severity == Severity::Good).count(), 1);
}

#[test]
fn report_is_ordered_by_severity() {
    let mut files: Vec<FileInfo> = (0..1001).map(|_| file(MIB)).collect();
    files.push(file(900 * MIB));
    let st = stats(files, 25, None);
    let r = analyze_at(&st, NOW);
    assert!(r.windows(2).all(|w| rank(w[0].severity) <= rank(w[1].severity)));
    assert_eq!(r[0].severity, Severity::Critical);
    let t = titles(&r);
    for want in [
        "Small Files Problem Detected",
        "Suboptimal Average File Size",
        "High File Count",
        "Table Has Never Been Vacuumed",
        "Data Skew Detected",
        "Consider Regular Optimization",
    ] {
        assert!(t.contains(&want.to_string()), "missing {}", want);
    }
    assert!(!t.contains(&"Table Configuration Looks Good".to_string()));
    let warnings: Vec<String> =
        r.iter().filter(|i| i.severity == Severity::Warning).map(|i| i.title.clone()).collect();
    assert_eq!(
        warnings,
        vec![
            "Suboptimal Average File Size",
            "High File Count",
            "Table Has Never Been Vacuumed",
            "Data Skew Detected"
        ]
    );
}

#[test]
fn same_input_same_report() {
    let st = stats((0..10).map(|i| file((i + 1) * 3 * MIB)).collect(), 30, Some(NOW - 40 * DAY));
    let a = analyze_at(&st, NOW);
    let b = analyze_at(&st, NOW);
    assert_eq!(titles(&a), titles(&b));
    let da: Vec<String> = a.iter().map(|i| i.description.clone()).collect();
    let db: Vec<String> = b.iter().map(|i| i.description.clone()).collect();
    assert_eq!(da, db);
}

#[test]
fn high_file_count_text() {
    let st = stats((0..1001).map(|_| file(200 * MIB)).collect(), 1, None);
    let r = analyze_at(&st, NOW);
    let h: Vec<&Insight> = r.iter().filter(|i| i.title == "High File Count").collect();
    assert_eq!(
        h[0].description,
        "Table has 1001 files. Recommended maximum is ~1000 files. High file count increases metadata overhead and slows queries."
    );
}

#[test]
fn large_unpartitioned_table() {
    let st = stats(vec![file(11 * 1024 * MIB)], 1, None);
    let r = analyze_at(&st, NOW);
    let p: Vec<&Insight> = r.iter().filter(|i| i.title == "Table Not Partitioned").collect();
    assert_eq!(p.len(), 1);
    assert_eq!(p[0].severity, Severity::Info);
    assert!(p[0].description.starts_with("Table is 11.00 GB but has no partitioning."));
}

#[test]
fn under_partitioned_table() {
    let files: Vec<FileInfo> = (0..202).map(|i| part_file(200 * MIB, &[("day", if i % 2 == 0 { "1" } else { "2" })])).collect();
    let mut st = stats(files, 1, None);
    st.partition_columns = vec!["day".to_string()];
    let r = analyze_at(&st, NOW);
    let p: Vec<&Insight> = r.iter().filter(|i| i.title == "Under-Partitioned Table").collect();
    assert_eq!(p.len(), 1);
    assert_eq!(
        p[0].description,
        "Table has only 2 partition(s) with 101 files per partition on average. More granular partitioning could improve query performance."
    );
}

#[test]
fn over_partitioned_table() {
    let files: Vec<FileInfo> = (0..1500).map(|i| part_file(200 * MIB, &[("id", &i.to_string())])).collect();
    let mut st = stats(files, 1, None);
    st.partition_columns = vec!["id".to_string()];
    let r = analyze_at(&st, NOW);
    let p: Vec<&Insight> = r.iter().filter(|i| i.title == "Over-Partitioned Table").collect();
    assert_eq!(p.len(), 1);
    assert_eq!(p[0].severity, Severity::Warning);
    assert!(p[0].description.starts_with("Table has 1500 partitions with average 1.0 files per partition."));
}

#[test]
fn partition_order_does_not_matter() {
    let files = vec![
        part_file(1, &[("a", "1"), ("b", "2")]),
        part_file(1, &[("b", "2"), ("a", "1")]),
        part_file(1, &[("a", "2"), ("b", "2")]),
    ];
    assert_eq!(count_partitions(&files), 2);
}

#[test]
fn skewed_sizes() {
    let st = stats(vec![file(100 * MIB), file(500 * MIB)], 1, None);
    let r = analyze_at(&st, NOW);
    let s: Vec<&Insight> = r.iter().filter(|i| i.title == "Data Skew Detected").collect();
    assert_eq!(s.len(), 1);
    assert_eq!(
        s[0].description,
        "High variance in file sizes detected (CV: 0.67). File sizes range from 100.00 MB to 500.00 MB. This indicates data skew which can cause uneven processing."
    );
}

#[test]
fn cv_rounds_to_nearest_hundredth() {
    let st = stats(vec![file(1024), file(1024 * 1024)], 1, None);
    let r = analyze_at(&st, NOW);
    let s: Vec<&Insight> = r.iter().filter(|i| i.title == "Data Skew Detected").collect();
    assert_eq!(
        s[0].description,
        "High variance in file sizes detected (CV: 1.00). File sizes range from 1.00 KB to 1.00 MB. This indicates data skew which can cause uneven processing."
    );
}

#[test]
fn cv_of_one_half_is_not_skew() {
    let st = stats(vec![file(100 * MIB), file(300 * MIB)], 1, None);
    let r = analyze_at(&st, NOW);
    assert!(!titles(&r).contains(&"Data Skew Detected".to_string()));
}

#[test]
fn equal_zero_sizes_are_not_skew() {
    let st = stats(vec![file(0), file(0), file(0)], 1, None);
    let r = analyze_at(&st, NOW);
    assert!(!titles(&r).contains(&"Data Skew Detected".to_string()));
    assert_eq!(r[0].title, "Small Files Problem Detected");
}

#[test]
fn optimization_cadence() {
    let st = stats((0..5000).map(|_| file(200 * MIB)).collect(), 21, Some(NOW));
    let r = analyze_at(&st, NOW);
    let o: Vec<&Insight> = r.iter().filter(|i| i.title == "Consider Regular Optimization").collect();
    assert_eq!(o[0].category, Category::Maintenance);
    assert_eq!(o[0].description, "Table has 21 versions and 5000 files. Regular optimization can maintain performance.");
}

#[test]
fn declared_count_must_match_files() {
    let mut st = stats(vec![file(200 * MIB)], 1, None);
    assert!(st.is_well_formed());
    st.num_files = 2;
    assert!(!st.is_well_formed());
}

#[test]
fn repeated_keys_are_not_well_formed() {
    let mut st = stats(vec![file(200 * MIB)], 1, None);
    st.schema.push(("id".to_string(), "Utf8".to_string()));
    assert!(!st.is_well_formed());
    let mut st2 = stats(vec![part_file(1, &[("a", "1"), ("a", "2")])], 1, None);
    assert!(!st2.is_well_formed());
    st2.files[0].partition_values.pop();
    assert!(st2.is_well_formed());
}

#[test]
fn analyzer_reads_the_clock() {
    let st = stats(vec![file(200 * MIB)], 2, Some(0));
    let r = DeltaTableAnalyzer::new(st).analyze();
    assert!(titles(&r).contains(&"Vacuum Overdue".to_string()));
}

#[test]
fn severity_labels_round_trip() {
    for s in [Severity::Critical, Severity::Warning, Severity::Info, Severity::Good] {
        assert_eq!(Severity::from_label(s.label()), Some(s));
    }
    assert_eq!(Severity::from_label("urgent"), None);
    assert_eq!(Category::Cost.label(), "cost");
}
