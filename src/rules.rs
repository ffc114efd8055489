//! The seven rules of the engine, each as a specification of what it finds
//! and a function that finds it.

use vstd::prelude::*;
use crate::stats::{TableStatistics, FileInfo, sum_sizes, lemma_sum_sizes_prefix};
use crate::text::{decimal, fixed_point, round_div, bytes_text, push_decimal, push_fixed, round_div_exec, format_bytes};
use crate::insights::{Insight, InsightModel, Severity, Category, finding, models, make, push_insight as push};

verus! {

/// Above this many files a table has a high file count.
pub const MAX_RECOMMENDED_FILES: usize = 1000;

/// Above this total size an unpartitioned table should be partitioned.
pub const PARTITIONING_THRESHOLD_BYTES: i64 = 10737418240;

// ---------------------------------------------------------------------------
// File count

/// A Warning when the table has more than 1000 files.
pub open spec fn file_count_findings(st: TableStatistics) -> Seq<InsightModel> {
    if st.num_files > 1000 {
        seq![
            finding(
                Severity::Warning,
                Category::Performance,
                "High File Count"@,
                "Table has "@ + decimal(st.num_files as nat)
                    + " files. Recommended maximum is ~1000 files. High file count increases metadata overhead and slows queries."@,
                "Run OPTIMIZE to reduce file count. Consider using Auto Optimize and adjusting partition strategy."@,
            ),
        ]
    } else {
        seq![]
    }
}

pub fn analyze_file_count(st: &TableStatistics, out: &mut Vec<Insight>)
    ensures
        models(final(out)@) == models(old(out)@) + file_count_findings(*st),
{
    if st.num_files > MAX_RECOMMENDED_FILES {
        let mut d = String::from_str("Table has ");
        push_decimal(&mut d, st.num_files as u128);
        d.append(" files. Recommended maximum is ~1000 files. High file count increases metadata overhead and slows queries.");
        let x = make(
            Severity::Warning,
            Category::Performance,
            "High File Count",
            d,
            "Run OPTIMIZE to reduce file count. Consider using Auto Optimize and adjusting partition strategy.",
        );
        push(out, x);
        assert(models(out@) =~= models(old(out)@) + file_count_findings(*st));
    } else {
        assert(models(out@) =~= models(old(out)@) + file_count_findings(*st));
    }
}

// ---------------------------------------------------------------------------
// Vacuum hygiene

/// The finding for a table with more than ten versions and no vacuum.
pub open spec fn never_vacuumed(versions: nat) -> InsightModel {
    finding(
        Severity::Warning,
        Category::Cost,
        "Table Has Never Been Vacuumed"@,
        "Table has "@ + decimal(versions)
            + " versions but has never been vacuumed. Old data files are accumulating, increasing storage costs."@,
        "Run VACUUM command to remove old data files. Set up periodic VACUUM jobs (weekly or monthly). Note: VACUUM deletes old versions permanently."@,
    )
}

/// The finding for a vacuum that is `days` whole days old.
pub open spec fn vacuum_overdue(days: nat) -> InsightModel {
    finding(
        Severity::Warning,
        Category::Cost,
        "Vacuum Overdue"@,
        "Last vacuum was "@ + decimal(days) + " days ago. Old data files may be accumulating."@,
        "Run VACUUM to clean up old files. Recommended vacuum frequency: every 7 days."@,
    )
}

/// Never vacuumed with more than ten versions, or last vacuumed more than
/// 28 whole days before `now`.
pub open spec fn vacuum_findings(st: TableStatistics, now: int) -> Seq<InsightModel> {
    match st.last_vacuum {
        None => if st.total_versions > 10 {
            seq![never_vacuumed(st.total_versions as nat)]
        } else {
            seq![]
        },
        Some(t) => if (now - t) / 86400 > 28 {
            seq![vacuum_overdue(((now - t) / 86400) as nat)]
        } else {
            seq![]
        },
    }
}

pub fn analyze_vacuum_history(st: &TableStatistics, now: i64, out: &mut Vec<Insight>)
    ensures
        models(final(out)@) == models(old(out)@) + vacuum_findings(*st, now as int),
{
    match st.last_vacuum {
        None => {
            if st.total_versions > 10 {
                let mut d = String::from_str("Table has ");
                push_decimal(&mut d, st.total_versions as u128);
                d.append(" versions but has never been vacuumed. Old data files are accumulating, increasing storage costs.");
                let x = make(
                    Severity::Warning,
                    Category::Cost,
                    "Table Has Never Been Vacuumed",
                    d,
                    "Run VACUUM command to remove old data files. Set up periodic VACUUM jobs (weekly or monthly). Note: VACUUM deletes old versions permanently.",
                );
                push(out, x);
            }
        },
        Some(t) => {
            let elapsed: i128 = now as i128 - t as i128;
            if elapsed >= 29 * 86400 {
                let days: u128 = (elapsed as u128) / 86400;
                assert(days == (now - t) / 86400);
                let mut d = String::from_str("Last vacuum was ");
                push_decimal(&mut d, days);
                d.append(" days ago. Old data files may be accumulating.");
                let x = make(
                    Severity::Warning,
                    Category::Cost,
                    "Vacuum Overdue",
                    d,
                    "Run VACUUM to clean up old files. Recommended vacuum frequency: every 7 days.",
                );
                push(out, x);
            } else {
                assert((now - t) / 86400 <= 28);
            }
        },
    }
    assert(models(out@) =~= models(old(out)@) + vacuum_findings(*st, now as int));
}

// ---------------------------------------------------------------------------
// Optimization cadence

/// An Info when there are more than 20 versions and more than 1000 files.
pub open spec fn optimization_findings(st: TableStatistics) -> Seq<InsightModel> {
    if st.total_versions > 20 && st.num_files > 1000 {
        seq![
            finding(
                Severity::Info,
                Category::Maintenance,
                "Consider Regular Optimization"@,
                "Table has "@ + decimal(st.total_versions as nat) + " versions and "@ + decimal(
                    st.num_files as nat,
                ) + " files. Regular optimization can maintain performance."@,
                "Set up periodic OPTIMIZE jobs (weekly or after major writes). Enable Auto Optimize for automatic compaction."@,
            ),
        ]
    } else {
        seq![]
    }
}

pub fn analyze_optimization_history(st: &TableStatistics, out: &mut Vec<Insight>)
    ensures
        models(final(out)@) == models(old(out)@) + optimization_findings(*st),
{
    if st.total_versions > 20 && st.num_files > MAX_RECOMMENDED_FILES {
        let mut d = String::from_str("Table has ");
        push_decimal(&mut d, st.total_versions as u128);
        d.append(" versions and ");
        push_decimal(&mut d, st.num_files as u128);
        d.append(" files. Regular optimization can maintain performance.");
        let x = make(
            Severity::Info,
            Category::Maintenance,
            "Consider Regular Optimization",
            d,
            "Set up periodic OPTIMIZE jobs (weekly or after major writes). Enable Auto Optimize for automatic compaction.",
        );
        push(out, x);
    }
    assert(models(out@) =~= models(old(out)@) + optimization_findings(*st));
}

// ---------------------------------------------------------------------------
// Write cadence

/// An Info when there are more than ten versions and fewer than five files
/// per version on average; the average is shown to one decimal.
pub open spec fn write_pattern_findings(st: TableStatistics) -> Seq<InsightModel> {
    if st.total_versions > 10 && st.num_files < 5 * st.total_versions {
        seq![
            finding(
                Severity::Info,
                Category::Performance,
                "Many Small Writes Detected"@,
                "Table has "@ + decimal(st.total_versions as nat) + " versions with ~"@
                    + fixed_point(round_div(10 * st.num_files as nat, st.total_versions as nat), 1)
                    + " files added per write on average. Frequent small writes create many small files."@,
                "Batch writes together when possible. Enable Auto Optimize to automatically compact small files. Consider using Delta's MERGE operation for incremental updates."@,
            ),
        ]
    } else {
        seq![]
    }
}

pub fn analyze_write_patterns(st: &TableStatistics, out: &mut Vec<Insight>)
    ensures
        models(final(out)@) == models(old(out)@) + write_pattern_findings(*st),
{
    if st.total_versions > 10 && (st.num_files as u128) < 5 * (st.total_versions as u128) {
        let mut d = String::from_str("Table has ");
        push_decimal(&mut d, st.total_versions as u128);
        d.append(" versions with ~");
        let tenths = round_div_exec(10 * (st.num_files as u128), st.total_versions as u128);
        push_fixed(&mut d, tenths, 1);
        d.append(" files added per write on average. Frequent small writes create many small files.");
        let x = make(
            Severity::Info,
            Category::Performance,
            "Many Small Writes Detected",
            d,
            "Batch writes together when possible. Enable Auto Optimize to automatically compact small files. Consider using Delta's MERGE operation for incremental updates.",
        );
        push(out, x);
    }
    assert(models(out@) =~= models(old(out)@) + write_pattern_findings(*st));
}

// ---------------------------------------------------------------------------
// Small files

/// Files under this size (10 MiB) are small.
pub const SMALL_FILE_BYTES: i64 = 10485760;

/// Bytes in a MiB.
pub const MIB: u128 = 1048576;

/// The number of small files in `fs`.
pub open spec fn count_small(fs: Seq<FileInfo>) -> nat
    decreases fs.len(),
{
    if fs.len() == 0 {
        0
    } else {
        count_small(fs.drop_last()) + if fs.last().size_bytes < 10485760 {
            1nat
        } else {
            0nat
        }
    }
}

/// More than half of the files are small: `pct` is their share in tenths of
/// a percent and `avg` the mean size in hundredths of a MiB.
pub open spec fn small_files_critical(pct: nat, small: nat, n: nat, avg: nat) -> InsightModel {
    finding(
        Severity::Critical,
        Category::Performance,
        "Small Files Problem Detected"@,
        fixed_point(pct, 1) + "% of files ("@ + decimal(small) + "/"@ + decimal(n)
            + ") are smaller than 10MB. Average file size: "@ + fixed_point(avg, 2)
            + "MB. Small files severely impact query performance."@,
        "Run OPTIMIZE command to compact small files. Target file size is ~128MB. Consider using Auto Optimize for future writes."@,
    )
}

/// More than a fifth, and at most half, of the files are small.
pub open spec fn small_files_warning(pct: nat, avg: nat) -> InsightModel {
    finding(
        Severity::Warning,
        Category::Performance,
        "Some Small Files Detected"@,
        fixed_point(pct, 1) + "% of files are smaller than 10MB. Average file size: "@
            + fixed_point(avg, 2) + "MB."@,
        "Consider running OPTIMIZE to improve performance. Monitor file sizes and run OPTIMIZE periodically."@,
    )
}

/// The mean file size is under 64 MiB, half the 128 MiB optimum.
pub open spec fn suboptimal_average(avg: nat) -> InsightModel {
    finding(
        Severity::Warning,
        Category::Performance,
        "Suboptimal Average File Size"@,
        "Average file size ("@ + fixed_point(avg, 2) + "MB) is much smaller than optimal (128MB)."@,
        "Run OPTIMIZE to compact files to optimal size. Configure Auto Optimize for future writes."@,
    )
}

/// The small-file findings: none for an empty file list; otherwise a
/// Critical when more than half of the files are small, else a Warning when
/// more than a fifth are, and independently a Warning when the mean size is
/// under 64 MiB.
pub open spec fn file_size_findings(st: TableStatistics) -> Seq<InsightModel> {
    let fs = st.files@;
    let n = fs.len();
    if n == 0 {
        seq![]
    } else {
        let small = count_small(fs);
        let total = sum_sizes(fs);
        let pct = round_div(1000 * small, n);
        let avg = round_div((100 * total) as nat, n * 1048576);
        (if 2 * small > n {
            seq![small_files_critical(pct, small, n, avg)]
        } else if 5 * small > n {
            seq![small_files_warning(pct, avg)]
        } else {
            seq![]
        }) + (if total < 67108864 * n {
            seq![suboptimal_average(avg)]
        } else {
            seq![]
        })
    }
}

fn small_file_count(fs: &Vec<FileInfo>) -> (r: usize)
    ensures
        r == count_small(fs@),
{
    let mut i: usize = 0;
    let mut c: usize = 0;
    while i < fs.len()
        invariant
            0 <= i <= fs@.len(),
            c == count_small(fs@.take(i as int)),
            c <= i,
        decreases fs@.len() - i,
    {
        assert(fs@.take(i + 1).drop_last() =~= fs@.take(i as int));
        if fs[i].size_bytes < SMALL_FILE_BYTES {
            c = c + 1;
        }
        i = i + 1;
    }
    assert(fs@.take(fs@.len() as int) =~= fs@);
    c
}

pub fn analyze_file_sizes(st: &TableStatistics, out: &mut Vec<Insight>)
    requires
        st.wf(),
    ensures
        models(final(out)@) == models(old(out)@) + file_size_findings(*st),
{
    let n = st.files.len();
    if n == 0 {
        assert(models(out@) =~= models(old(out)@) + file_size_findings(*st));
        return;
    }
    proof {
        lemma_sum_sizes_prefix(st.files@, 0);
    }
    let total = st.total_size_bytes as u128;
    let small = small_file_count(&st.files);
    let pct = round_div_exec(1000 * (small as u128), n as u128);
    let avg = round_div_exec(100 * total, (n as u128) * MIB);
    if 2 * (small as u128) > n as u128 {
        let mut d = String::new();
        push_fixed(&mut d, pct, 1);
        d.append("% of files (");
        push_decimal(&mut d, small as u128);
        d.append("/");
        push_decimal(&mut d, n as u128);
        d.append(") are smaller than 10MB. Average file size: ");
        push_fixed(&mut d, avg, 2);
        d.append("MB. Small files severely impact query performance.");
        let x = make(
            Severity::Critical,
            Category::Performance,
            "Small Files Problem Detected",
            d,
            "Run OPTIMIZE command to compact small files. Target file size is ~128MB. Consider using Auto Optimize for future writes.",
        );
        assert(x@.description =~= small_files_critical(pct as nat, small as nat, n as nat, avg as nat).description);
        push(out, x);
    } else if 5 * (small as u128) > n as u128 {
        let mut d = String::new();
        push_fixed(&mut d, pct, 1);
        d.append("% of files are smaller than 10MB. Average file size: ");
        push_fixed(&mut d, avg, 2);
        d.append("MB.");
        let x = make(
            Severity::Warning,
            Category::Performance,
            "Some Small Files Detected",
            d,
            "Consider running OPTIMIZE to improve performance. Monitor file sizes and run OPTIMIZE periodically.",
        );
        assert(x@.description =~= small_files_warning(pct as nat, avg as nat).description);
        push(out, x);
    }
    if total < 67108864 * (n as u128) {
        let mut d = String::from_str("Average file size (");
        push_fixed(&mut d, avg, 2);
        d.append("MB) is much smaller than optimal (128MB).");
        let x = make(
            Severity::Warning,
            Category::Performance,
            "Suboptimal Average File Size",
            d,
            "Run OPTIMIZE to compact files to optimal size. Configure Auto Optimize for future writes.",
        );
        assert(x@.description =~= suboptimal_average(avg as nat).description);
        push(out, x);
    }
    assert(models(out@) =~= models(old(out)@) + file_size_findings(*st));
}

// ---------------------------------------------------------------------------
// Partitioning shape

/// The characters of each string.
pub open spec fn texts(v: Seq<String>) -> Seq<Seq<char>> {
    v.map_values(|s: String| s@)
}

/// What sorting a list of strings in ascending order gives.
pub uninterp spec fn sorted_texts(v: Seq<Seq<char>>) -> Seq<Seq<char>>;

/// Relies on `slice::sort` (std) on strings: the result is a function of the
/// strings alone.
#[verifier::external_body]
fn sort_texts(v: Vec<String>) -> (r: Vec<String>)
    ensures
        texts(r@) == sorted_texts(texts(v@)),
{
    let mut v = v;
    v.sort();
    v
}

/// `key=value` for each partition value.
pub open spec fn pair_texts(pv: Seq<(String, String)>) -> Seq<Seq<char>> {
    pv.map_values(|p: (String, String)| p.0@ + "="@ + p.1@)
}

/// The strings of `v` joined by commas.
pub open spec fn joined(v: Seq<Seq<char>>) -> Seq<char>
    decreases v.len(),
{
    if v.len() == 0 {
        seq![]
    } else if v.len() == 1 {
        v[0]
    } else {
        joined(v.drop_last()) + ","@ + v.last()
    }
}

/// The partition a file belongs to: its sorted `key=value` pairs joined by
/// commas.
pub open spec fn partition_key(f: FileInfo) -> Seq<char> {
    joined(sorted_texts(pair_texts(f.partition_values@)))
}

/// The partitions of the files.
pub open spec fn partition_keys(fs: Seq<FileInfo>) -> Set<Seq<char>> {
    fs.map_values(|f: FileInfo| partition_key(f)).to_set()
}

/// How many distinct partitions the files fall into.
pub open spec fn num_partitions(fs: Seq<FileInfo>) -> nat {
    partition_keys(fs).len()
}

fn join_with_commas(v: &Vec<String>) -> (r: String)
    ensures
        r@ == joined(texts(v@)),
{
    let mut s = String::new();
    let mut i: usize = 0;
    while i < v.len()
        invariant
            0 <= i <= v@.len(),
            s@ == joined(texts(v@).take(i as int)),
        decreases v@.len() - i,
    {
        assert(texts(v@).take(i + 1).drop_last() =~= texts(v@).take(i as int));
        if i > 0 {
            s.append(",");
        }
        s.append(v[i].as_str());
        i = i + 1;
        assert(s@ =~= joined(texts(v@).take(i as int)));
    }
    assert(texts(v@).take(v@.len() as int) =~= texts(v@));
    s
}

fn partition_key_of(f: &FileInfo) -> (r: String)
    ensures
        r@ == partition_key(*f),
{
    let mut parts: Vec<String> = Vec::new();
    let mut i: usize = 0;
    while i < f.partition_values.len()
        invariant
            0 <= i <= f.partition_values@.len(),
            texts(parts@) == pair_texts(f.partition_values@.take(i as int)),
        decreases f.partition_values@.len() - i,
    {
        let mut t = f.partition_values[i].0.clone();
        t.append("=");
        t.append(f.partition_values[i].1.as_str());
        assert(t@ == pair_texts(f.partition_values@)[i as int]);
        let ghost before = parts@;
        parts.push(t);
        assert(texts(parts@) =~= texts(before).push(t@));
        assert(f.partition_values@.take(i + 1) =~= f.partition_values@.take(i as int).push(f.partition_values@[i as int]));
        i = i + 1;
        assert(texts(parts@) =~= pair_texts(f.partition_values@.take(i as int)));
    }
    assert(f.partition_values@.take(f.partition_values@.len() as int) =~= f.partition_values@);
    let sorted = sort_texts(parts);
    join_with_commas(&sorted)
}

fn contains_text(v: &Vec<String>, t: &String) -> (r: bool)
    ensures
        r == texts(v@).contains(t@),
{
    let mut i: usize = 0;
    while i < v.len()
        invariant
            0 <= i <= v@.len(),
            forall|j: int| 0 <= j < i ==> texts(v@)[j] != t@,
        decreases v@.len() - i,
    {
        if v[i] == *t {
            assert(texts(v@)[i as int] == t@);
            return true;
        }
        i = i + 1;
    }
    false
}

/// The number of distinct partitions of `fs`.
pub fn count_partitions(fs: &Vec<FileInfo>) -> (r: usize)
    ensures
        r == num_partitions(fs@),
        fs@.len() > 0 ==> r >= 1,
{
    let mut seen: Vec<String> = Vec::new();
    let mut i: usize = 0;
    while i < fs.len()
        invariant
            0 <= i <= fs@.len(),
            seen@.len() <= i,
            i > 0 ==> seen@.len() > 0,
            texts(seen@).no_duplicates(),
            texts(seen@).to_set() == partition_keys(fs@.take(i as int)),
        decreases fs@.len() - i,
    {
        let key = partition_key_of(&fs[i]);
        let ghost keys_before = fs@.take(i as int).map_values(|f: FileInfo| partition_key(f));
        assert(fs@.take(i + 1).map_values(|f: FileInfo| partition_key(f)) =~= keys_before.push(key@));
        proof {
            keys_before.lemma_push_to_set_commute(key@);
        }
        if !contains_text(&seen, &key) {
            let ghost old_texts = texts(seen@);
            seen.push(key);
            assert(texts(seen@) =~= old_texts.push(key@));
            proof {
                old_texts.lemma_push_to_set_commute(key@);
            }
        } else {
            assert(texts(seen@).to_set().contains(key@));
            assert(texts(seen@).to_set().insert(key@) =~= texts(seen@).to_set());
        }
        i = i + 1;
    }
    assert(fs@.take(fs@.len() as int) =~= fs@);
    proof {
        texts(seen@).unique_seq_to_set();
    }
    seen.len()
}

/// An unpartitioned table of `total` bytes, over 10 GiB.
pub open spec fn not_partitioned(total: int) -> InsightModel {
    finding(
        Severity::Info,
        Category::Performance,
        "Table Not Partitioned"@,
        "Table is "@ + bytes_text(total)
            + " but has no partitioning. Partitioning can improve query performance by enabling partition pruning."@,
        "Consider partitioning by frequently filtered columns (e.g., date, region, category). Avoid over-partitioning (too many partitions)."@,
    )
}

/// More than 1000 partitions with under five files each on average; `avg` in
/// tenths.
pub open spec fn over_partitioned(p: nat, avg: nat) -> InsightModel {
    finding(
        Severity::Warning,
        Category::Performance,
        "Over-Partitioned Table"@,
        "Table has "@ + decimal(p) + " partitions with average "@ + fixed_point(avg, 1)
            + " files per partition. Too many partitions creates excessive metadata overhead."@,
        "Consider coarser partitioning strategy (e.g., partition by month instead of day). Alternatively, use Z-ordering instead of partitioning."@,
    )
}

/// Fewer than ten partitions with over 100 files each on average; `avg`
/// rounded to a whole number.
pub open spec fn under_partitioned(p: nat, avg: nat) -> InsightModel {
    finding(
        Severity::Info,
        Category::Performance,
        "Under-Partitioned Table"@,
        "Table has only "@ + decimal(p) + " partition(s) with "@ + decimal(avg)
            + " files per partition on average. More granular partitioning could improve query performance."@,
        "Consider finer-grained partitioning if queries frequently filter on specific columns."@,
    )
}

/// Without partition columns: an Info when the table is over 10 GiB. With
/// them and at least one file: a Warning for more than 1000 partitions of
/// under five files on average, else an Info for fewer than ten partitions
/// of over 100 files on average.
pub open spec fn partitioning_findings(st: TableStatistics) -> Seq<InsightModel> {
    if st.partition_columns@.len() == 0 {
        if st.total_size_bytes > 10737418240 {
            seq![not_partitioned(st.total_size_bytes as int)]
        } else {
            seq![]
        }
    } else if st.files@.len() == 0 {
        seq![]
    } else {
        let p = num_partitions(st.files@);
        let nf = st.num_files as nat;
        if p > 1000 && nf < 5 * p {
            seq![over_partitioned(p, round_div(10 * nf, p))]
        } else if p < 10 && nf > 100 * p {
            seq![under_partitioned(p, round_div(nf, p))]
        } else {
            seq![]
        }
    }
}

pub fn analyze_partitioning(st: &TableStatistics, out: &mut Vec<Insight>)
    ensures
        models(final(out)@) == models(old(out)@) + partitioning_findings(*st),
{
    if st.partition_columns.len() == 0 {
        if st.total_size_bytes > PARTITIONING_THRESHOLD_BYTES {
            let mut d = String::from_str("Table is ");
            let b = format_bytes(st.total_size_bytes);
            d.append(b.as_str());
            d.append(" but has no partitioning. Partitioning can improve query performance by enabling partition pruning.");
            let x = make(
                Severity::Info,
                Category::Performance,
                "Table Not Partitioned",
                d,
                "Consider partitioning by frequently filtered columns (e.g., date, region, category). Avoid over-partitioning (too many partitions).",
            );
            push(out, x);
        }
    } else if st.files.len() > 0 {
        let p = count_partitions(&st.files);
        assert(p >= 1);
        let nf = st.num_files as u128;
        let pp = p as u128;
        if p > 1000 && nf < 5 * pp {
            let mut d = String::from_str("Table has ");
            push_decimal(&mut d, pp);
            d.append(" partitions with average ");
            let avg = round_div_exec(10 * nf, pp);
            push_fixed(&mut d, avg, 1);
            d.append(" files per partition. Too many partitions creates excessive metadata overhead.");
            let x = make(
                Severity::Warning,
                Category::Performance,
                "Over-Partitioned Table",
                d,
                "Consider coarser partitioning strategy (e.g., partition by month instead of day). Alternatively, use Z-ordering instead of partitioning.",
            );
            push(out, x);
        } else if p < 10 && nf > 100 * pp {
            let mut d = String::from_str("Table has only ");
            push_decimal(&mut d, pp);
            d.append(" partition(s) with ");
            let avg = round_div_exec(nf, pp);
            push_decimal(&mut d, avg);
            d.append(" files per partition on average. More granular partitioning could improve query performance.");
            let x = make(
                Severity::Info,
                Category::Performance,
                "Under-Partitioned Table",
                d,
                "Consider finer-grained partitioning if queries frequently filter on specific columns.",
            );
            push(out, x);
        }
    }
    assert(models(out@) =~= models(old(out)@) + partitioning_findings(*st));
}

// ---------------------------------------------------------------------------
// Data skew

/// The sum of the squared sizes of `fs`.
pub open spec fn sum_squares(fs: Seq<FileInfo>) -> int
    decreases fs.len(),
{
    if fs.len() == 0 {
        0
    } else {
        sum_squares(fs.drop_last()) + fs.last().size_bytes * fs.last().size_bytes
    }
}

/// The smallest size in `fs`.
pub open spec fn min_size(fs: Seq<FileInfo>) -> int
    decreases fs.len(),
{
    if fs.len() <= 1 {
        fs[0].size_bytes as int
    } else if fs.last().size_bytes < min_size(fs.drop_last()) {
        fs.last().size_bytes as int
    } else {
        min_size(fs.drop_last())
    }
}

/// The largest size in `fs`.
pub open spec fn max_size(fs: Seq<FileInfo>) -> int
    decreases fs.len(),
{
    if fs.len() <= 1 {
        fs[0].size_bytes as int
    } else if fs.last().size_bytes > max_size(fs.drop_last()) {
        fs.last().size_bytes as int
    } else {
        max_size(fs.drop_last())
    }
}

/// The coefficient of variation of the sizes (population standard deviation
/// over mean) exceeds 1/2. With n files, sum S and sum of squares Q the
/// variance is Q/n - (S/n)^2, so the test is 4 n Q > 5 S^2; when the mean
/// is 0 it fails, as a coefficient of 0 would.
pub open spec fn skewed(fs: Seq<FileInfo>) -> bool {
    4 * fs.len() * sum_squares(fs) > 5 * sum_sizes(fs) * sum_sizes(fs)
}

/// The greatest `k <= m` whose square is at most `y`.
pub open spec fn sqrt_below(y: nat, m: nat) -> nat
    decreases m,
{
    if m * m <= y || m == 0 {
        m
    } else {
        sqrt_below(y, (m - 1) as nat)
    }
}

/// The integer square root of `y`.
pub open spec fn isqrt(y: nat) -> nat {
    sqrt_below(y, y)
}

/// `c` is the whole number nearest to `100 * CV`, where for `n` sizes with
/// sum `s` and sum of squares `q` the coefficient of variation is
/// `sqrt(n q - s^2) / s`: `100 * CV` lies in `[c - 1/2, c + 1/2)`, written
/// with both sides doubled and squared.
pub open spec fn rounds_cv(c: nat, n: int, q: int, s: int) -> bool {
    let x = 40000 * (n * q - s * s);
    &&& (c == 0 || (2 * c - 1) * (2 * c - 1) * (s * s) <= x)
    &&& x < (2 * c + 1) * (2 * c + 1) * (s * s)
}

/// The coefficient of variation of the sizes in hundredths, rounded to the
/// nearest whole number.
pub open spec fn cv_hundredths(fs: Seq<FileInfo>) -> nat {
    choose|c: nat| rounds_cv(c, fs.len() as int, sum_squares(fs), sum_sizes(fs))
}

/// The skew finding, with the coefficient of variation to two decimals and
/// the smallest and largest sizes.
pub open spec fn data_skew(fs: Seq<FileInfo>) -> InsightModel {
    finding(
        Severity::Warning,
        Category::Performance,
        "Data Skew Detected"@,
        "High variance in file sizes detected (CV: "@ + fixed_point(cv_hundredths(fs), 2)
            + "). File sizes range from "@ + bytes_text(min_size(fs)) + " to "@ + bytes_text(
            max_size(fs),
        ) + ". This indicates data skew which can cause uneven processing."@,
        "Run OPTIMIZE to balance file sizes. Consider using Z-ordering or different partitioning strategy. Review data distribution in partition columns."@,
    )
}

/// A Warning for at least two files whose sizes are [`skewed`].
pub open spec fn skew_findings(st: TableStatistics) -> Seq<InsightModel> {
    if st.files@.len() >= 2 && skewed(st.files@) {
        seq![data_skew(st.files@)]
    } else {
        seq![]
    }
}

proof fn lemma_gt_div(x: int, y: int, d: int)
    requires
        d > 0,
        y >= 0,
    ensures
        (x * d > y) == (x > y / d),
{
    let q = y / d;
    let r = y % d;
    vstd::arithmetic::div_mod::lemma_fundamental_div_mod(y, d);
    assert(0 <= r < d);
    if x > q {
        assert(x * d >= q * d + d) by (nonlinear_arith)
            requires x >= q + 1, d > 0;
    } else {
        assert(x * d <= q * d) by (nonlinear_arith)
            requires x <= q, d > 0;
    }
}

proof fn lemma_sqrt_below(y: nat, k: nat, m: nat)
    requires
        k * k <= y < (k + 1) * (k + 1),
        k <= m,
    ensures
        sqrt_below(y, m) == k,
    decreases m,
{
    if m > k {
        assert(m * m >= (k + 1) * (k + 1)) by (nonlinear_arith)
            requires m >= k + 1;
        lemma_sqrt_below(y, k, (m - 1) as nat);
    }
}

proof fn lemma_isqrt_bounds(y: nat)
    ensures
        isqrt(y) * isqrt(y) <= y < (isqrt(y) + 1) * (isqrt(y) + 1),
{
    assert(y < (y + 1) * (y + 1)) by (nonlinear_arith);
    lemma_sqrt_below_bounds(y, y);
}

proof fn lemma_sqrt_below_bounds(y: nat, m: nat)
    requires
        y < (m + 1) * (m + 1),
    ensures
        sqrt_below(y, m) * sqrt_below(y, m) <= y < (sqrt_below(y, m) + 1) * (sqrt_below(y, m) + 1),
    decreases m,
{
    if m * m <= y || m == 0 {
        assert(sqrt_below(y, m) == m);
    } else {
        let p = (m - 1) as nat;
        assert((p + 1) * (p + 1) == m * m);
        lemma_sqrt_below_bounds(y, p);
        assert(sqrt_below(y, m) == sqrt_below(y, p));
    }
}

/// The integer square root of `y`.
pub fn isqrt_exec(y: u128) -> (r: u128)
    ensures
        r == isqrt(y as nat),
{
    let mut lo: u128 = 0;
    let mut hi: u128 = 0x1_0000_0000_0000_0000;
    assert(hi * hi > u128::MAX) by (nonlinear_arith)
        requires hi == 0x1_0000_0000_0000_0000u128;
    while hi - lo > 1
        invariant
            lo < hi <= 0x1_0000_0000_0000_0000,
            lo * lo <= y,
            y < hi * hi,
        decreases hi - lo,
    {
        let mid = lo + (hi - lo) / 2;
        assert(mid * mid < 0x1_0000_0000_0000_0000 * 0x1_0000_0000_0000_0000) by (nonlinear_arith)
            requires mid < 0x1_0000_0000_0000_0000int, mid >= 0;
        if mid * mid <= y {
            lo = mid;
        } else {
            hi = mid;
        }
    }
    proof {
        assert(hi == lo + 1);
        assert(lo <= y) by (nonlinear_arith)
            requires lo * lo <= y, lo >= 0;
        lemma_sqrt_below(y as nat, lo as nat, y as nat);
    }
    lo
}

/// Two to the power `e`.
pub open spec fn two_pow(e: nat) -> nat
    decreases e,
{
    if e == 0 { 1 } else { 2 * two_pow((e - 1) as nat) }
}

/// `k * q / b` rounded down, for `q <= b`: a long division over the bits of
/// `k`, in which no intermediate value exceeds `3 b`.
pub fn mul_div(k: u128, q: u128, b: u128) -> (r: u128)
    requires
        0 < b <= 0x4000_0000_0000_0000_0000_0000_0000_0000,
        q <= b,
        k < 0x1_0000_0000_0000_0000_0000_0000,
    ensures
        r == (k * q) / (b as int),
{
    let mut pow: u128 = 1;
    let ghost mut e: nat = 0;
    while pow <= k
        invariant
            pow == two_pow(e),
            1 <= pow <= 2 * k + 1,
            k < 0x1_0000_0000_0000_0000_0000_0000,
        decreases 2 * k + 2 - pow,
    {
        pow = 2 * pow;
        proof {
            e = e + 1;
        }
    }
    assert(k / pow == 0) by {
        vstd::arithmetic::div_mod::lemma_fundamental_div_mod_converse(k as int, pow as int, 0, k as int);
    }
    let mut acc: u128 = 0;
    let mut rem: u128 = 0;
    while pow > 1
        invariant
            pow == two_pow(e),
            pow >= 1,
            0 < b <= 0x4000_0000_0000_0000_0000_0000_0000_0000,
            q <= b,
            k < 0x1_0000_0000_0000_0000_0000_0000,
            acc * b + rem == (k / pow) * q,
            rem < b,
            acc <= k / pow,
        decreases pow,
    {
        assert(e > 0);
        let h = pow / 2;
        assert(h == two_pow((e - 1) as nat) && h > 0);
        let ghost kh = k / h;
        proof {
            vstd::arithmetic::div_mod::lemma_div_denominator(k as int, h as int, 2);
            assert(h * 2 == pow);
            assert(k / pow == kh / 2);
            vstd::arithmetic::div_mod::lemma_fundamental_div_mod(kh as int, 2);
            assert(kh == 2 * (k / pow) + kh % 2);
            assert(kh <= k) by {
                vstd::arithmetic::div_mod::lemma_div_is_ordered_by_denominator(k as int, 1, h as int);
            }
        }
        let bit = (k / h) % 2;
        assert(bit <= 1);
        assert(bit * q <= q) by (nonlinear_arith)
            requires bit <= 1, q >= 0;
        let mut t = 2 * rem + bit * q;
        let mut a = 2 * acc;
        if t >= b {
            t = t - b;
            a = a + 1;
        }
        if t >= b {
            t = t - b;
            a = a + 1;
        }
        assert(t < b);
        assert(a * b + t == kh * q) by (nonlinear_arith)
            requires
                acc * b + rem == (k / pow) * q,
                kh == 2 * (k / pow) + bit,
                (a == 2 * acc && t == 2 * rem + bit * q) || (a == 2 * acc + 1 && t == 2 * rem + bit * q
                    - b) || (a == 2 * acc + 2 && t == 2 * rem + bit * q - 2 * b);
        assert(a <= kh) by (nonlinear_arith)
            requires a * b + t == kh * q, t >= 0, q <= b, b > 0, a >= 0, kh >= 0;
        acc = a;
        rem = t;
        pow = h;
        proof {
            e = (e - 1) as nat;
        }
    }
    assert(k / 1 == k);
    proof {
        vstd::arithmetic::div_mod::lemma_fundamental_div_mod_converse((k * q) as int, b as int, acc as int, rem as int);
    }
    acc
}

proof fn lemma_rounds_cv_unique(c1: nat, c2: nat, n: int, q: int, s: int)
    requires
        rounds_cv(c1, n, q, s),
        s != 0,
    ensures
        rounds_cv(c2, n, q, s) ==> c1 == c2,
{
    let ss = s * s;
    assert(ss > 0) by (nonlinear_arith)
        requires s != 0, ss == s * s;
    if rounds_cv(c2, n, q, s) && c1 != c2 {
        let (lo, hi) = if c1 < c2 { (c1, c2) } else { (c2, c1) };
        assert((2 * lo + 1) * (2 * lo + 1) * ss <= (2 * hi - 1) * (2 * hi - 1) * ss) by (nonlinear_arith)
            requires lo < hi, ss > 0;
    }
}

/// The coefficient of variation in hundredths, rounded to nearest, for `n`
/// sizes with sum of squares `q` and squared sum `b`, where `n q > b`.
fn rounded_cv(n: u128, q: u128, b: u128) -> (c: u128)
    requires
        2 <= n < 0x1_0000_0000_0000_0000,
        0 < b <= 0x4000_0000_0000_0000_0000_0000_0000_0000,
        q <= b,
        n * q > b,
    ensures
        forall|s: int| s * s == b ==> rounds_cv(c as nat, n as int, q as int, s),
{
    let k = 40000 * n;
    let ratio = mul_div(k, q, b);
    let ghost x = 40000 * (n * q - b);
    proof {
        let kq = k * q;
        vstd::arithmetic::div_mod::lemma_fundamental_div_mod(kq as int, b as int);
        assert(kq == 40000 * b + x) by (nonlinear_arith)
            requires kq == k * q, k == 40000 * n, x == 40000 * (n * q - b);
        assert(ratio >= 40000) by (nonlinear_arith)
            requires ratio * b + kq % (b as int) == kq, kq % (b as int) < b, kq == 40000 * b + x, x > 0, b > 0;
    }
    let y = ratio - 40000;
    assert(y * b <= x && x < (y + 1) * b) by (nonlinear_arith)
        requires
            ratio * b + (k * q) % (b as int) == k * q,
            0 <= (k * q) % (b as int) < b,
            k * q == 40000 * b + x,
            y == ratio - 40000;
    assert(ratio <= k) by (nonlinear_arith)
        requires ratio * b + (k * q) % (b as int) == k * q, 0 <= (k * q) % (b as int), q <= b, b > 0, k >= 0;
    let m = isqrt_exec(y);
    proof {
        lemma_isqrt_bounds(y as nat);
        assert(m <= y) by (nonlinear_arith)
            requires m * m <= y, m >= 0;
    }
    let c = (m + 1) / 2;
    proof {
        assert(m * m * b <= x && x < (m + 1) * (m + 1) * b) by (nonlinear_arith)
            requires m * m <= y, y < (m + 1) * (m + 1), y * b <= x, x < (y + 1) * b, b > 0;
        if m % 2 == 1 {
            assert(m == 2 * c - 1);
            assert((m + 1) * (m + 1) * b <= (2 * c + 1) * (2 * c + 1) * b) by (nonlinear_arith)
                requires m + 1 == 2 * c, b > 0;
        } else {
            assert(m == 2 * c);
            assert(c == 0 || (2 * c - 1) * (2 * c - 1) * b <= m * m * b) by (nonlinear_arith)
                requires m == 2 * c, b > 0;
        }
        assert forall|s: int| s * s == b implies rounds_cv(c as nat, n as int, q as int, s) by {}
    }
    c
}

pub fn analyze_data_skew(st: &TableStatistics, out: &mut Vec<Insight>)
    requires
        st.wf(),
    ensures
        models(final(out)@) == models(old(out)@) + skew_findings(*st),
{
    let n = st.files.len();
    if n < 2 {
        assert(models(out@) =~= models(old(out)@) + skew_findings(*st));
        return;
    }
    let ghost fs = st.files@;
    let ghost total = sum_sizes(fs);
    proof {
        lemma_sum_sizes_prefix(fs, 0);
    }
    let mut sum: u128 = 0;
    let mut squares: u128 = 0;
    let mut lo: i64 = st.files[0].size_bytes;
    let mut hi: i64 = st.files[0].size_bytes;
    let mut i: usize = 0;
    assert(fs.take(1).drop_last() =~= fs.take(0));
    while i < n
        invariant
            n == fs.len(),
            fs == st.files@,
            st.wf(),
            0 <= total <= i64::MAX,
            total == sum_sizes(fs),
            0 <= i <= n,
            sum == sum_sizes(fs.take(i as int)),
            sum <= total,
            squares == sum_squares(fs.take(i as int)),
            squares <= sum * sum,
            i >= 1 ==> lo == min_size(fs.take(i as int)),
            i >= 1 ==> hi == max_size(fs.take(i as int)),
            i == 0 ==> lo == fs[0].size_bytes && hi == fs[0].size_bytes,
        decreases n - i,
    {
        let size = st.files[i].size_bytes;
        assert(size >= 0);
        proof {
            lemma_sum_sizes_prefix(fs, i + 1);
        }
        assert(fs.take(i + 1).drop_last() =~= fs.take(i as int));
        let ghost prev = sum;
        sum = sum + size as u128;
        assert(squares + size * size <= sum * sum) by (nonlinear_arith)
            requires squares <= prev * prev, sum == prev + size, size >= 0, prev >= 0;
        assert(size * size <= sum * sum) by (nonlinear_arith)
            requires sum == prev + size, size >= 0, prev >= 0;
        assert(sum * sum <= 0x4000_0000_0000_0000_0000_0000_0000_0000) by (nonlinear_arith)
            requires sum <= 0x7fff_ffff_ffff_ffffint, sum >= 0;
        squares = squares + (size as u128) * (size as u128);
        if i >= 1 {
            if size < lo {
                lo = size;
            }
            if size > hi {
                hi = size;
            }
        }
        i = i + 1;
    }
    assert(fs.take(n as int) =~= fs);
    assert(sum * sum <= 0x4000_0000_0000_0000_0000_0000_0000_0000) by (nonlinear_arith)
        requires sum <= 0x7fff_ffff_ffff_ffffint, sum >= 0;
    let big = sum * sum;
    let nn = n as u128;
    let k = big + big / 4;
    proof {
        lemma_gt_div(nn * squares - big, big as int, 4);
        lemma_gt_div(squares as int, k as int, nn as int);
        assert(4 * fs.len() * sum_squares(fs) == 4 * (nn * squares)) by (nonlinear_arith)
            requires nn == fs.len(), squares == sum_squares(fs);
        assert(nn * squares == squares * nn) by (nonlinear_arith);
        assert(sum == sum_sizes(fs));
        assert(squares == sum_squares(fs));
        assert(5 * sum_sizes(fs) * sum_sizes(fs) == 5 * big) by (nonlinear_arith)
            requires big == sum * sum, sum == sum_sizes(fs);
    }
    if squares > k / nn {
        assert(squares * nn > k);
        assert(nn * squares > k);
        assert((nn * squares - big) * 4 > big);
        assert(4 * (nn * squares) > 5 * big);
        assert(skewed(fs));
        let mut d = String::new();
        assert(big > 0 && nn * squares > big) by (nonlinear_arith)
            requires 4 * (nn * squares) > 5 * big, squares <= big, big >= 0, nn >= 2;
        let cv = rounded_cv(nn, squares, big);
        proof {
            let n = fs.len() as int;
            let qq = sum_squares(fs);
            let ss = sum_sizes(fs);
            assert(ss * ss == big);
            assert(rounds_cv(cv as nat, n, qq, ss));
            assert(ss != 0);
            assert(exists|c: nat| rounds_cv(c, n, qq, ss));
            assert(rounds_cv(cv_hundredths(fs), n, qq, ss));
            lemma_rounds_cv_unique(cv as nat, cv_hundredths(fs), n, qq, ss);
            assert(cv == cv_hundredths(fs));
        }
        d.append("High variance in file sizes detected (CV: ");
        push_fixed(&mut d, cv, 2);
        d.append("). File sizes range from ");
        let a = format_bytes(lo);
        d.append(a.as_str());
        d.append(" to ");
        let b = format_bytes(hi);
        d.append(b.as_str());
        d.append(". This indicates data skew which can cause uneven processing.");
        let x = make(
            Severity::Warning,
            Category::Performance,
            "Data Skew Detected",
            d,
            "Run OPTIMIZE to balance file sizes. Consider using Z-ordering or different partitioning strategy. Review data distribution in partition columns.",
        );
        assert(x@.description =~= data_skew(fs).description);
        push(out, x);
    } else {
        assert(!(squares * nn > k));
        assert(!((nn * squares - big) * 4 > big));
        assert(!(4 * (nn * squares) > 5 * big));
        assert(!skewed(fs));
    }
    assert(models(out@) =~= models(old(out)@) + skew_findings(*st));
}

} // verus!
