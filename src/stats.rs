//! The statistics snapshot of a table: its files, sizes, schema, protocol
//! and recent operations. Times are seconds since the Unix epoch.

use vstd::prelude::*;
use crate::config::{unique_keys, has_unique_keys};
use crate::timeline::{CommitRecord, ms_to_secs, time_of, operation_label, millis_to_secs};

verus! {

/// One data file of the table.
pub struct FileInfo {
    pub path: String,
    /// Size in bytes; never negative in a well-formed snapshot.
    pub size_bytes: i64,
    pub modification_time: i64,
    /// Partition column name and value, one pair per column.
    pub partition_values: Vec<(String, String)>,
}

/// Descriptive metadata of the table.
pub struct TableMetadata {
    pub id: Option<String>,
    pub name: Option<String>,
    pub description: Option<String>,
    /// Milliseconds since the Unix epoch.
    pub created_time: Option<i64>,
}

/// The most recent commit of the table.
pub struct OperationInfo {
    pub operation: String,
    pub timestamp: i64,
    /// Operation parameters, each value in its textual form.
    pub parameters: Vec<(String, String)>,
}

/// Everything the rule engine and the overview know of a table.
pub struct TableStatistics {
    pub table_path: String,
    pub version: i64,
    pub num_files: usize,
    pub total_size_bytes: i64,
    /// Column name and type label.
    pub schema: Vec<(String, String)>,
    pub partition_columns: Vec<String>,
    pub num_rows: Option<i64>,
    pub files: Vec<FileInfo>,
    pub metadata: TableMetadata,
    pub total_versions: usize,
    pub oldest_version: i64,
    pub min_reader_version: i32,
    pub min_writer_version: i32,
    pub reader_features: Vec<String>,
    pub writer_features: Vec<String>,
    pub created_time: Option<i64>,
    pub last_operation: Option<OperationInfo>,
    /// When the table was last vacuumed; `None` if it never was.
    pub last_vacuum: Option<i64>,
}

/// The sum of the sizes of `fs`.
pub open spec fn sum_sizes(fs: Seq<FileInfo>) -> int
    decreases fs.len(),
{
    if fs.len() == 0 {
        0
    } else {
        sum_sizes(fs.drop_last()) + fs.last().size_bytes
    }
}

/// Every size in `fs` is non-negative.
pub open spec fn sizes_non_negative(fs: Seq<FileInfo>) -> bool {
    forall|i: int| 0 <= i < fs.len() ==> #[trigger] fs[i].size_bytes >= 0
}

/// Each file names each partition column once.
pub open spec fn partition_keys_unique(fs: Seq<FileInfo>) -> bool {
    forall|i: int| 0 <= i < fs.len() ==> unique_keys(#[trigger] fs[i].partition_values@)
}

impl TableStatistics {
    /// A snapshot whose column names and partition keys are unique, whose
    /// file sizes are non-negative and, when the file list is populated,
    /// whose file count and total size are those of the list.
    pub open spec fn wf(&self) -> bool {
        &&& unique_keys(self.schema@)
        &&& partition_keys_unique(self.files@)
        &&& sizes_non_negative(self.files@)
        &&& self.files@.len() > 0 ==> self.num_files == self.files@.len()
        &&& self.files@.len() > 0 ==> self.total_size_bytes == sum_sizes(self.files@)
    }
}

/// Prefix sums of non-negative sizes grow with the prefix.
pub proof fn lemma_sum_sizes_prefix(fs: Seq<FileInfo>, i: int)
    requires
        sizes_non_negative(fs),
        0 <= i <= fs.len(),
    ensures
        0 <= sum_sizes(fs.take(i)) <= sum_sizes(fs),
    decreases fs.len(),
{
    if fs.len() > 0 {
        if i == fs.len() {
            assert(fs.take(i) =~= fs);
            lemma_sum_sizes_prefix(fs.drop_last(), i - 1);
            assert(fs.drop_last().take(i - 1) =~= fs.drop_last());
        } else {
            assert(fs.take(i) =~= fs.drop_last().take(i));
            assert(sizes_non_negative(fs.drop_last())) by {
                assert forall|j: int| 0 <= j < fs.drop_last().len() implies #[trigger] fs.drop_last()[j].size_bytes >= 0 by {
                    assert(fs[j].size_bytes >= 0);
                }
            }
            lemma_sum_sizes_prefix(fs.drop_last(), i);
            assert(fs[fs.len() - 1].size_bytes >= 0);
        }
    }
}

/// A VACUUM commit.
pub open spec fn is_vacuum(c: CommitRecord) -> bool {
    c.operation matches Some(s) && s@ == "VACUUM"@
}

/// The time, in seconds, of the first VACUUM commit of a newest-first
/// history: the last vacuum.
pub open spec fn vacuum_time(h: Seq<CommitRecord>) -> Option<int>
    decreases h.len(),
{
    if h.len() == 0 {
        None
    } else if is_vacuum(h[0]) {
        Some(ms_to_secs(time_of(h[0])))
    } else {
        vacuum_time(h.drop_first())
    }
}

/// When the table was last vacuumed, from its newest-first history.
pub fn last_vacuum_time(h: &Vec<CommitRecord>) -> (r: Option<i64>)
    ensures
        r matches Some(t) ==> vacuum_time(h@) == Some(t as int),
        r is None ==> vacuum_time(h@) is None,
{
    let vacuum = String::from_str("VACUUM");
    let mut i: usize = 0;
    assert(h@.subrange(0, h@.len() as int) =~= h@);
    while i < h.len()
        invariant
            0 <= i <= h@.len(),
            vacuum@ == "VACUUM"@,
            vacuum_time(h@) == vacuum_time(h@.subrange(i as int, h@.len() as int)),
        decreases h@.len() - i,
    {
        let ghost rest = h@.subrange(i as int, h@.len() as int);
        assert(rest[0] == h@[i as int]);
        let found = match &h[i].operation {
            Some(op) => *op == vacuum,
            None => false,
        };
        if found {
            let t = match h[i].timestamp {
                Some(t) => t,
                None => 0,
            };
            return Some(millis_to_secs(t));
        }
        assert(rest.drop_first() =~= h@.subrange(i + 1, h@.len() as int));
        i = i + 1;
    }
    None
}

/// The smallest read version among the commits that record one.
pub open spec fn oldest_read(h: Seq<CommitRecord>) -> Option<i64>
    decreases h.len(),
{
    if h.len() == 0 {
        None
    } else {
        let prev = oldest_read(h.drop_last());
        match h.last().read_version {
            Some(v) => match prev {
                Some(p) => if v < p { Some(v) } else { Some(p) },
                None => Some(v),
            },
            None => prev,
        }
    }
}

/// The oldest version the history still reads from; 0 when no commit
/// records one.
pub fn oldest_read_version(h: &Vec<CommitRecord>) -> (r: i64)
    ensures
        r == match oldest_read(h@) {
            Some(v) => v,
            None => 0,
        },
{
    let mut best: Option<i64> = None;
    let mut i: usize = 0;
    while i < h.len()
        invariant
            0 <= i <= h@.len(),
            best == oldest_read(h@.take(i as int)),
        decreases h@.len() - i,
    {
        assert(h@.take(i + 1).drop_last() =~= h@.take(i as int));
        match h[i].read_version {
            Some(v) => {
                best = match best {
                    Some(p) => if v < p { Some(v) } else { Some(p) },
                    None => Some(v),
                };
            },
            None => {},
        }
        i = i + 1;
    }
    assert(h@.take(h@.len() as int) =~= h@);
    match best {
        Some(v) => v,
        None => 0,
    }
}

/// The newest commit of a newest-first history as an operation summary.
pub fn last_operation_of(h: &Vec<CommitRecord>) -> (r: Option<OperationInfo>)
    ensures
        h@.len() == 0 ==> r is None,
        h@.len() > 0 ==> (r matches Some(op) && op.operation@ == operation_label(h@[0])
            && op.timestamp == ms_to_secs(time_of(h@[0])) && op.parameters@ == h@[0].parameters@),
{
    if h.len() == 0 {
        return None;
    }
    let c = h[0].duplicate();
    let operation = match &c.operation {
        Some(s) => s.clone(),
        None => String::from_str("Unknown"),
    };
    let t = match c.timestamp {
        Some(t) => t,
        None => 0,
    };
    Some(OperationInfo { operation, timestamp: millis_to_secs(t), parameters: c.parameters })
}

/// The total size of the files: `None` when a size is negative or the sum
/// does not fit in an `i64`.
pub fn total_file_size(files: &Vec<FileInfo>) -> (r: Option<i64>)
    ensures
        r matches Some(t) ==> sizes_non_negative(files@) && t == sum_sizes(files@),
        r is None ==> !sizes_non_negative(files@) || sum_sizes(files@) > i64::MAX,
{
    let mut i: usize = 0;
    while i < files.len()
        invariant
            0 <= i <= files@.len(),
            forall|j: int| 0 <= j < i ==> #[trigger] files@[j].size_bytes >= 0,
        decreases files@.len() - i,
    {
        if files[i].size_bytes < 0 {
            return None;
        }
        i = i + 1;
    }
    let mut sum: i64 = 0;
    let mut k: usize = 0;
    while k < files.len()
        invariant
            0 <= k <= files@.len(),
            sizes_non_negative(files@),
            sum == sum_sizes(files@.take(k as int)),
        decreases files@.len() - k,
    {
        assert(files@.take(k + 1).drop_last() =~= files@.take(k as int));
        let size = files[k].size_bytes;
        if sum > i64::MAX - size {
            proof {
                lemma_sum_sizes_prefix(files@, k + 1);
            }
            return None;
        }
        sum = sum + size;
        k = k + 1;
    }
    assert(files@.take(files@.len() as int) =~= files@);
    Some(sum)
}

impl TableStatistics {
    /// Whether the snapshot is well formed.
    pub fn is_well_formed(&self) -> (r: bool)
        ensures
            r == self.wf(),
    {
        if !has_unique_keys(&self.schema) {
            return false;
        }
        let mut i: usize = 0;
        while i < self.files.len()
            invariant
                0 <= i <= self.files@.len(),
                forall|j: int| 0 <= j < i ==> unique_keys(#[trigger] self.files@[j].partition_values@),
            decreases self.files@.len() - i,
        {
            if !has_unique_keys(&self.files[i].partition_values) {
                return false;
            }
            i = i + 1;
        }
        match total_file_size(&self.files) {
            Some(t) => self.files.len() == 0 || (t == self.total_size_bytes && self.num_files
                == self.files.len()),
            None => {
                proof {
                    if sizes_non_negative(self.files@) {
                        lemma_sum_sizes_prefix(self.files@, 0);
                    }
                }
                false
            },
        }
    }
}

} // verus!
