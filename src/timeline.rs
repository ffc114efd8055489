//! Commit records and the timeline analysis built from them: operations by
//! type and by day, the span that the commits cover, and the write pattern.

use vstd::prelude::*;
use crate::rules::texts;
use crate::text::round_div;

verus! {

/// One commit of the table's history.
pub struct CommitRecord {
    /// Milliseconds since the Unix epoch.
    pub timestamp: Option<i64>,
    pub operation: Option<String>,
    pub read_version: Option<i64>,
    /// Operation parameters, each value in its textual form.
    pub parameters: Vec<(String, String)>,
}

/// Milliseconds to whole seconds, rounding toward zero.
pub open spec fn ms_to_secs(ms: int) -> int {
    if ms >= 0 { ms / 1000 } else { -((-ms) / 1000) }
}

/// Milliseconds to whole seconds, rounding toward zero.
pub fn millis_to_secs(ms: i64) -> (r: i64)
    ensures
        r == ms_to_secs(ms as int),
{
    if ms >= 0 {
        ms / 1000
    } else {
        let m = (0 - (ms as i128)) / 1000;
        (0 - m) as i64
    }
}

/// The commit's time in milliseconds, 0 when it has none.
pub open spec fn time_of(c: CommitRecord) -> int {
    match c.timestamp {
        Some(t) => t as int,
        None => 0,
    }
}

/// The commit's operation name, `Unknown` when it has none.
pub open spec fn operation_label(c: CommitRecord) -> Seq<char> {
    match c.operation {
        Some(s) => s@,
        None => "Unknown"@,
    }
}

/// The UTC calendar day of a time given in seconds since the Unix epoch,
/// written `YYYY-MM-DD`.
pub uninterp spec fn day_label_of(secs: int) -> Seq<char>;

/// Relies on chrono's `DateTime::from_timestamp` and its `%Y-%m-%d` format:
/// the calendar day is a function of the seconds alone (chrono's default,
/// the epoch, for times it cannot represent).
#[verifier::external_body]
fn day_label(secs: i64) -> (r: String)
    ensures
        r@ == day_label_of(secs as int),
{
    chrono::DateTime::from_timestamp(secs, 0).unwrap_or_default().format("%Y-%m-%d").to_string()
}

/// The day a commit belongs to.
pub open spec fn commit_day(c: CommitRecord) -> Seq<char> {
    day_label_of(ms_to_secs(time_of(c)))
}

/// How often `l` occurs in `ls`.
pub open spec fn occurrences(ls: Seq<Seq<char>>, l: Seq<char>) -> nat
    decreases ls.len(),
{
    if ls.len() == 0 {
        0
    } else {
        occurrences(ls.drop_last(), l) + if ls.last() == l {
            1nat
        } else {
            0nat
        }
    }
}

/// `r` counts the labels `ls`: each label once, with how often it occurs.
pub open spec fn is_tally(r: Seq<(String, usize)>, ls: Seq<Seq<char>>) -> bool {
    let keys = r.map_values(|p: (String, usize)| p.0@);
    &&& keys.no_duplicates()
    &&& keys.to_set() == ls.to_set()
    &&& forall|j: int| 0 <= j < r.len() ==> (#[trigger] r[j]).1 == occurrences(ls, r[j].0@)
}

/// Where `l` first occurs in `ls` (`ls.len()` when it does not).
pub open spec fn first_pos(ls: Seq<Seq<char>>, l: Seq<char>) -> int
    decreases ls.len(),
{
    if ls.len() == 0 {
        0
    } else if ls.drop_last().contains(l) {
        first_pos(ls.drop_last(), l)
    } else if ls.last() == l {
        ls.len() - 1
    } else {
        ls.len() as int
    }
}

proof fn lemma_first_pos_inside(ls: Seq<Seq<char>>, l: Seq<char>)
    requires
        ls.contains(l),
    ensures
        0 <= first_pos(ls, l) < ls.len(),
    decreases ls.len(),
{
    if ls.drop_last().contains(l) {
        lemma_first_pos_inside(ls.drop_last(), l);
    } else {
        let k = choose|k: int| 0 <= k < ls.len() && ls[k] == l;
        if k < ls.len() - 1 {
            assert(ls.drop_last()[k] == l);
        }
    }
}

/// The labels of a tally come in order of first occurrence.
pub open spec fn in_first_order(r: Seq<(String, usize)>, ls: Seq<Seq<char>>) -> bool {
    forall|a: int, b: int| 0 <= a < b < r.len() ==> #[trigger] first_pos(ls, r[a].0@) < #[trigger] first_pos(ls, r[b].0@)
}

/// Counts how often each label occurs, labels in order of first occurrence.
pub fn tally(labels: &Vec<String>) -> (r: Vec<(String, usize)>)
    ensures
        is_tally(r@, texts(labels@)),
        in_first_order(r@, texts(labels@)),
{
    let ghost ls = texts(labels@);
    let mut keys: Vec<String> = Vec::new();
    let mut counts: Vec<usize> = Vec::new();
    let mut i: usize = 0;
    while i < labels.len()
        invariant
            0 <= i <= labels@.len(),
            ls == texts(labels@),
            keys@.len() == counts@.len(),
            texts(keys@).no_duplicates(),
            texts(keys@).to_set() == ls.take(i as int).to_set(),
            forall|j: int| 0 <= j < counts@.len() ==> #[trigger] counts@[j] == occurrences(ls.take(i as int), keys@[j]@),
            forall|j: int| 0 <= j < counts@.len() ==> #[trigger] counts@[j] <= i,
            forall|a: int, b: int| 0 <= a < b < keys@.len() ==> #[trigger] first_pos(ls.take(i as int), keys@[a]@) < #[trigger] first_pos(ls.take(i as int), keys@[b]@),
            forall|a: int| 0 <= a < keys@.len() ==> #[trigger] first_pos(ls.take(i as int), keys@[a]@) < i,
        decreases labels@.len() - i,
    {
        let label = &labels[i];
        let ghost keys_before = keys@;
        proof {
            assert forall|a: int| 0 <= a < keys@.len() implies #[trigger] ls.take(i as int).contains(keys@[a]@) by {
                assert(texts(keys@)[a] == keys@[a]@);
                assert(texts(keys@).to_set().contains(keys@[a]@));
            }
            assert forall|a: int| 0 <= a < keys@.len() implies #[trigger] first_pos(ls.take(i + 1), keys@[a]@) == first_pos(ls.take(i as int), keys@[a]@) by {
                assert(ls.take(i as int).contains(keys@[a]@));
                assert(ls.take(i + 1).drop_last() =~= ls.take(i as int));
            }
        }
        assert(ls.take(i + 1) =~= ls.take(i as int).push(label@));
        assert(ls.take(i + 1).drop_last() =~= ls.take(i as int));
        proof {
            ls.take(i as int).lemma_push_to_set_commute(label@);
        }
        let pos = find_text(&keys, label);
        let ghost prefix = ls.take(i as int);
        let ghost next = ls.take(i + 1);
        match pos {
            Some(j) => {
                let c = counts[j];
                counts.set(j, c + 1);
                assert(texts(keys@)[j as int] == label@);
                assert(texts(keys@).to_set().insert(label@) =~= texts(keys@).to_set());
                assert forall|m: int| 0 <= m < counts@.len() implies #[trigger] counts@[m] == occurrences(next, keys@[m]@) by {
                    if m != j {
                        assert(texts(keys@)[m] != texts(keys@)[j as int]);
                    }
                }
            },
            None => {
                let ghost old_keys = texts(keys@);
                let ghost old_counts = counts@;
                keys.push(label.clone());
                counts.push(1);
                assert(texts(keys@) =~= old_keys.push(label@));
                proof {
                    old_keys.lemma_push_to_set_commute(label@);
                    lemma_absent_occurrences(prefix, label@);
                    assert(!prefix.contains(label@)) by {
                        if prefix.contains(label@) {
                            assert(prefix.to_set().contains(label@));
                        }
                    }
                    assert(next.drop_last() =~= prefix);
                    assert(first_pos(next, label@) == i);
                    assert(keys@[keys@.len() - 1]@ == label@);
                    assert forall|a: int| 0 <= a < keys_before.len() implies #[trigger] first_pos(next, keys@[a]@) < i by {
                        assert(keys@[a] == keys_before[a]);
                    }
                }
                assert forall|m: int| 0 <= m < counts@.len() implies #[trigger] counts@[m] == occurrences(next, keys@[m]@) by {
                    if m < old_counts.len() {
                        assert(old_keys[m] != label@);
                        assert(counts@[m] == old_counts[m]);
                    }
                }
            },
        }
        i = i + 1;
    }
    assert(ls.take(labels@.len() as int) =~= ls);
    let mut r: Vec<(String, usize)> = Vec::new();
    let mut k: usize = 0;
    while k < keys.len()
        invariant
            0 <= k <= keys@.len(),
            keys@.len() == counts@.len(),
            r@.len() == k,
            forall|m: int| 0 <= m < k ==> (#[trigger] r@[m]).0@ == keys@[m]@ && r@[m].1 == counts@[m],
        decreases keys@.len() - k,
    {
        r.push((keys[k].clone(), counts[k]));
        k = k + 1;
    }
    assert(r@.map_values(|p: (String, usize)| p.0@) =~= texts(keys@));
    r
}

/// Where `l` occurs in `ls`, in order.
pub open spec fn positions(ls: Seq<Seq<char>>, l: Seq<char>) -> Seq<int>
    decreases ls.len(),
{
    if ls.len() == 0 {
        seq![]
    } else if ls.last() == l {
        positions(ls.drop_last(), l).push(ls.len() - 1)
    } else {
        positions(ls.drop_last(), l)
    }
}

/// Positions as integers.
pub open spec fn index_view(v: Seq<usize>) -> Seq<int> {
    v.map_values(|i: usize| i as int)
}

/// `r` groups the labels `ls`: each label once, in order of first
/// occurrence, with the positions where it occurs.
pub open spec fn is_grouping(r: Seq<(String, Vec<usize>)>, ls: Seq<Seq<char>>) -> bool {
    let keys = r.map_values(|p: (String, Vec<usize>)| p.0@);
    &&& keys.no_duplicates()
    &&& keys.to_set() == ls.to_set()
    &&& forall|j: int| 0 <= j < r.len() ==> index_view((#[trigger] r[j]).1@) == positions(ls, r[j].0@)
    &&& forall|a: int, b: int| 0 <= a < b < r.len() ==> #[trigger] first_pos(ls, r[a].0@) < #[trigger] first_pos(ls, r[b].0@)
}

fn positions_of(labels: &Vec<String>, key: &String) -> (r: Vec<usize>)
    ensures
        index_view(r@) == positions(texts(labels@), key@),
{
    let ghost ls = texts(labels@);
    let mut r: Vec<usize> = Vec::new();
    let mut i: usize = 0;
    while i < labels.len()
        invariant
            0 <= i <= labels@.len(),
            ls == texts(labels@),
            index_view(r@) == positions(ls.take(i as int), key@),
        decreases labels@.len() - i,
    {
        assert(ls.take(i + 1).drop_last() =~= ls.take(i as int));
        let ghost before = r@;
        if labels[i] == *key {
            r.push(i);
            assert(index_view(r@) =~= index_view(before).push(i as int));
        }
        i = i + 1;
    }
    assert(ls.take(labels@.len() as int) =~= ls);
    r
}

/// Groups equal labels, in order of first occurrence, each with the
/// positions where it occurs.
pub fn group_positions(labels: &Vec<String>) -> (r: Vec<(String, Vec<usize>)>)
    ensures
        is_grouping(r@, texts(labels@)),
{
    let t = tally(labels);
    let ghost tkeys = t@.map_values(|p: (String, usize)| p.0@);
    let mut r: Vec<(String, Vec<usize>)> = Vec::new();
    let mut k: usize = 0;
    while k < t.len()
        invariant
            0 <= k <= t@.len(),
            r@.len() == k,
            tkeys == t@.map_values(|p: (String, usize)| p.0@),
            forall|m: int| 0 <= m < k ==> (#[trigger] r@[m]).0@ == t@[m].0@ && index_view(r@[m].1@)
                == positions(texts(labels@), t@[m].0@),
        decreases t@.len() - k,
    {
        let g = positions_of(labels, &t[k].0);
        r.push((t[k].0.clone(), g));
        k = k + 1;
    }
    let ghost rkeys = r@.map_values(|p: (String, Vec<usize>)| p.0@);
    assert(rkeys =~= tkeys);
    r
}

fn find_text(keys: &Vec<String>, t: &String) -> (r: Option<usize>)
    ensures
        r matches Some(j) ==> j < keys@.len() && keys@[j as int]@ == t@,
        r is None ==> !texts(keys@).contains(t@),
{
    let mut j: usize = 0;
    while j < keys.len()
        invariant
            0 <= j <= keys@.len(),
            forall|m: int| 0 <= m < j ==> keys@[m]@ != t@,
        decreases keys@.len() - j,
    {
        if keys[j] == *t {
            return Some(j);
        }
        j = j + 1;
    }
    assert forall|m: int| 0 <= m < keys@.len() implies texts(keys@)[m] != t@ by {
        assert(keys@[m]@ != t@);
    }
    None
}

proof fn lemma_absent_occurrences(ls: Seq<Seq<char>>, l: Seq<char>)
    requires
        !ls.to_set().contains(l),
    ensures
        occurrences(ls, l) == 0,
    decreases ls.len(),
{
    if ls.len() > 0 {
        assert(ls.to_set().contains(ls.last()));
        assert(ls.drop_last().to_set().subset_of(ls.to_set())) by {
            assert forall|x: Seq<char>| ls.drop_last().to_set().contains(x) implies ls.to_set().contains(x) by {
                let k = choose|k: int| 0 <= k < ls.drop_last().len() && ls.drop_last()[k] == x;
                assert(ls[k] == x);
            }
        }
        lemma_absent_occurrences(ls.drop_last(), l);
    }
}

impl CommitRecord {
    /// A copy of the record.
    pub fn duplicate(&self) -> (r: CommitRecord)
        ensures
            r.timestamp == self.timestamp,
            r.operation == self.operation,
            r.read_version == self.read_version,
            r.parameters@ == self.parameters@,
    {
        let operation = match &self.operation {
            Some(s) => Some(s.clone()),
            None => None,
        };
        let mut parameters: Vec<(String, String)> = Vec::new();
        let mut i: usize = 0;
        while i < self.parameters.len()
            invariant
                0 <= i <= self.parameters@.len(),
                parameters@ == self.parameters@.take(i as int),
            decreases self.parameters@.len() - i,
        {
            let k = self.parameters[i].0.clone();
            let v = self.parameters[i].1.clone();
            parameters.push((k, v));
            i = i + 1;
            assert(parameters@ =~= self.parameters@.take(i as int));
        }
        assert(self.parameters@.take(self.parameters@.len() as int) =~= self.parameters@);
        CommitRecord { timestamp: self.timestamp, operation, read_version: self.read_version, parameters }
    }
}

/// The operation names of the commits.
pub open spec fn op_labels(h: Seq<CommitRecord>) -> Seq<Seq<char>> {
    h.map_values(|c: CommitRecord| operation_label(c))
}

/// The days of the commits.
pub open spec fn day_labels(h: Seq<CommitRecord>) -> Seq<Seq<char>> {
    h.map_values(|c: CommitRecord| commit_day(c))
}

/// The earliest commit time of a non-empty history.
pub open spec fn min_time(h: Seq<CommitRecord>) -> int
    decreases h.len(),
{
    if h.len() <= 1 {
        time_of(h[0])
    } else if time_of(h.last()) < min_time(h.drop_last()) {
        time_of(h.last())
    } else {
        min_time(h.drop_last())
    }
}

/// The latest commit time of a non-empty history.
pub open spec fn max_time(h: Seq<CommitRecord>) -> int
    decreases h.len(),
{
    if h.len() <= 1 {
        time_of(h[0])
    } else if time_of(h.last()) > max_time(h.drop_last()) {
        time_of(h.last())
    } else {
        max_time(h.drop_last())
    }
}

/// Whole days from the earliest to the latest commit, at least one.
pub open spec fn days_spanned(h: Seq<CommitRecord>) -> int {
    let d = (ms_to_secs(max_time(h)) - ms_to_secs(min_time(h))) / 86400;
    if h.len() == 0 || d < 1 { 1 } else { d }
}

/// WRITE, MERGE, UPDATE and DELETE commits write data.
pub open spec fn is_write(c: CommitRecord) -> bool {
    match c.operation {
        Some(s) => s@ == "WRITE"@ || s@ == "MERGE"@ || s@ == "UPDATE"@ || s@ == "DELETE"@,
        None => false,
    }
}

/// The times of the writing commits, in history order.
pub open spec fn write_times(h: Seq<CommitRecord>) -> Seq<int>
    decreases h.len(),
{
    if h.len() == 0 {
        seq![]
    } else if is_write(h.last()) {
        write_times(h.drop_last()).push(time_of(h.last()))
    } else {
        write_times(h.drop_last())
    }
}

/// The write pattern of a newest-first history: the mean gap between
/// consecutive writes, which is the span from the first to the last write
/// over the number of gaps, is under five minutes for a streaming pattern
/// and over a day for a batch pattern.
pub open spec fn write_pattern_notes(h: Seq<CommitRecord>) -> Seq<Seq<char>> {
    let w = write_times(h);
    if w.len() < 2 {
        seq![]
    } else {
        let span = w[0] - w.last();
        let gaps = w.len() - 1;
        if span < 300000 * gaps {
            seq!["Streaming pattern: writes every few minutes"@]
        } else if span > 86400000 * gaps {
            seq!["Batch pattern: writes once per day or less"@]
        } else {
            seq![]
        }
    }
}

/// What the timeline view shows of a history.
pub struct TimelineAnalysis {
    pub total_operations: usize,
    pub operations_by_type: Vec<(String, usize)>,
    /// Each day with the positions, in the history, of its commits.
    pub operations_by_day: Vec<(String, Vec<usize>)>,
    /// Whole days from the earliest to the latest commit, at least one.
    pub days_elapsed: i64,
    pub write_patterns: Vec<String>,
    /// The oldest commit: the last of the newest-first history.
    pub first_operation: Option<CommitRecord>,
    /// The newest commit: the first of the history.
    pub latest_operation: Option<CommitRecord>,
}

impl TimelineAnalysis {
    /// Versions created per day, in hundredths, rounded half to even.
    pub fn creation_rate_hundredths(&self) -> (r: u128)
        requires
            self.days_elapsed >= 1,
        ensures
            r == round_div(100 * self.total_operations as nat, self.days_elapsed as nat),
    {
        crate::text::round_div_exec(100 * (self.total_operations as u128), self.days_elapsed as u128)
    }
}

fn operation_name(c: &CommitRecord) -> (r: String)
    ensures
        r@ == operation_label(*c),
{
    match &c.operation {
        Some(s) => s.clone(),
        None => String::from_str("Unknown"),
    }
}

fn is_write_exec(c: &CommitRecord) -> (r: bool)
    ensures
        r == is_write(*c),
{
    match &c.operation {
        Some(s) => {
            *s == String::from_str("WRITE") || *s == String::from_str("MERGE") || *s
                == String::from_str("UPDATE") || *s == String::from_str("DELETE")
        },
        None => false,
    }
}

fn time_exec(c: &CommitRecord) -> (r: i64)
    ensures
        r == time_of(*c),
{
    match c.timestamp {
        Some(t) => t,
        None => 0,
    }
}

fn write_notes(h: &Vec<CommitRecord>) -> (r: Vec<String>)
    ensures
        texts(r@) == write_pattern_notes(h@),
{
    let mut count: usize = 0;
    let mut first: i64 = 0;
    let mut last: i64 = 0;
    let mut i: usize = 0;
    while i < h.len()
        invariant
            0 <= i <= h@.len(),
            count == write_times(h@.take(i as int)).len(),
            count <= i,
            count > 0 ==> first == write_times(h@.take(i as int))[0],
            count > 0 ==> last == write_times(h@.take(i as int)).last(),
        decreases h@.len() - i,
    {
        assert(h@.take(i + 1).drop_last() =~= h@.take(i as int));
        if is_write_exec(&h[i]) {
            let t = time_exec(&h[i]);
            if count == 0 {
                first = t;
            }
            last = t;
            count = count + 1;
        }
        i = i + 1;
    }
    assert(h@.take(h@.len() as int) =~= h@);
    let mut r: Vec<String> = Vec::new();
    if count >= 2 {
        let span: i128 = first as i128 - last as i128;
        let gaps: i128 = (count - 1) as i128;
        if span < 300000 * gaps {
            r.push(String::from_str("Streaming pattern: writes every few minutes"));
        } else if span > 86400000 * gaps {
            r.push(String::from_str("Batch pattern: writes once per day or less"));
        }
    }
    assert(texts(r@) =~= write_pattern_notes(h@));
    r
}

/// Analyzes a newest-first history.
pub fn timeline_analysis(h: &Vec<CommitRecord>) -> (r: TimelineAnalysis)
    ensures
        r.total_operations == h@.len(),
        is_tally(r.operations_by_type@, op_labels(h@)),
        in_first_order(r.operations_by_type@, op_labels(h@)),
        is_grouping(r.operations_by_day@, day_labels(h@)),
        r.days_elapsed == days_spanned(h@),
        texts(r.write_patterns@) == write_pattern_notes(h@),
        h@.len() == 0 ==> r.first_operation is None && r.latest_operation is None,
        h@.len() > 0 ==> (r.first_operation matches Some(c) && c.timestamp == h@.last().timestamp
            && c.operation == h@.last().operation && c.read_version == h@.last().read_version
            && c.parameters@ == h@.last().parameters@),
        h@.len() > 0 ==> (r.latest_operation matches Some(c) && c.timestamp == h@[0].timestamp
            && c.operation == h@[0].operation && c.read_version == h@[0].read_version
            && c.parameters@ == h@[0].parameters@),
{
    let mut ops: Vec<String> = Vec::new();
    let mut days: Vec<String> = Vec::new();
    let mut lo: i64 = 0;
    let mut hi: i64 = 0;
    let mut i: usize = 0;
    while i < h.len()
        invariant
            0 <= i <= h@.len(),
            texts(ops@) == op_labels(h@.take(i as int)),
            texts(days@) == day_labels(h@.take(i as int)),
            i > 0 ==> lo == min_time(h@.take(i as int)),
            i > 0 ==> hi == max_time(h@.take(i as int)),
        decreases h@.len() - i,
    {
        assert(h@.take(i + 1).drop_last() =~= h@.take(i as int));
        let t = time_exec(&h[i]);
        let name = operation_name(&h[i]);
        let day = day_label(millis_to_secs(t));
        let ghost ops_before = texts(ops@);
        let ghost days_before = texts(days@);
        assert(h@.take(i + 1) =~= h@.take(i as int).push(h@[i as int]));
        assert(op_labels(h@.take(i + 1)) =~= op_labels(h@.take(i as int)).push(name@));
        assert(day_labels(h@.take(i + 1)) =~= day_labels(h@.take(i as int)).push(day@));
        ops.push(name);
        days.push(day);
        assert(texts(ops@) =~= ops_before.push(name@));
        assert(texts(days@) =~= days_before.push(day@));
        if i == 0 || t < lo {
            lo = t;
        }
        if i == 0 || t > hi {
            hi = t;
        }
        i = i + 1;
    }
    assert(h@.take(h@.len() as int) =~= h@);
    let operations_by_type = tally(&ops);
    let operations_by_day = group_positions(&days);
    let mut days_elapsed: i64 = 1;
    if h.len() > 0 {
        let d: i128 = (millis_to_secs(hi) as i128 - millis_to_secs(lo) as i128) / 86400;
        if d >= 1 {
            days_elapsed = d as i64;
        }
    }
    let write_patterns = write_notes(h);
    let (first_operation, latest_operation) = if h.len() > 0 {
        (Some(h[h.len() - 1].duplicate()), Some(h[0].duplicate()))
    } else {
        (None, None)
    };
    TimelineAnalysis {
        total_operations: h.len(),
        operations_by_type,
        operations_by_day,
        days_elapsed,
        write_patterns,
        first_operation,
        latest_operation,
    }
}

} // verus!
