//! The configuration snapshot of a table and the advanced features read
//! from its properties and protocol.

use vstd::prelude::*;
use crate::rules::texts;

verus! {

/// Reader and writer requirements of the table's protocol.
pub struct ProtocolInfo {
    pub min_reader_version: i32,
    pub min_writer_version: i32,
    pub reader_features: Vec<String>,
    pub writer_features: Vec<String>,
}

/// The newest checkpoint of the transaction log.
pub struct CheckpointInfo {
    pub has_checkpoints: bool,
    pub latest_checkpoint: Option<String>,
    pub checkpoint_size_bytes: i64,
}

/// The files of the transaction log.
pub struct TransactionLogInfo {
    pub num_json_files: usize,
    pub num_checkpoints: usize,
    pub log_size_bytes: u64,
}

pub struct ColumnMappingInfo {
    pub enabled: bool,
    pub mode: String,
}

pub struct AutoOptimizeInfo {
    pub enabled: bool,
    pub auto_compact: bool,
    pub optimize_write: bool,
}

pub struct DataSkippingInfo {
    pub enabled: bool,
    pub num_indexed_cols: i32,
}

/// Features that the properties and the protocol switch on.
pub struct AdvancedFeatures {
    pub deletion_vectors: bool,
    pub column_mapping: ColumnMappingInfo,
    pub liquid_clustering: bool,
    pub timestamp_ntz: bool,
    /// The properties that hold check constraints.
    pub check_constraints: Vec<(String, String)>,
    pub auto_optimize: AutoOptimizeInfo,
    pub data_skipping: DataSkippingInfo,
    pub change_data_feed: bool,
    pub vacuum_retention_hours: i32,
}

/// Everything the configuration view shows.
pub struct ConfigurationInfo {
    pub table_properties: Vec<(String, String)>,
    pub table_id: Option<String>,
    pub table_name: Option<String>,
    pub description: Option<String>,
    pub created_time: Option<i64>,
    pub partition_columns: Vec<String>,
    pub protocol: ProtocolInfo,
    pub checkpoint_info: CheckpointInfo,
    pub transaction_log: TransactionLogInfo,
    pub advanced_features: AdvancedFeatures,
}

/// No key occurs twice among the pairs.
pub open spec fn unique_keys(s: Seq<(String, String)>) -> bool {
    forall|i: int, j: int| 0 <= i < j < s.len() ==> #[trigger] s[i].0@ != #[trigger] s[j].0@
}

/// Whether no key occurs twice among the pairs.
pub fn has_unique_keys(v: &Vec<(String, String)>) -> (r: bool)
    ensures
        r == unique_keys(v@),
{
    let mut i: usize = 0;
    while i < v.len()
        invariant
            0 <= i <= v@.len(),
            forall|a: int, b: int| 0 <= a < i && a < b < v@.len() ==> #[trigger] v@[a].0@ != #[trigger] v@[b].0@,
        decreases v@.len() - i,
    {
        let mut j: usize = i + 1;
        while j < v.len()
            invariant
                i < v@.len(),
                i + 1 <= j <= v@.len(),
                forall|a: int, b: int| 0 <= a < i && a < b < v@.len() ==> #[trigger] v@[a].0@ != #[trigger] v@[b].0@,
                forall|b: int| i < b < j ==> v@[i as int].0@ != #[trigger] v@[b].0@,
            decreases v@.len() - j,
        {
            if v[i].0 == v[j].0 {
                assert(!unique_keys(v@)) by {
                    assert(v@[i as int].0@ == v@[j as int].0@);
                }
                return false;
            }
            j = j + 1;
        }
        i = i + 1;
    }
    true
}

/// The value of property `k`: the first entry with that key.
pub open spec fn lookup(cfg: Seq<(String, String)>, k: Seq<char>) -> Option<Seq<char>>
    decreases cfg.len(),
{
    if cfg.len() == 0 {
        None
    } else if cfg[0].0@ == k {
        Some(cfg[0].1@)
    } else {
        lookup(cfg.drop_first(), k)
    }
}

/// Property `k` is set to `true`.
pub open spec fn flag(cfg: Seq<(String, String)>, k: Seq<char>) -> bool {
    lookup(cfg, k) == Some("true"@)
}

/// `s` begins with `p`.
pub open spec fn has_prefix(s: Seq<char>, p: Seq<char>) -> bool {
    p.len() <= s.len() && s.subrange(0, p.len() as int) == p
}

/// `s` with every occurrence of the non-empty `p` taken out, left to right.
pub open spec fn remove_all(s: Seq<char>, p: Seq<char>) -> Seq<char>
    decreases s.len(),
{
    if s.len() == 0 || p.len() == 0 {
        s
    } else if has_prefix(s, p) {
        remove_all(s.subrange(p.len() as int, s.len() as int), p)
    } else {
        seq![s[0]] + remove_all(s.drop_first(), p)
    }
}

/// A decimal digit.
pub open spec fn is_digit(c: char) -> bool {
    '0' <= c <= '9'
}

/// The value of a string of decimal digits.
pub open spec fn digits_value(s: Seq<char>) -> int
    decreases s.len(),
{
    if s.len() == 0 {
        0
    } else {
        10 * digits_value(s.drop_last()) + (s.last() as int - '0' as int)
    }
}

/// One or more decimal digits.
pub open spec fn all_digits(s: Seq<char>) -> bool {
    s.len() > 0 && forall|i: int| 0 <= i < s.len() ==> is_digit(#[trigger] s[i])
}

/// The integer that `s` writes: digits, optionally after `+` or `-`.
pub open spec fn integer_text(s: Seq<char>) -> Option<int> {
    if s.len() > 0 && s[0] == '-' && all_digits(s.drop_first()) {
        Some(-digits_value(s.drop_first()))
    } else if s.len() > 0 && s[0] == '+' && all_digits(s.drop_first()) {
        Some(digits_value(s.drop_first()))
    } else if all_digits(s) {
        Some(digits_value(s))
    } else {
        None
    }
}

/// What parsing `s` as an `i32` gives: the integer it writes, when it is
/// in range.
pub open spec fn parsed_i32(s: Seq<char>) -> Option<i32> {
    match integer_text(s) {
        Some(v) => if i32::MIN <= v <= i32::MAX {
            Some(v as i32)
        } else {
            None
        },
        None => None,
    }
}

proof fn lemma_digits_value_prefix(t: Seq<char>, k: int)
    requires
        forall|i: int| 0 <= i < t.len() ==> is_digit(#[trigger] t[i]),
        0 <= k <= t.len(),
    ensures
        0 <= digits_value(t.take(k)) <= digits_value(t),
    decreases t.len(),
{
    if t.len() > 0 {
        if k == t.len() {
            assert(t.take(k) =~= t);
            lemma_digits_value_prefix(t.drop_last(), 0);
            assert(t.drop_last().take(0) =~= Seq::<char>::empty());
        } else {
            assert(t.take(k) =~= t.drop_last().take(k));
        }
        assert forall|i: int| 0 <= i < t.drop_last().len() implies is_digit(#[trigger] t.drop_last()[i]) by {
            assert(is_digit(t[i]));
        }
        lemma_digits_value_prefix(t.drop_last(), if k == t.len() { 0 } else { k });
        assert(is_digit(t[t.len() - 1]));
    }
}

/// Reads `s` as an `i32`: an optional `+` or `-` and decimal digits, in
/// range; anything else is `None`.
pub fn parse_i32(s: &str) -> (r: Option<i32>)
    ensures
        r == parsed_i32(s@),
{
    let n = s.unicode_len();
    if n == 0 {
        return None;
    }
    let first = s.get_char(0);
    let neg = first == '-';
    let start: usize = if first == '-' || first == '+' { 1 } else { 0 };
    if start == n {
        assert(!all_digits(s@)) by {
            assert(!is_digit(s@[0]));
        }
        assert(!all_digits(s@.drop_first()));
        return None;
    }
    let ghost body = s@.subrange(start as int, n as int);
    assert(start == 1 ==> body =~= s@.drop_first());
    assert(start == 0 ==> body =~= s@);
    assert(integer_text(s@) == if all_digits(body) {
        Some(if neg { -digits_value(body) } else { digits_value(body) })
    } else {
        None::<int>
    }) by {
        if start == 1 {
            assert(!is_digit(s@[0]));
            assert(!all_digits(s@));
        }
    }
    let mut acc: i64 = 0;
    let mut i: usize = start;
    while i < n
        invariant
            n == s@.len(),
            start <= i <= n,
            body == s@.subrange(start as int, n as int),
            forall|j: int| 0 <= j < i - start ==> is_digit(#[trigger] body[j]),
            acc == digits_value(body.take(i - start)),
            0 <= acc <= 2147483648,
            body.len() > 0,
            integer_text(s@) == if all_digits(body) {
                Some(if neg { -digits_value(body) } else { digits_value(body) })
            } else {
                None::<int>
            },
        decreases n - i,
    {
        let c = s.get_char(i);
        assert(c == body[i - start]);
        if !('0' <= c && c <= '9') {
            assert(!is_digit(body[i - start]));
            assert(!all_digits(body));
            return None;
        }
        assert(body.take(i - start + 1).drop_last() =~= body.take(i - start));
        acc = acc * 10 + (c as i64 - '0' as i64);
        if acc > 2147483648 {
            proof {
                if all_digits(body) {
                    lemma_digits_value_prefix(body, i - start + 1);
                }
            }
            return None;
        }
        i = i + 1;
    }
    assert(body.take(n - start) =~= body);
    assert(all_digits(body));
    let v: i64 = if neg { 0 - acc } else { acc };
    if v < -2147483648 || v > 2147483647 {
        None
    } else {
        Some(v as i32)
    }
}

/// A character with the Unicode White_Space property.
pub open spec fn is_white_space(c: char) -> bool {
    ('\u{9}' <= c <= '\u{d}') || c == ' ' || c == '\u{85}' || c == '\u{a0}' || c == '\u{1680}'
        || ('\u{2000}' <= c <= '\u{200a}') || c == '\u{2028}' || c == '\u{2029}' || c == '\u{202f}'
        || c == '\u{205f}' || c == '\u{3000}'
}

fn white_space(c: char) -> (r: bool)
    ensures
        r == is_white_space(c),
{
    ('\u{9}' <= c && c <= '\u{d}') || c == ' ' || c == '\u{85}' || c == '\u{a0}' || c == '\u{1680}'
        || ('\u{2000}' <= c && c <= '\u{200a}') || c == '\u{2028}' || c == '\u{2029}' || c
        == '\u{202f}' || c == '\u{205f}' || c == '\u{3000}'
}

/// `s` without its leading white space.
pub open spec fn trim_start(s: Seq<char>) -> Seq<char>
    decreases s.len(),
{
    if s.len() > 0 && is_white_space(s[0]) { trim_start(s.drop_first()) } else { s }
}

/// `s` without its trailing white space.
pub open spec fn trim_end(s: Seq<char>) -> Seq<char>
    decreases s.len(),
{
    if s.len() > 0 && is_white_space(s.last()) { trim_end(s.drop_last()) } else { s }
}

/// `s` without white space at either end.
pub open spec fn trimmed(s: Seq<char>) -> Seq<char> {
    trim_end(trim_start(s))
}

/// Removes white space from both ends of `s`.
pub fn trim_text(s: &str) -> (r: String)
    ensures
        r@ == trimmed(s@),
{
    let n = s.unicode_len();
    let mut lo: usize = 0;
    assert(s@.subrange(0, n as int) =~= s@);
    while lo < n && white_space(s.get_char(lo))
        invariant
            n == s@.len(),
            lo <= n,
            trim_start(s@) == trim_start(s@.subrange(lo as int, n as int)),
        decreases n - lo,
    {
        assert(s@.subrange(lo as int, n as int).drop_first() =~= s@.subrange(lo + 1, n as int));
        lo = lo + 1;
    }
    let ghost rest = s@.subrange(lo as int, n as int);
    assert(trim_start(s@) == rest) by {
        if rest.len() > 0 {
            assert(rest[0] == s@[lo as int]);
        }
    }
    let mut hi: usize = n;
    assert(rest.subrange(0, (hi - lo) as int) =~= rest);
    while hi > lo && white_space(s.get_char(hi - 1))
        invariant
            n == s@.len(),
            lo <= hi <= n,
            rest == s@.subrange(lo as int, n as int),
            trim_end(rest) == trim_end(s@.subrange(lo as int, hi as int)),
        decreases hi,
    {
        assert(s@.subrange(lo as int, hi as int).drop_last() =~= s@.subrange(lo as int, hi - 1));
        hi = hi - 1;
    }
    let ghost kept = s@.subrange(lo as int, hi as int);
    assert(trim_end(rest) == kept) by {
        if kept.len() > 0 {
            assert(kept.last() == s@[hi - 1]);
        }
    }
    String::from_str(s.substring_char(lo, hi))
}

/// Whether `s` begins with `p`.
pub fn starts_with_text(s: &str, p: &str) -> (r: bool)
    ensures
        r == has_prefix(s@, p@),
{
    let n = s.unicode_len();
    let m = p.unicode_len();
    if m > n {
        return false;
    }
    let mut i: usize = 0;
    while i < m
        invariant
            m == p@.len(),
            n == s@.len(),
            m <= n,
            0 <= i <= m,
            forall|j: int| 0 <= j < i ==> s@[j] == p@[j],
        decreases m - i,
    {
        if s.get_char(i) != p.get_char(i) {
            assert(s@.subrange(0, m as int)[i as int] != p@[i as int]);
            return false;
        }
        i = i + 1;
    }
    assert(s@.subrange(0, m as int) =~= p@);
    true
}

/// `s` with every occurrence of `p` taken out; an empty `p` leaves `s` as it is.
pub fn remove_text(s: &str, p: &str) -> (r: String)
    ensures
        r@ == remove_all(s@, p@),
{
    let n = s.unicode_len();
    let m = p.unicode_len();
    if m == 0 {
        return String::from_str(s);
    }
    let mut out = String::new();
    let mut i: usize = 0;
    assert(s@.subrange(0, n as int) =~= s@);
    assert(out@ + remove_all(s@, p@) =~= remove_all(s@, p@));
    while i < n
        invariant
            n == s@.len(),
            m == p@.len(),
            m > 0,
            0 <= i <= n,
            out@ + remove_all(s@.subrange(i as int, n as int), p@) == remove_all(s@, p@),
        decreases n - i,
    {
        let rest = s.substring_char(i, n);
        assert(rest@ == s@.subrange(i as int, n as int));
        if starts_with_text(rest, p) {
            assert(rest@.subrange(m as int, rest@.len() as int) =~= s@.subrange(i + m, n as int));
            i = i + m;
        } else {
            let c = s.substring_char(i, i + 1);
            assert(rest@.drop_first() =~= s@.subrange(i + 1, n as int));
            assert(c@ =~= seq![rest@[0]]);
            let ghost before = out@;
            out.append(c);
            assert(out@ + remove_all(s@.subrange(i + 1, n as int), p@) =~= before + remove_all(rest@, p@));
            i = i + 1;
        }
    }
    assert(s@.subrange(n as int, n as int) =~= Seq::<char>::empty());
    assert(out@ =~= remove_all(s@, p@));
    out
}

/// The value of property `k`, if set.
pub fn property<'a>(cfg: &'a Vec<(String, String)>, k: &str) -> (r: Option<&'a String>)
    ensures
        r matches Some(v) ==> lookup(cfg@, k@) == Some(v@),
        r is None ==> lookup(cfg@, k@) is None,
{
    let key = String::from_str(k);
    let mut i: usize = 0;
    assert(cfg@.subrange(0, cfg@.len() as int) =~= cfg@);
    while i < cfg.len()
        invariant
            0 <= i <= cfg@.len(),
            key@ == k@,
            lookup(cfg@, k@) == lookup(cfg@.subrange(i as int, cfg@.len() as int), k@),
        decreases cfg@.len() - i,
    {
        let ghost rest = cfg@.subrange(i as int, cfg@.len() as int);
        assert(rest[0] == cfg@[i as int]);
        if cfg[i].0 == key {
            return Some(&cfg[i].1);
        }
        assert(rest.drop_first() =~= cfg@.subrange(i + 1, cfg@.len() as int));
        i = i + 1;
    }
    None
}

fn is_true(v: Option<&String>) -> (r: bool)
    ensures
        r == (v matches Some(s) && s@ == "true"@),
{
    match v {
        Some(s) => *s == String::from_str("true"),
        None => false,
    }
}

fn contains_feature(fs: &Vec<String>, name: &str) -> (r: bool)
    ensures
        r == texts(fs@).contains(name@),
{
    let target = String::from_str(name);
    let mut i: usize = 0;
    while i < fs.len()
        invariant
            0 <= i <= fs@.len(),
            target@ == name@,
            forall|j: int| 0 <= j < i ==> fs@[j]@ != name@,
        decreases fs@.len() - i,
    {
        if fs[i] == target {
            assert(texts(fs@)[i as int] == name@);
            return true;
        }
        i = i + 1;
    }
    assert forall|j: int| 0 <= j < fs@.len() implies texts(fs@)[j] != name@ by {
        assert(fs@[j]@ != name@);
    }
    false
}

/// The properties whose key starts with `delta.constraints.`, in order.
pub open spec fn constraint_entries(cfg: Seq<(String, String)>) -> Seq<(Seq<char>, Seq<char>)>
    decreases cfg.len(),
{
    if cfg.len() == 0 {
        seq![]
    } else if has_prefix(cfg.last().0@, "delta.constraints."@) {
        constraint_entries(cfg.drop_last()).push((cfg.last().0@, cfg.last().1@))
    } else {
        constraint_entries(cfg.drop_last())
    }
}

/// The characters of each pair of strings.
pub open spec fn pair_views(v: Seq<(String, String)>) -> Seq<(Seq<char>, Seq<char>)> {
    v.map_values(|p: (String, String)| (p.0@, p.1@))
}

/// The column mapping mode: the property's value, `none` when unset.
pub open spec fn mapping_mode(cfg: Seq<(String, String)>) -> Seq<char> {
    match lookup(cfg, "delta.columnMapping.mode"@) {
        Some(m) => m,
        None => "none"@,
    }
}

/// The number of indexed columns for data skipping: the property read as an
/// `i32`, 32 when unset or unreadable.
pub open spec fn indexed_cols(cfg: Seq<(String, String)>) -> i32 {
    match lookup(cfg, "delta.dataSkippingNumIndexedCols"@) {
        Some(v) => match parsed_i32(v) {
            Some(n) => n,
            None => 32,
        },
        None => 32,
    }
}

/// The vacuum retention in hours: the retention property without the word
/// `hours`, trimmed and read as an `i32`; 168 when unset or unreadable.
pub open spec fn retention_hours(cfg: Seq<(String, String)>) -> i32 {
    match lookup(cfg, "delta.deletedFileRetentionDuration"@) {
        Some(v) => match parsed_i32(trimmed(remove_all(v, "hours"@))) {
            Some(n) => n,
            None => 168,
        },
        None => 168,
    }
}

/// Reads the advanced features from the table properties and the protocol's
/// writer features.
pub fn detect_advanced_features(config: &Vec<(String, String)>, writer_features: &Vec<String>) -> (r: AdvancedFeatures)
    requires
        unique_keys(config@),
    ensures
        r.deletion_vectors == texts(writer_features@).contains("deletionVectors"@),
        r.timestamp_ntz == texts(writer_features@).contains("timestampNtz"@),
        r.column_mapping.mode@ == mapping_mode(config@),
        r.column_mapping.enabled == (mapping_mode(config@) != "none"@),
        r.liquid_clustering == (lookup(config@, "clustering"@) is Some),
        pair_views(r.check_constraints@) == constraint_entries(config@),
        r.auto_optimize.auto_compact == flag(config@, "delta.autoOptimize.autoCompact"@),
        r.auto_optimize.optimize_write == flag(config@, "delta.autoOptimize.optimizeWrite"@),
        r.auto_optimize.enabled == (r.auto_optimize.auto_compact || r.auto_optimize.optimize_write),
        r.data_skipping.enabled,
        r.data_skipping.num_indexed_cols == indexed_cols(config@),
        r.change_data_feed == flag(config@, "delta.enableChangeDataFeed"@),
        r.vacuum_retention_hours == retention_hours(config@),
{
    let mode = match property(config, "delta.columnMapping.mode") {
        Some(m) => m.clone(),
        None => String::from_str("none"),
    };
    let mapping_enabled = !(mode == String::from_str("none"));

    let mut check_constraints: Vec<(String, String)> = Vec::new();
    let mut i: usize = 0;
    while i < config.len()
        invariant
            0 <= i <= config@.len(),
            pair_views(check_constraints@) == constraint_entries(config@.take(i as int)),
        decreases config@.len() - i,
    {
        assert(config@.take(i + 1).drop_last() =~= config@.take(i as int));
        if starts_with_text(config[i].0.as_str(), "delta.constraints.") {
            let ghost before = pair_views(check_constraints@);
            check_constraints.push((config[i].0.clone(), config[i].1.clone()));
            assert(pair_views(check_constraints@) =~= before.push((config@[i as int].0@, config@[i as int].1@)));
        }
        i = i + 1;
    }
    assert(config@.take(config@.len() as int) =~= config@);

    let auto_compact = is_true(property(config, "delta.autoOptimize.autoCompact"));
    let optimize_write = is_true(property(config, "delta.autoOptimize.optimizeWrite"));

    let num_indexed_cols = match property(config, "delta.dataSkippingNumIndexedCols") {
        Some(v) => match parse_i32(v.as_str()) {
            Some(n) => n,
            None => 32,
        },
        None => 32,
    };

    let vacuum_retention_hours = match property(config, "delta.deletedFileRetentionDuration") {
        Some(v) => {
            proof {
                reveal_strlit("hours");
            }
            let stripped = remove_text(v.as_str(), "hours");
            let trimmed = trim_text(stripped.as_str());
            match parse_i32(trimmed.as_str()) {
                Some(n) => n,
                None => 168,
            }
        },
        None => 168,
    };

    AdvancedFeatures {
        deletion_vectors: contains_feature(writer_features, "deletionVectors"),
        column_mapping: ColumnMappingInfo { enabled: mapping_enabled, mode },
        liquid_clustering: property(config, "clustering").is_some(),
        timestamp_ntz: contains_feature(writer_features, "timestampNtz"),
        check_constraints,
        auto_optimize: AutoOptimizeInfo {
            enabled: auto_compact || optimize_write,
            auto_compact,
            optimize_write,
        },
        data_skipping: DataSkippingInfo { enabled: true, num_indexed_cols },
        change_data_feed: is_true(property(config, "delta.enableChangeDataFeed")),
        vacuum_retention_hours,
    }
}

/// A file of the transaction log directory.
pub struct LogFile {
    /// The full path, as text.
    pub path: String,
    /// The file name alone.
    pub name: String,
    pub size_bytes: u64,
    /// Last modification, nanoseconds since the Unix epoch.
    pub modified_nanos: u128,
}

/// `p` occurs somewhere in `s`.
pub open spec fn mentions(s: Seq<char>, p: Seq<char>) -> bool {
    exists|i: int| 0 <= i && i + p.len() <= s.len() && #[trigger] s.subrange(i, i + p.len()) == p
}

/// A file name with the extension `json`: it ends in `.json` after a
/// non-empty stem.
pub open spec fn is_json_name(name: Seq<char>) -> bool {
    name.len() > 5 && name.subrange(name.len() - 5, name.len() as int) == ".json"@
}

/// A checkpoint file: its path mentions `checkpoint`.
pub open spec fn is_checkpoint(f: LogFile) -> bool {
    mentions(f.path@, "checkpoint"@)
}

/// The number of JSON commit files.
pub open spec fn json_count(fs: Seq<LogFile>) -> nat
    decreases fs.len(),
{
    if fs.len() == 0 {
        0
    } else {
        json_count(fs.drop_last()) + if is_json_name(fs.last().name@) { 1nat } else { 0nat }
    }
}

/// The total size of the JSON commit files.
pub open spec fn json_size(fs: Seq<LogFile>) -> nat
    decreases fs.len(),
{
    if fs.len() == 0 {
        0
    } else {
        json_size(fs.drop_last()) + if is_json_name(fs.last().name@) {
            fs.last().size_bytes as nat
        } else {
            0nat
        }
    }
}

/// The number of checkpoint files.
pub open spec fn checkpoint_count(fs: Seq<LogFile>) -> nat
    decreases fs.len(),
{
    if fs.len() == 0 {
        0
    } else {
        checkpoint_count(fs.drop_last()) + if is_checkpoint(fs.last()) { 1nat } else { 0nat }
    }
}

/// The position of the most recently modified checkpoint file, the last
/// one among equally recent files.
pub open spec fn latest_checkpoint(fs: Seq<LogFile>) -> Option<int>
    decreases fs.len(),
{
    if fs.len() == 0 {
        None
    } else {
        let prev = latest_checkpoint(fs.drop_last());
        if is_checkpoint(fs.last()) && (prev is None || fs.last().modified_nanos >= fs[prev->0].modified_nanos) {
            Some(fs.len() - 1)
        } else {
            prev
        }
    }
}

proof fn lemma_latest_in_range(fs: Seq<LogFile>)
    ensures
        latest_checkpoint(fs) matches Some(j) ==> 0 <= j < fs.len(),
    decreases fs.len(),
{
    if fs.len() > 0 {
        lemma_latest_in_range(fs.drop_last());
    }
}

/// Whether `p` occurs in `s`.
pub fn mentions_text(s: &str, p: &str) -> (r: bool)
    ensures
        r == mentions(s@, p@),
{
    let n = s.unicode_len();
    let m = p.unicode_len();
    if m > n {
        return false;
    }
    if m == 0 {
        assert(s@.subrange(0int, 0int + p@.len()) =~= p@);
        return true;
    }
    let last = n - m;
    let mut i: usize = 0;
    while i <= last
        invariant
            n == s@.len(),
            m == p@.len(),
            0 < m <= n,
            last == n - m,
            0 <= i <= last + 1,
            forall|j: int| 0 <= j < i ==> #[trigger] s@.subrange(j, j + m) != p@,
        decreases last + 1 - i,
    {
        let rest = s.substring_char(i, n);
        assert(rest@.subrange(0, m as int) =~= s@.subrange(i as int, i + m));
        if starts_with_text(rest, p) {
            return true;
        }
        i = i + 1;
    }
    assert forall|j: int| 0 <= j && j + p@.len() <= s@.len() implies #[trigger] s@.subrange(j, j + p@.len()) != p@ by {
        assert(j < i);
    }
    false
}

fn json_name(name: &str) -> (r: bool)
    ensures
        r == is_json_name(name@),
{
    let n = name.unicode_len();
    if n <= 5 {
        return false;
    }
    let tail = name.substring_char(n - 5, n);
    let suffix = String::from_str(".json");
    let t = String::from_str(tail);
    t == suffix
}

/// Summarizes the transaction log directory: how many JSON commit files and
/// checkpoints it holds, the JSON files' total size (at most `u64::MAX`), and
/// the most recent checkpoint.
pub fn summarize_log(files: &Vec<LogFile>) -> (r: (CheckpointInfo, TransactionLogInfo))
    ensures
        r.1.num_json_files == json_count(files@),
        r.1.num_checkpoints == checkpoint_count(files@),
        r.1.log_size_bytes == if json_size(files@) <= u64::MAX { json_size(files@) } else { u64::MAX as nat },
        r.0.has_checkpoints == (latest_checkpoint(files@) is Some),
        latest_checkpoint(files@) is None ==> r.0.latest_checkpoint is None && r.0.checkpoint_size_bytes == 0,
        latest_checkpoint(files@) matches Some(j) ==> (r.0.latest_checkpoint matches Some(name) && name@
            == files@[j].name@ && r.0.checkpoint_size_bytes == #[verifier::truncate] (files@[j].size_bytes as i64)),
{
    let mut jsons: usize = 0;
    let mut checkpoints: usize = 0;
    let mut size: u128 = 0;
    let mut latest: Option<usize> = None;
    let mut i: usize = 0;
    while i < files.len()
        invariant
            0 <= i <= files@.len(),
            jsons == json_count(files@.take(i as int)),
            checkpoints == checkpoint_count(files@.take(i as int)),
            jsons <= i,
            checkpoints <= i,
            size == json_size(files@.take(i as int)),
            size <= i * 0xffff_ffff_ffff_ffff,
            latest is None <==> latest_checkpoint(files@.take(i as int)) is None,
            latest matches Some(j) ==> latest_checkpoint(files@.take(i as int)) == Some(j as int),
            latest matches Some(j) ==> j < i,
        decreases files@.len() - i,
    {
        let ghost pre = files@.take(i as int);
        assert(files@.take(i + 1).drop_last() =~= pre);
        assert(files@.take(i + 1).last() == files@[i as int]);
        proof {
            lemma_latest_in_range(pre);
        }
        let f = &files[i];
        if json_name(f.name.as_str()) {
            jsons = jsons + 1;
            assert(size + f.size_bytes <= (i + 1) * 0xffff_ffff_ffff_ffff) by (nonlinear_arith)
                requires size <= i * 0xffff_ffff_ffff_ffff, f.size_bytes <= 0xffff_ffff_ffff_ffff;
            size = size + f.size_bytes as u128;
        } else {
            assert(size <= (i + 1) * 0xffff_ffff_ffff_ffff) by (nonlinear_arith)
                requires size <= i * 0xffff_ffff_ffff_ffff;
        }
        if mentions_text(f.path.as_str(), "checkpoint") {
            checkpoints = checkpoints + 1;
            match latest {
                None => {
                    latest = Some(i);
                },
                Some(j) => {
                    assert(files@.take(i + 1)[j as int] == files@[j as int]);
                    if f.modified_nanos >= files[j].modified_nanos {
                        latest = Some(i);
                    }
                },
            }
        } else {
            match latest {
                Some(j) => {
                    assert(files@.take(i + 1)[j as int] == files@[j as int]);
                },
                None => {},
            }
        }
        i = i + 1;
    }
    assert(files@.take(files@.len() as int) =~= files@);
    let log_size_bytes: u64 = if size <= 0xffff_ffff_ffff_ffff { size as u64 } else { 0xffff_ffff_ffff_ffff };
    let checkpoint = match latest {
        Some(j) => CheckpointInfo {
            has_checkpoints: true,
            latest_checkpoint: Some(files[j].name.clone()),
            checkpoint_size_bytes: #[verifier::truncate] (files[j].size_bytes as i64),
        },
        None => CheckpointInfo { has_checkpoints: false, latest_checkpoint: None, checkpoint_size_bytes: 0 },
    };
    (checkpoint, TransactionLogInfo { num_json_files: jsons, num_checkpoints: checkpoints, log_size_bytes })
}

} // verus!
