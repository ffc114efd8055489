//! The engine: runs every rule, closes the report and orders it, and the
//! laws that the report obeys.

use vstd::prelude::*;
use crate::stats::TableStatistics;
use crate::insights::{
    Insight, InsightModel, Severity, Category, models, of_severity, by_severity, closed,
    has_problem, is_problem, looks_good, order_by_severity, close_report,
};
use crate::rules::{
    file_size_findings, file_count_findings, vacuum_findings, partitioning_findings,
    optimization_findings, skew_findings, write_pattern_findings, never_vacuumed, vacuum_overdue,
    analyze_file_sizes, analyze_file_count, analyze_vacuum_history, analyze_partitioning,
    analyze_optimization_history, analyze_data_skew, analyze_write_patterns,
};

verus! {

/// The findings of the seven rules, in rule order.
pub open spec fn raw_findings(st: TableStatistics, now: int) -> Seq<InsightModel> {
    file_size_findings(st) + file_count_findings(st) + vacuum_findings(st, now)
        + partitioning_findings(st) + optimization_findings(st) + skew_findings(st)
        + write_pattern_findings(st)
}

/// The report on `st` at time `now` (seconds since the Unix epoch).
pub open spec fn report(st: TableStatistics, now: int) -> Seq<InsightModel> {
    by_severity(closed(raw_findings(st, now)))
}

/// Analyzes `st` as of time `now`, in seconds since the Unix epoch.
pub fn analyze_at(st: &TableStatistics, now: i64) -> (r: Vec<Insight>)
    requires
        st.wf(),
    ensures
        models(r@) == report(*st, now as int),
{
    let mut raw: Vec<Insight> = Vec::new();
    assert(models(raw@) =~= seq![]);
    analyze_file_sizes(st, &mut raw);
    analyze_file_count(st, &mut raw);
    analyze_vacuum_history(st, now, &mut raw);
    analyze_partitioning(st, &mut raw);
    analyze_optimization_history(st, &mut raw);
    analyze_data_skew(st, &mut raw);
    analyze_write_patterns(st, &mut raw);
    assert(models(raw@) =~= raw_findings(*st, now as int));
    close_report(&mut raw);
    order_by_severity(&raw)
}

/// Relies on chrono's `Utc::now`, read as whole seconds since the Unix
/// epoch. Nothing is known of the value.
#[verifier::external_body]
fn now_seconds() -> i64 {
    chrono::Utc::now().timestamp()
}

/// Runs the rules over one statistics snapshot.
pub struct DeltaTableAnalyzer {
    pub stats: TableStatistics,
    pub insights: Vec<Insight>,
}

impl DeltaTableAnalyzer {
    pub fn new(stats: TableStatistics) -> (r: Self)
        ensures
            r.stats == stats,
            r.insights@.len() == 0,
    {
        DeltaTableAnalyzer { stats, insights: Vec::new() }
    }

    /// The report on the snapshot as of the current time.
    pub fn analyze(self) -> (r: Vec<Insight>)
        requires
            self.stats.wf(),
        ensures
            exists|now: i64| models(r@) == report(self.stats, now as int),
    {
        let now = now_seconds();
        let r = analyze_at(&self.stats, now);
        assert(models(r@) == report(self.stats, now as int));
        r
    }
}

// ---------------------------------------------------------------------------
// Laws

proof fn lemma_of_severity_all(s: Seq<InsightModel>, sev: Severity)
    ensures
        forall|k: int| 0 <= k < of_severity(s, sev).len() ==> (#[trigger] of_severity(s, sev)[k]).severity == sev,
        forall|k: int| 0 <= k < of_severity(s, sev).len() ==> s.contains(#[trigger] of_severity(s, sev)[k]),
    decreases s.len(),
{
    if s.len() > 0 {
        lemma_of_severity_all(s.drop_last(), sev);
        assert forall|k: int| 0 <= k < of_severity(s, sev).len() implies s.contains(#[trigger] of_severity(s, sev)[k]) by {
            if k < of_severity(s.drop_last(), sev).len() {
                let x = of_severity(s.drop_last(), sev)[k];
                let j = choose|j: int| 0 <= j < s.drop_last().len() && s.drop_last()[j] == x;
                assert(s[j] == x);
            } else {
                assert(s[s.len() - 1] == of_severity(s, sev)[k]);
            }
        }
    }
}

proof fn lemma_of_severity_member(s: Seq<InsightModel>, x: InsightModel)
    requires
        s.contains(x),
    ensures
        of_severity(s, x.severity).contains(x),
    decreases s.len(),
{
    if s.last() == x {
        assert(of_severity(s, x.severity).last() == x);
    } else {
        let j = choose|j: int| 0 <= j < s.len() && s[j] == x;
        assert(s.drop_last()[j] == x);
        lemma_of_severity_member(s.drop_last(), x);
        let k = choose|k: int| 0 <= k < of_severity(s.drop_last(), x.severity).len()
            && of_severity(s.drop_last(), x.severity)[k] == x;
        assert(of_severity(s, x.severity)[k] == x);
    }
}

proof fn lemma_of_severity_none(s: Seq<InsightModel>, sev: Severity)
    requires
        forall|i: int| 0 <= i < s.len() ==> (#[trigger] s[i]).severity != sev,
    ensures
        of_severity(s, sev) == Seq::<InsightModel>::empty(),
    decreases s.len(),
{
    if s.len() > 0 {
        assert(s[s.len() - 1].severity != sev);
        lemma_of_severity_none(s.drop_last(), sev);
    }
}

proof fn lemma_by_severity_members(s: Seq<InsightModel>)
    ensures
        forall|x: InsightModel| s.contains(x) <==> by_severity(s).contains(x),
{
    let c = of_severity(s, Severity::Critical);
    let w = of_severity(s, Severity::Warning);
    let i = of_severity(s, Severity::Info);
    let g = of_severity(s, Severity::Good);
    lemma_of_severity_all(s, Severity::Critical);
    lemma_of_severity_all(s, Severity::Warning);
    lemma_of_severity_all(s, Severity::Info);
    lemma_of_severity_all(s, Severity::Good);
    let r = by_severity(s);
    assert forall|x: InsightModel| s.contains(x) <==> r.contains(x) by {
        if s.contains(x) {
            lemma_of_severity_member(s, x);
            let part = of_severity(s, x.severity);
            let k = choose|k: int| 0 <= k < part.len() && part[k] == x;
            match x.severity {
                Severity::Critical => assert(r[k] == x),
                Severity::Warning => assert(r[c.len() + k] == x),
                Severity::Info => assert(r[c.len() + w.len() + k] == x),
                Severity::Good => assert(r[c.len() + w.len() + i.len() + k] == x),
            }
        }
        if r.contains(x) {
            let p = choose|p: int| 0 <= p < r.len() && r[p] == x;
            if p < c.len() {
                assert(c[p] == x);
            } else if p < c.len() + w.len() {
                assert(w[p - c.len()] == x);
            } else if p < c.len() + w.len() + i.len() {
                assert(i[p - c.len() - w.len()] == x);
            } else {
                assert(g[p - c.len() - w.len() - i.len()] == x);
            }
        }
    }
}

proof fn lemma_by_severity_sorted(s: Seq<InsightModel>)
    ensures
        forall|i: int, j: int|
            0 <= i < j < by_severity(s).len() ==> (#[trigger] by_severity(s)[i]).severity.rank()
                <= (#[trigger] by_severity(s)[j]).severity.rank(),
{
    let c = of_severity(s, Severity::Critical);
    let w = of_severity(s, Severity::Warning);
    let f = of_severity(s, Severity::Info);
    let g = of_severity(s, Severity::Good);
    lemma_of_severity_all(s, Severity::Critical);
    lemma_of_severity_all(s, Severity::Warning);
    lemma_of_severity_all(s, Severity::Info);
    lemma_of_severity_all(s, Severity::Good);
    let r = by_severity(s);
    assert forall|p: int| 0 <= p < r.len() implies (#[trigger] r[p]).severity.rank() == (if p
        < c.len() {
        0int
    } else if p < c.len() + w.len() {
        1int
    } else if p < c.len() + w.len() + f.len() {
        2int
    } else {
        3int
    }) by {
        if p < c.len() {
            assert(r[p] == c[p]);
        } else if p < c.len() + w.len() {
            assert(r[p] == w[p - c.len()]);
        } else if p < c.len() + w.len() + f.len() {
            assert(r[p] == f[p - c.len() - w.len()]);
        } else {
            assert(r[p] == g[p - c.len() - w.len() - f.len()]);
        }
    }
}

/// The report lists Critical findings first, then Warnings, then Info, then
/// Good: severity ranks never decrease along it.
pub proof fn lemma_report_sorted(st: TableStatistics, now: int)
    ensures
        forall|i: int, j: int|
            0 <= i < j < report(st, now).len() ==> (#[trigger] report(st, now)[i]).severity.rank()
                <= (#[trigger] report(st, now)[j]).severity.rank(),
{
    lemma_by_severity_sorted(closed(raw_findings(st, now)));
}

/// The engine is a function of its inputs: the same snapshot at the same
/// time gives the same report, finding for finding and in the same order.
pub proof fn lemma_report_repeatable(a: TableStatistics, b: TableStatistics, now: int)
    requires
        a == b,
    ensures
        report(a, now) == report(b, now),
{
}

proof fn lemma_rules_never_good(st: TableStatistics, now: int)
    ensures
        forall|i: int| 0 <= i < raw_findings(st, now).len() ==> (#[trigger] raw_findings(st, now)[i]).severity != Severity::Good,
{
}

/// When no finding of the report is Critical or a Warning, the report holds
/// exactly one Good finding, the closing one, and every other finding is
/// Info.
pub proof fn lemma_single_good_when_healthy(st: TableStatistics, now: int)
    requires
        forall|i: int| 0 <= i < report(st, now).len() ==> !is_problem((#[trigger] report(st, now)[i]).severity),
    ensures
        of_severity(report(st, now), Severity::Good) == seq![looks_good()],
        forall|i: int| 0 <= i < report(st, now).len() ==> (#[trigger] report(st, now)[i]).severity == Severity::Info
            || report(st, now)[i] == looks_good(),
{
    let raw = raw_findings(st, now);
    let r = report(st, now);
    lemma_rules_never_good(st, now);
    lemma_by_severity_members(closed(raw));
    if has_problem(raw) {
        let i = choose|i: int| 0 <= i < raw.len() && is_problem(#[trigger] raw[i].severity);
        assert(closed(raw).contains(raw[i]));
        let p = choose|p: int| 0 <= p < r.len() && r[p] == raw[i];
        assert(!is_problem(r[p].severity));
    }
    let s = raw.push(looks_good());
    assert(closed(raw) == s);
    assert(s.drop_last() == raw);
    lemma_of_severity_none(raw, Severity::Good);
    assert(of_severity(s, Severity::Good) == seq![looks_good()]);
    assert forall|i: int| 0 <= i < raw.len() implies (#[trigger] raw[i]).severity != Severity::Critical by {
        assert(!is_problem(raw[i].severity)) by {
            if is_problem(raw[i].severity) {
                assert(has_problem(raw));
            }
        }
    }
    assert forall|i: int| 0 <= i < raw.len() implies (#[trigger] raw[i]).severity != Severity::Warning by {
        assert(!is_problem(raw[i].severity)) by {
            if is_problem(raw[i].severity) {
                assert(has_problem(raw));
            }
        }
    }
    lemma_of_severity_none(raw, Severity::Critical);
    lemma_of_severity_none(raw, Severity::Warning);
    assert(of_severity(s, Severity::Critical) == Seq::<InsightModel>::empty());
    assert(of_severity(s, Severity::Warning) == Seq::<InsightModel>::empty());
    let f = of_severity(s, Severity::Info);
    lemma_of_severity_all(s, Severity::Info);
    assert(r =~= f + seq![looks_good()]);
    lemma_of_severity_all(r, Severity::Good);
    assert forall|i: int| 0 <= i < r.len() implies (#[trigger] r[i]).severity == Severity::Info
        || r[i] == looks_good() by {
        if i < f.len() {
            assert(r[i] == f[i]);
        }
    }
    assert forall|i: int| 0 <= i < r.len() && r[i].severity == Severity::Good implies i == r.len() - 1 by {
        if i < f.len() {
            assert(r[i] == f[i]);
        }
    }
    assert(r.drop_last() == f);
    lemma_of_severity_none(f, Severity::Good);
    assert(of_severity(r, Severity::Good) == seq![looks_good()]);
}

proof fn lemma_raw_in_report(st: TableStatistics, now: int, x: InsightModel)
    requires
        raw_findings(st, now).contains(x),
    ensures
        report(st, now).contains(x),
{
    let raw = raw_findings(st, now);
    let j = choose|j: int| 0 <= j < raw.len() && raw[j] == x;
    assert(closed(raw)[j] == x);
    assert(closed(raw).contains(x));
    lemma_by_severity_members(closed(raw));
    assert(by_severity(closed(raw)).contains(x));
    assert(report(st, now) == by_severity(closed(raw)));
}

/// A table that was never vacuumed and has more than ten versions gets the
/// never-vacuumed Warning, whatever its file count.
pub proof fn lemma_never_vacuumed_reported(st: TableStatistics, now: int)
    requires
        st.last_vacuum is None,
        st.total_versions > 10,
    ensures
        report(st, now).contains(never_vacuumed(st.total_versions as nat)),
{
    let x = never_vacuumed(st.total_versions as nat);
    let k = (file_size_findings(st).len() + file_count_findings(st).len()) as int;
    assert(vacuum_findings(st, now) == seq![x]);
    assert(raw_findings(st, now)[k] == x);
    lemma_raw_in_report(st, now, x);
}

/// A vacuum more than 28 whole days before `now` gets the overdue Warning,
/// naming the whole days elapsed.
pub proof fn lemma_vacuum_overdue_reported(st: TableStatistics, now: int, t: i64)
    requires
        st.last_vacuum == Some(t),
        now - t >= 29 * 86400,
    ensures
        report(st, now).contains(vacuum_overdue(((now - t) / 86400) as nat)),
{
    let x = vacuum_overdue(((now - t) / 86400) as nat);
    let k = (file_size_findings(st).len() + file_count_findings(st).len()) as int;
    assert(vacuum_findings(st, now) == seq![x]);
    assert(raw_findings(st, now)[k] == x);
    lemma_raw_in_report(st, now, x);
}

/// A vacuum at most 28 whole days before `now` (or after it) gives no vacuum
/// finding: the report holds no Cost finding at all.
pub proof fn lemma_recent_vacuum_quiet(st: TableStatistics, now: int, t: i64)
    requires
        st.last_vacuum == Some(t),
        now - t < 29 * 86400,
    ensures
        vacuum_findings(st, now) == Seq::<InsightModel>::empty(),
        forall|i: int| 0 <= i < report(st, now).len() ==> (#[trigger] report(st, now)[i]).category != Category::Cost,
{
    let raw = raw_findings(st, now);
    assert(vacuum_findings(st, now) == Seq::<InsightModel>::empty());
    assert forall|i: int| 0 <= i < raw.len() implies (#[trigger] raw[i]).category != Category::Cost by {
    }
    let s = closed(raw);
    assert forall|i: int| 0 <= i < s.len() implies (#[trigger] s[i]).category != Category::Cost by {
        if i < raw.len() {
            assert(s[i] == raw[i]);
        }
    }
    lemma_by_severity_members(s);
    let r = report(st, now);
    assert(r == by_severity(s));
    assert forall|i: int| 0 <= i < r.len() implies (#[trigger] r[i]).category != Category::Cost by {
        assert(r.contains(r[i]));
        assert(s.contains(r[i]));
        let j = choose|j: int| 0 <= j < s.len() && s[j] == r[i];
    }
}

/// With no files, the small-file and skew rules find nothing: the report is
/// made of the other rules' findings alone.
pub proof fn lemma_no_files_no_size_findings(st: TableStatistics, now: int)
    requires
        st.files@.len() == 0,
    ensures
        file_size_findings(st) == Seq::<InsightModel>::empty(),
        skew_findings(st) == Seq::<InsightModel>::empty(),
        report(st, now) == by_severity(
            closed(
                file_count_findings(st) + vacuum_findings(st, now) + partitioning_findings(st)
                    + optimization_findings(st) + write_pattern_findings(st),
            ),
        ),
{
    assert(raw_findings(st, now) =~= file_count_findings(st) + vacuum_findings(st, now)
        + partitioning_findings(st) + optimization_findings(st) + write_pattern_findings(st));
}

} // verus!
