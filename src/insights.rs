//! The insight rule engine: a pure function from a statistics snapshot to a
//! ranked list of findings.

use vstd::prelude::*;

verus! {

/// How urgent a finding is. The order of the variants is the order of the
/// report.
#[derive(Clone, Copy, Debug, PartialEq, Eq, Structural)]
pub enum Severity {
    Critical,
    Warning,
    Info,
    Good,
}

/// What a finding is about.
#[derive(Clone, Copy, Debug, PartialEq, Eq, Structural)]
pub enum Category {
    Performance,
    Cost,
    Maintenance,
    Reliability,
}

impl Severity {
    /// Position in the report: Critical first, Good last.
    pub open spec fn rank(self) -> nat {
        match self {
            Severity::Critical => 0,
            Severity::Warning => 1,
            Severity::Info => 2,
            Severity::Good => 3,
        }
    }

    /// The lower-case label of the severity.
    pub fn label(&self) -> (r: &'static str)
        ensures
            r@ == severity_label(*self),
    {
        match self {
            Severity::Critical => "critical",
            Severity::Warning => "warning",
            Severity::Info => "info",
            Severity::Good => "good",
        }
    }

    /// The severity whose label is `s`; `None` for any other text.
    pub fn from_label(s: &str) -> (r: Option<Severity>)
        ensures
            r matches Some(v) ==> severity_label(v) == s@,
            r is None ==> forall|v: Severity| severity_label(v) != s@,
    {
        let owned = String::from_str(s);
        let mut i: usize = 0;
        let all = [Severity::Critical, Severity::Warning, Severity::Info, Severity::Good];
        while i < 4
            invariant
                0 <= i <= 4,
                owned@ == s@,
                all@ == seq![Severity::Critical, Severity::Warning, Severity::Info, Severity::Good],
                forall|j: int| 0 <= j < i ==> severity_label(#[trigger] all@[j]) != s@,
            decreases 4 - i,
        {
            let cand = String::from_str(all[i].label());
            if cand == owned {
                return Some(all[i]);
            }
            i = i + 1;
        }
        assert forall|v: Severity| severity_label(v) != s@ by {
            match v {
                Severity::Critical => assert(all@[0] == v),
                Severity::Warning => assert(all@[1] == v),
                Severity::Info => assert(all@[2] == v),
                Severity::Good => assert(all@[3] == v),
            }
        }
        None
    }
}

/// The label of a severity.
pub open spec fn severity_label(s: Severity) -> Seq<char> {
    match s {
        Severity::Critical => "critical"@,
        Severity::Warning => "warning"@,
        Severity::Info => "info"@,
        Severity::Good => "good"@,
    }
}

/// The label of a category.
pub open spec fn category_label(c: Category) -> Seq<char> {
    match c {
        Category::Performance => "performance"@,
        Category::Cost => "cost"@,
        Category::Maintenance => "maintenance"@,
        Category::Reliability => "reliability"@,
    }
}

impl Category {
    /// The lower-case label of the category.
    pub fn label(&self) -> (r: &'static str)
        ensures
            r@ == category_label(*self),
    {
        match self {
            Category::Performance => "performance",
            Category::Cost => "cost",
            Category::Maintenance => "maintenance",
            Category::Reliability => "reliability",
        }
    }
}

/// One finding of the engine.
pub struct Insight {
    pub severity: Severity,
    pub category: Category,
    pub title: String,
    pub description: String,
    pub recommendation: String,
}

/// The mathematical value of an [`Insight`].
pub struct InsightModel {
    pub severity: Severity,
    pub category: Category,
    pub title: Seq<char>,
    pub description: Seq<char>,
    pub recommendation: Seq<char>,
}

impl View for Insight {
    type V = InsightModel;

    open spec fn view(&self) -> InsightModel {
        InsightModel {
            severity: self.severity,
            category: self.category,
            title: self.title@,
            description: self.description@,
            recommendation: self.recommendation@,
        }
    }
}

impl Insight {
    /// A copy of the insight.
    pub fn duplicate(&self) -> (r: Insight)
        ensures
            r@ == self@,
    {
        Insight {
            severity: self.severity,
            category: self.category,
            title: self.title.clone(),
            description: self.description.clone(),
            recommendation: self.recommendation.clone(),
        }
    }
}

/// The values of a sequence of insights.
pub open spec fn models(v: Seq<Insight>) -> Seq<InsightModel> {
    v.map_values(|i: Insight| i@)
}

/// A finding as a value.
pub open spec fn finding(
    severity: Severity,
    category: Category,
    title: Seq<char>,
    description: Seq<char>,
    recommendation: Seq<char>,
) -> InsightModel {
    InsightModel { severity, category, title, description, recommendation }
}

pub(crate) fn make(
    severity: Severity,
    category: Category,
    title: &str,
    description: String,
    recommendation: &str,
) -> (r: Insight)
    ensures
        r@ == finding(severity, category, title@, description@, recommendation@),
{
    Insight {
        severity,
        category,
        title: String::from_str(title),
        description,
        recommendation: String::from_str(recommendation),
    }
}

pub(crate) fn push_insight(out: &mut Vec<Insight>, x: Insight)
    ensures
        models(final(out)@) == models(old(out)@).push(x@),
{
    out.push(x);
    assert(models(final(out)@) =~= models(old(out)@).push(x@));
}

// ---------------------------------------------------------------------------
// Ordering and the closing step

/// The findings of `s` that have severity `sev`, in their order in `s`.
pub open spec fn of_severity(s: Seq<InsightModel>, sev: Severity) -> Seq<InsightModel>
    decreases s.len(),
{
    if s.len() == 0 {
        seq![]
    } else if s.last().severity == sev {
        of_severity(s.drop_last(), sev).push(s.last())
    } else {
        of_severity(s.drop_last(), sev)
    }
}

/// `s` stably ordered by severity: Critical, Warning, Info, then Good, each
/// group in its order in `s`.
pub open spec fn by_severity(s: Seq<InsightModel>) -> Seq<InsightModel> {
    of_severity(s, Severity::Critical) + of_severity(s, Severity::Warning) + of_severity(
        s,
        Severity::Info,
    ) + of_severity(s, Severity::Good)
}

/// Whether some finding of `s` is Critical or a Warning.
pub open spec fn has_problem(s: Seq<InsightModel>) -> bool {
    exists|i: int| 0 <= i < s.len() && is_problem(#[trigger] s[i].severity)
}

/// Critical and Warning findings are problems.
pub open spec fn is_problem(s: Severity) -> bool {
    s == Severity::Critical || s == Severity::Warning
}

/// The finding added when no rule found a problem.
pub open spec fn looks_good() -> InsightModel {
    finding(
        Severity::Good,
        Category::Performance,
        "Table Configuration Looks Good"@,
        "No significant configuration issues detected."@,
        "Continue monitoring the table as data grows."@,
    )
}

/// The findings of the rules, followed by the Good finding if none of them
/// is a problem.
pub open spec fn closed(raw: Seq<InsightModel>) -> Seq<InsightModel> {
    if has_problem(raw) {
        raw
    } else {
        raw.push(looks_good())
    }
}

fn append_of_severity(src: &Vec<Insight>, sev: Severity, out: &mut Vec<Insight>)
    ensures
        models(final(out)@) == models(old(out)@) + of_severity(models(src@), sev),
{
    let mut i: usize = 0;
    while i < src.len()
        invariant
            0 <= i <= src@.len(),
            models(out@) == models(old(out)@) + of_severity(models(src@.take(i as int)), sev),
        decreases src@.len() - i,
    {
        assert(models(src@.take(i + 1)).drop_last() =~= models(src@.take(i as int)));
        assert(models(src@.take(i + 1)).last() == src@[i as int]@);
        if src[i].severity == sev {
            let x = src[i].duplicate();
            push_insight(out, x);
        }
        i = i + 1;
    }
    assert(src@.take(src@.len() as int) =~= src@);
}

/// Orders `raw` as [`by_severity`] says.
pub fn order_by_severity(raw: &Vec<Insight>) -> (r: Vec<Insight>)
    ensures
        models(r@) == by_severity(models(raw@)),
{
    let mut out: Vec<Insight> = Vec::new();
    assert(models(out@) =~= seq![]);
    append_of_severity(raw, Severity::Critical, &mut out);
    append_of_severity(raw, Severity::Warning, &mut out);
    append_of_severity(raw, Severity::Info, &mut out);
    append_of_severity(raw, Severity::Good, &mut out);
    assert(models(out@) =~= by_severity(models(raw@)));
    out
}

/// Adds the Good finding when no finding of `raw` is a problem.
pub fn close_report(raw: &mut Vec<Insight>)
    ensures
        models(final(raw)@) == closed(models(old(raw)@)),
{
    let mut i: usize = 0;
    let mut found = false;
    while i < raw.len()
        invariant
            0 <= i <= raw@.len(),
            found <==> exists|j: int| 0 <= j < i && is_problem(#[trigger] raw@[j].severity),
        decreases raw@.len() - i,
    {
        if raw[i].severity == Severity::Critical || raw[i].severity == Severity::Warning {
            found = true;
        }
        i = i + 1;
    }
    proof {
        if found {
            let j = choose|j: int| 0 <= j < raw@.len() && is_problem(#[trigger] raw@[j].severity);
            assert(0 <= j < raw@.len());
            assert(models(raw@)[j] == raw@[j]@);
            assert(is_problem(models(raw@)[j].severity));
            assert(has_problem(models(raw@)));
        } else {
            assert forall|j: int| 0 <= j < models(raw@).len() implies !is_problem(#[trigger] models(raw@)[j].severity) by {
                assert(models(raw@)[j] == raw@[j]@);
            }
            assert(!has_problem(models(raw@)));
        }
    }
    if !found {
        let good = make(
            Severity::Good,
            Category::Performance,
            "Table Configuration Looks Good",
            String::from_str("No significant configuration issues detected."),
            "Continue monitoring the table as data grows.",
        );
        push_insight(raw, good);
    }
}

} // verus!
