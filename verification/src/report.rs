//! Structured verdicts and their aggregation.
//!
//! A sub-evaluation yields an [`AnyReport`]: `None` means the branch matched;
//! `Some((items, all_fail))` carries explanatory items, with `all_fail` true
//! when every branch decided negatively (a bad verdict) and false when some
//! branch could not conclude (a neutral verdict). Two aggregations exist:
//! disjunction ([`AnyReportAggregator`]), where one success absorbs all, and
//! conjunction ([`AllReport`]), where one failure absorbs all.

use vstd::prelude::*;

use crate::aut_sys::AsName;
use crate::ip::RangeOperator;
use crate::set::RouteSetMember;

verus! {

/// Evaluation could not conclude: data is missing or a feature is
/// unimplemented.
#[derive(Debug, PartialEq, Eq)]
pub enum SkipReason {
    AsRoutesUnrecorded(u32),
    AsSetUnrecorded(String),
    RouteSetUnrecorded(String),
    FilterSetUnrecorded(String),
    PeeringSetUnrecorded(String),
    AutNumUnrecorded(u32),
    AsRegexUnimplemented(String),
    /// Carries the method name of the community call.
    CommunityCheckUnimplemented(Option<String>),
    RouterExprUnimplemented,
    SkippedNotFilterResult,
}

/// A policy predicate decided negatively, with its cause.
#[derive(Debug, PartialEq, Eq)]
pub enum MatchProblem {
    FilterPrefixes,
    FilterAsNum(u32, RangeOperator),
    FilterRouteSet(String),
    NotFilterMatch,
    NoNeighbor(u32),
}

/// The policy input itself is malformed.
#[derive(Debug, PartialEq, Eq)]
pub enum RpslError {
    InvalidFilter(String),
    InvalidAsName(String),
}

/// Where a depth or cycle cut-off fired.
#[derive(Debug, PartialEq, Eq)]
pub enum RecurSrc {
    CheckFilter,
    FilterRouteSet(String),
    FilterRouteSetMember(RouteSetMember),
    FilterAsSet(String),
    FilterAsName(AsName),
    FilterAnd,
    FilterOr,
    FilterNot,
    PeeringSet(String),
    RemoteAsSet(String),
}

/// One explanatory item of a verdict.
#[derive(Debug, PartialEq, Eq)]
pub enum ReportItem {
    Skip(SkipReason),
    NoMatch(MatchProblem),
    BadRpsl(RpslError),
    Recursion(RecurSrc),
    /// Bookkeeping sentinel of the disjunctive aggregation.
    MatchAny,
    /// Bookkeeping sentinel of the conjunctive aggregation.
    MatchAll,
}

/// Result of a disjunctive sub-evaluation: `None` is success.
pub type AnyReport = Option<(Vec<ReportItem>, bool)>;

/// Result of a conjunctive sub-evaluation: `Err` is definitive failure,
/// `Ok` carries the skips seen so far (empty means success).
pub type AllReport = Result<Vec<ReportItem>, Vec<ReportItem>>;

/// Mathematical form of an [`AnyReport`].
pub type AnyReportView = Option<(Seq<ReportItem>, bool)>;

/// Mathematical form of an [`AllReport`].
pub type AllReportView = Result<Seq<ReportItem>, Seq<ReportItem>>;

pub open spec fn any_view(r: AnyReport) -> AnyReportView {
    match r {
        None => None,
        Some((items, all_fail)) => Some((items@, all_fail)),
    }
}

pub open spec fn all_view(r: AllReport) -> AllReportView {
    match r {
        Ok(items) => Ok(items@),
        Err(items) => Err(items@),
    }
}

/// A skip outcome with one reason; not a failure.
pub open spec fn spec_skip_any_report(reason: SkipReason) -> AnyReportView {
    Some((seq![ReportItem::Skip(reason)], false))
}

pub fn skip_any_report(reason: SkipReason) -> (r: AnyReport)
    ensures
        any_view(r) == spec_skip_any_report(reason),
{
    Some((vec![ReportItem::Skip(reason)], false))
}

/// A negative outcome with one problem; a failure.
pub open spec fn spec_no_match_any_report(problem: MatchProblem) -> AnyReportView {
    Some((seq![ReportItem::NoMatch(problem)], true))
}

pub fn no_match_any_report(problem: MatchProblem) -> (r: AnyReport)
    ensures
        any_view(r) == spec_no_match_any_report(problem),
{
    Some((vec![ReportItem::NoMatch(problem)], true))
}

/// A malformed-policy outcome; a failure.
pub open spec fn spec_bad_rpsl_any_report(error: RpslError) -> AnyReportView {
    Some((seq![ReportItem::BadRpsl(error)], true))
}

pub fn bad_rpsl_any_report(error: RpslError) -> (r: AnyReport)
    ensures
        any_view(r) == spec_bad_rpsl_any_report(error),
{
    Some((vec![ReportItem::BadRpsl(error)], true))
}

/// A depth or cycle cut-off; treated as a skip, not a failure.
pub open spec fn spec_recursion_any_report(source: RecurSrc) -> AnyReportView {
    Some((seq![ReportItem::Recursion(source)], false))
}

pub fn recursion_any_report(source: RecurSrc) -> (r: AnyReport)
    ensures
        any_view(r) == spec_recursion_any_report(source),
{
    Some((vec![ReportItem::Recursion(source)], false))
}

/// A silent failure: a branch that is out of the running without a story of
/// its own, such as a revisited as-set on a cycle.
pub open spec fn spec_failed_any_report() -> AnyReportView {
    Some((Seq::empty(), true))
}

pub fn failed_any_report() -> (r: AnyReport)
    ensures
        any_view(r) == spec_failed_any_report(),
{
    Some((Vec::new(), true))
}

/// A depth cut-off in a conjunction; a skip.
pub open spec fn spec_recursion_all_report(source: RecurSrc) -> AllReportView {
    Ok(seq![ReportItem::Recursion(source)])
}

pub fn recursion_all_report(source: RecurSrc) -> (r: AllReport)
    ensures
        all_view(r) == spec_recursion_all_report(source),
{
    let items = vec![ReportItem::Recursion(source)];
    proof {
        assert(items@ =~= seq![ReportItem::Recursion(source)]);
    }
    Ok(items)
}

/// Conjunctive reading of a disjunctive result: success stays success,
/// skips stay pending, a failure becomes absorbing.
pub open spec fn spec_any_to_all(r: AnyReportView) -> AllReportView {
    match r {
        None => Ok(Seq::empty()),
        Some((items, all_fail)) => if all_fail {
            Err(items)
        } else {
            Ok(items)
        },
    }
}

pub fn any_to_all(r: AnyReport) -> (res: AllReport)
    ensures
        all_view(res) == spec_any_to_all(any_view(r)),
{
    match r {
        None => Ok(Vec::new()),
        Some((items, all_fail)) => if all_fail {
            Err(items)
        } else {
            Ok(items)
        },
    }
}

/// Disjunctive reading of a conjunctive result: no pending skips is success.
pub open spec fn spec_all_to_any(r: AllReportView) -> AnyReportView {
    match r {
        Ok(items) => if items.len() == 0 {
            None
        } else {
            Some((items, false))
        },
        Err(items) => Some((items, true)),
    }
}

pub fn all_to_any(r: AllReport) -> (res: AnyReport)
    ensures
        any_view(res) == spec_all_to_any(all_view(r)),
{
    match r {
        Ok(items) => if items.len() == 0 {
            None
        } else {
            Some((items, false))
        },
        Err(items) => Some((items, true)),
    }
}

/// Disjunctive aggregation state: items seen so far, and whether every
/// branch so far decided negatively.
pub struct AnyReportAggregator {
    pub report_items: Vec<ReportItem>,
    pub all_fail: bool,
}

impl AnyReportAggregator {
    pub fn new() -> (r: Self)
        ensures
            r.report_items@ == Seq::<ReportItem>::empty(),
            r.all_fail == true,
    {
        Self { report_items: Vec::new(), all_fail: true }
    }

    /// Fold one non-success branch in: union the items, conjoin `all_fail`.
    pub fn join(&mut self, other: (Vec<ReportItem>, bool)) -> (nothing: ())
        ensures
            final(self).report_items@ == old(self).report_items@ + other.0@,
            final(self).all_fail == (old(self).all_fail && other.1),
    {
        let (mut items, all_fail) = other;
        self.report_items.append(&mut items);
        self.all_fail = self.all_fail && all_fail;
    }

    /// Close the aggregation: no branch succeeded, so report the union.
    pub fn to_any(self) -> (r: AnyReport)
        ensures
            any_view(r) == Some((self.report_items@, self.all_fail)),
    {
        Some((self.report_items, self.all_fail))
    }
}

/// The disjunctive fold over the results of all branches: any success is
/// absorbing; otherwise items concatenate and `all_fail` conjoins.
pub open spec fn spec_any_fold(subs: Seq<AnyReportView>) -> AnyReportView
    decreases subs.len(),
{
    if subs.len() == 0 {
        Some((Seq::empty(), true))
    } else {
        match subs[0] {
            None => None,
            Some((items, all_fail)) => match spec_any_fold(subs.drop_first()) {
                None => None,
                Some((rest_items, rest_fail)) => Some((items + rest_items, all_fail && rest_fail)),
            },
        }
    }
}

/// Replacing a skip-flavoured branch by a definitive failure never turns a
/// bad aggregate into a good one, and never turns a good aggregate into a
/// neutral one: the aggregate stays good exactly when it was, and a failed
/// aggregate stays failed.
pub proof fn lemma_skip_to_no_match_any(
    subs: Seq<AnyReportView>,
    i: int,
    items2: Seq<ReportItem>,
)
    requires
        0 <= i < subs.len(),
        subs[i] matches Some((_, false)),
    ensures
        ({
            let r1 = spec_any_fold(subs);
            let r2 = spec_any_fold(subs.update(i, Some((items2, true))));
            &&& (r1 is None <==> r2 is None)
            &&& (r1 matches Some((_, true)) ==> r2 matches Some((_, true)))
        }),
    decreases subs.len(),
{
    let subs2 = subs.update(i, Some((items2, true)));
    if i == 0 {
        assert(subs2.drop_first() =~= subs.drop_first());
    } else {
        assert(subs2[0] == subs[0]);
        assert(subs2.drop_first() =~= subs.drop_first().update(i - 1, Some((items2, true))));
        lemma_skip_to_no_match_any(subs.drop_first(), i - 1, items2);
    }
}


/// The verdict for one adjacency: good, neutral or bad, import side or
/// export side, with the explanatory items where there are any.
#[derive(Debug, PartialEq, Eq)]
pub enum Report {
    GoodImport { from: u32, to: u32 },
    GoodExport { from: u32, to: u32 },
    GoodSingleExport { from: u32 },
    NeutralImport { from: u32, to: u32, items: Vec<ReportItem> },
    NeutralExport { from: u32, to: u32, items: Vec<ReportItem> },
    NeutralSingleExport { from: u32, items: Vec<ReportItem> },
    BadImport { from: u32, to: u32, items: Vec<ReportItem> },
    BadExport { from: u32, to: u32, items: Vec<ReportItem> },
    BadSingleExport { from: u32, items: Vec<ReportItem> },
}

/// Mathematical form of a [`Report`].
pub enum ReportView {
    GoodImport { from: u32, to: u32 },
    GoodExport { from: u32, to: u32 },
    GoodSingleExport { from: u32 },
    NeutralImport { from: u32, to: u32, items: Seq<ReportItem> },
    NeutralExport { from: u32, to: u32, items: Seq<ReportItem> },
    NeutralSingleExport { from: u32, items: Seq<ReportItem> },
    BadImport { from: u32, to: u32, items: Seq<ReportItem> },
    BadExport { from: u32, to: u32, items: Seq<ReportItem> },
    BadSingleExport { from: u32, items: Seq<ReportItem> },
}

impl View for Report {
    type V = ReportView;

    open spec fn view(&self) -> ReportView {
        match self {
            Report::GoodImport { from, to } => ReportView::GoodImport { from: *from, to: *to },
            Report::GoodExport { from, to } => ReportView::GoodExport { from: *from, to: *to },
            Report::GoodSingleExport { from } => ReportView::GoodSingleExport { from: *from },
            Report::NeutralImport { from, to, items } => ReportView::NeutralImport {
                from: *from,
                to: *to,
                items: items@,
            },
            Report::NeutralExport { from, to, items } => ReportView::NeutralExport {
                from: *from,
                to: *to,
                items: items@,
            },
            Report::NeutralSingleExport { from, items } => ReportView::NeutralSingleExport {
                from: *from,
                items: items@,
            },
            Report::BadImport { from, to, items } => ReportView::BadImport {
                from: *from,
                to: *to,
                items: items@,
            },
            Report::BadExport { from, to, items } => ReportView::BadExport {
                from: *from,
                to: *to,
                items: items@,
            },
            Report::BadSingleExport { from, items } => ReportView::BadSingleExport {
                from: *from,
                items: items@,
            },
        }
    }
}

/// A verdict that carries a definitive violation.
pub open spec fn report_is_bad(r: ReportView) -> bool {
    match r {
        ReportView::BadImport { .. } => true,
        ReportView::BadExport { .. } => true,
        ReportView::BadSingleExport { .. } => true,
        _ => false,
    }
}

} // verus!
