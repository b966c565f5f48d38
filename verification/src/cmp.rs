//! One observation compared against the policy graph: the observed prefix,
//! the AS path that advertised it, and how verbosely to report.

use vstd::prelude::*;

use crate::aut_num::{Entry, Versions};
use crate::aut_sys::AsName;
use crate::filter::{spec_check, CheckFilter};
use crate::ip::{IpFamily, IpNet};
use crate::peering::{AsExpr, Peering, PeeringAction};
use crate::query::QueryDump;
use crate::report::{
    any_view, report_is_bad, bad_rpsl_any_report, failed_any_report, no_match_any_report, recursion_any_report,
    skip_any_report, spec_bad_rpsl_any_report, spec_failed_any_report, spec_no_match_any_report,
    spec_recursion_any_report, spec_skip_any_report, AnyReport, AnyReportView, MatchProblem,
    RecurSrc, Report, ReportItem, ReportView, RpslError, SkipReason,
};

verus! {

/// The fixed initial recursion budget of the filter checker.
pub const RECURSION_LIMIT: u32 = 32;

/// What to emit while checking a batch.
#[derive(Clone, Copy, Debug, PartialEq, Eq, Structural)]
pub struct Verbosity {
    /// Abort the batch on the first bad verdict.
    pub stop_at_first: bool,
    /// Emit neutral verdicts at all.
    pub show_skips: bool,
    /// Emit good verdicts at all.
    pub show_success: bool,
}

impl Default for Verbosity {
    fn default() -> (r: Self)
        ensures
            r.stop_at_first == false,
            r.show_skips == false,
            r.show_success == false,
    {
        Verbosity { stop_at_first: false, show_skips: false, show_success: false }
    }
}

/// One observed announcement: the prefix and the AS path that advertised
/// it, first the origin AS, plus the reporting configuration.
#[derive(Debug)]
pub struct Compare {
    pub verbosity: Verbosity,
    pub prefix: IpNet,
    /// The origin AS first, then each AS the announcement passed.
    pub as_path: Vec<u32>,
}

impl Compare {
    pub open spec fn wf(self) -> bool {
        self.prefix.wf()
    }
}


/// Height of an AS expression, the structural part of the matcher's
/// termination measure.
pub open spec fn as_expr_height(e: AsExpr) -> nat
    decreases e,
{
    match e {
        AsExpr::And { left, right } => 1 + if as_expr_height(*left) > as_expr_height(*right) {
            as_expr_height(*left)
        } else {
            as_expr_height(*right)
        },
        AsExpr::Or { left, right } => 1 + if as_expr_height(*left) > as_expr_height(*right) {
            as_expr_height(*left)
        } else {
            as_expr_height(*right)
        },
        AsExpr::Except { left, right } => 1 + if as_expr_height(*left) > as_expr_height(*right) {
            as_expr_height(*left)
        } else {
            as_expr_height(*right)
        },
        AsExpr::Group(inner) => 1 + as_expr_height(*inner),
        _ => 1,
    }
}

/// Invert a sub-result as `Not` does: full failure becomes success, success
/// a failure without a story, and a skip stays a skip with one more item.
pub open spec fn spec_not_rep(r: AnyReportView) -> AnyReportView {
    match r {
        Some((items, true)) => None,
        Some((items, false)) => Some(
            (items.push(ReportItem::Skip(SkipReason::SkippedNotFilterResult)), false),
        ),
        None => spec_failed_any_report(),
    }
}

/// Conjoin two sub-results: a failure on either side is absorbing, skips
/// accumulate, and two successes succeed.
pub open spec fn spec_and_rep(a: AnyReportView, b: AnyReportView) -> AnyReportView {
    match (a, b) {
        (Some((ia, true)), _) => Some((ia, true)),
        (Some((ia, false)), Some((ib, bf))) => if bf {
            Some((ia + ib, true))
        } else {
            Some((ia + ib, false))
        },
        (Some((ia, false)), None) => Some((ia, false)),
        (None, Some((ib, bf))) => Some((ib, bf)),
        (None, None) => None,
    }
}

/// Whether a peering of the graph speaks to the given neighbor AS: the
/// remote AS expression is matched recursively; present router
/// expressions are not interpreted and surface as a skip.
pub open spec fn spec_match_peering(d: QueryDump, p: Peering, neighbor: u32, depth: u32) -> AnyReportView
    decreases depth, 5int, 0int, 0int,
{
    let base = spec_match_as_expr(d, p.remote_as, neighbor, depth);
    if p.remote_router is Some || p.local_router is Some {
        spec_and_rep(base, spec_skip_any_report(SkipReason::RouterExprUnimplemented))
    } else {
        base
    }
}

/// Match an AS expression against a neighbor: leaves compare numbers or
/// resolve sets; `Except(l, r)` is `l` and not `r`.
pub open spec fn spec_match_as_expr(d: QueryDump, e: AsExpr, neighbor: u32, depth: u32) -> AnyReportView
    decreases depth, 4int, as_expr_height(e), 0int,
{
    if depth == 0 {
        spec_recursion_any_report(RecurSrc::CheckFilter)
    } else {
        match e {
            AsExpr::Single(nm) => match nm {
                AsName::Num(n) => if n == neighbor {
                    None
                } else {
                    spec_failed_any_report()
                },
                AsName::NamedSet(s) => spec_match_as_set(d, s, neighbor, depth),
                AsName::Invalid(reason) => spec_bad_rpsl_any_report(
                    RpslError::InvalidAsName(reason),
                ),
            },
            AsExpr::PeeringSet(name) => if !d.peering_sets@.contains_key(name@) {
                spec_skip_any_report(SkipReason::PeeringSetUnrecorded(name))
            } else {
                spec_match_peering_list(d, d.peering_sets@[name@].peerings@, neighbor, depth)
            },
            AsExpr::And { left, right } => spec_and_rep(
                spec_match_as_expr(d, *left, neighbor, (depth - 1) as u32),
                spec_match_as_expr(d, *right, neighbor, depth),
            ),
            AsExpr::Or { left, right } => match spec_match_as_expr(
                d,
                *left,
                neighbor,
                (depth - 1) as u32,
            ) {
                None => None,
                Some((ia, af)) => match spec_match_as_expr(d, *right, neighbor, depth) {
                    None => None,
                    Some((ib, bf)) => Some((ia + ib, af && bf)),
                },
            },
            AsExpr::Except { left, right } => spec_and_rep(
                spec_match_as_expr(d, *left, neighbor, (depth - 1) as u32),
                spec_not_rep(spec_match_as_expr(d, *right, neighbor, depth)),
            ),
            AsExpr::Group(inner) => spec_match_as_expr(d, *inner, neighbor, depth),
        }
    }
}

/// Membership of a neighbor in a named as-set: its own numbers first, then
/// its member sets, one level deeper each.
pub open spec fn spec_match_as_set(d: QueryDump, name: String, neighbor: u32, depth: u32) -> AnyReportView
    decreases depth, 3int, 0int, 0int,
{
    if depth == 0 {
        spec_recursion_any_report(RecurSrc::RemoteAsSet(name))
    } else if !d.as_sets@.contains_key(name@) {
        spec_skip_any_report(SkipReason::AsSetUnrecorded(name))
    } else {
        let as_set = d.as_sets@[name@];
        if as_set.members@.contains(neighbor) {
            None
        } else {
            spec_match_set_names(d, as_set.set_members@, neighbor, depth)
        }
    }
}

/// Disjunction of as-set membership over a list of set names.
pub open spec fn spec_match_set_names(d: QueryDump, names: Seq<String>, neighbor: u32, depth: u32) -> AnyReportView
    decreases depth, 2int, 0int, names.len(),
{
    if depth == 0 || names.len() == 0 {
        Some((Seq::empty(), true))
    } else {
        match spec_match_as_set(d, names[0], neighbor, (depth - 1) as u32) {
            None => None,
            Some((items, af)) => match spec_match_set_names(
                d,
                names.drop_first(),
                neighbor,
                depth,
            ) {
                None => None,
                Some((rest, rf)) => Some((items + rest, af && rf)),
            },
        }
    }
}

/// Disjunction of peering matches over a peering-set's peerings.
pub open spec fn spec_match_peering_list(d: QueryDump, ps: Seq<Peering>, neighbor: u32, depth: u32) -> AnyReportView
    decreases depth, 2int, 1int, ps.len(),
{
    if depth == 0 || ps.len() == 0 {
        Some((Seq::empty(), true))
    } else {
        match spec_match_peering(d, ps[0], neighbor, (depth - 1) as u32) {
            None => None,
            Some((items, af)) => match spec_match_peering_list(
                d,
                ps.drop_first(),
                neighbor,
                depth,
            ) {
                None => None,
                Some((rest, rf)) => Some((items + rest, af && rf)),
            },
        }
    }
}

/// Disjunction of peering matches over a policy entry's peering actions.
pub open spec fn spec_match_peering_actions(d: QueryDump, pas: Seq<PeeringAction>, neighbor: u32, depth: u32) -> AnyReportView
    decreases depth, 6int, 0int, pas.len(),
{
    if depth == 0 || pas.len() == 0 {
        Some((Seq::empty(), true))
    } else {
        match spec_match_peering(d, pas[0].mp_peering, neighbor, (depth - 1) as u32) {
            None => None,
            Some((items, af)) => match spec_match_peering_actions(
                d,
                pas.drop_first(),
                neighbor,
                depth,
            ) {
                None => None,
                Some((rest, rf)) => Some((items + rest, af && rf)),
            },
        }
    }
}


/// One protocol group of a policy side, in the order consulted: family-less
/// entries first, then the observed family's, `any` before `unicast`.
pub open spec fn spec_group(v: Versions, fam: IpFamily, g: int) -> Seq<Entry> {
    if g == 0 {
        v.any.any@
    } else if g == 1 {
        v.any.unicast@
    } else if g == 2 {
        if fam == IpFamily::V4 {
            v.ipv4.any@
        } else {
            v.ipv6.any@
        }
    } else {
        if fam == IpFamily::V4 {
            v.ipv4.unicast@
        } else {
            v.ipv6.unicast@
        }
    }
}

/// Walk a policy side entry by entry: the first entry whose peering matches
/// the neighbor decides through its filter; an entry whose match is
/// inconclusive folds its skips in; when no entry speaks to the neighbor
/// the verdict is a named mismatch.
pub open spec fn spec_check_from(
    d: QueryDump,
    q: IpNet,
    v: Versions,
    neighbor: u32,
    g: int,
    idx: int,
) -> AnyReportView
    decreases 4 - g, spec_group(v, q.family, g).len() - idx,
{
    if !(0 <= g < 4) || !(0 <= idx) {
        spec_no_match_any_report(MatchProblem::NoNeighbor(neighbor))
    } else if idx >= spec_group(v, q.family, g).len() {
        spec_check_from(d, q, v, neighbor, g + 1, 0)
    } else {
        let entry = spec_group(v, q.family, g)[idx];
        match spec_match_peering_actions(d, entry.mp_peerings@, neighbor, RECURSION_LIMIT as u32) {
            None => spec_check(d, q, entry.mp_filter, RECURSION_LIMIT as u32),
            Some((items, true)) => spec_check_from(d, q, v, neighbor, g, idx + 1),
            Some((items, false)) => match spec_check_from(d, q, v, neighbor, g, idx + 1) {
                None => None,
                Some((rest, rf)) => Some((items + rest, false)),
            },
        }
    }
}

/// The origin of a path of one: its export filters are checked with no
/// neighbor to match, any match counting as success.
pub open spec fn spec_check_single_from(d: QueryDump, q: IpNet, v: Versions, g: int, idx: int) -> AnyReportView
    decreases 4 - g, spec_group(v, q.family, g).len() - idx,
{
    if !(0 <= g < 4) || !(0 <= idx) {
        Some((Seq::empty(), true))
    } else if idx >= spec_group(v, q.family, g).len() {
        spec_check_single_from(d, q, v, g + 1, 0)
    } else {
        let entry = spec_group(v, q.family, g)[idx];
        match spec_check(d, q, entry.mp_filter, RECURSION_LIMIT as u32) {
            None => None,
            Some((items, af)) => match spec_check_single_from(d, q, v, g, idx + 1) {
                None => None,
                Some((rest, rf)) => Some((items + rest, af && rf)),
            },
        }
    }
}

/// The export side of `from` towards `to`.
pub open spec fn spec_check_export(d: QueryDump, q: IpNet, from: u32, to: u32) -> AnyReportView {
    if !d.aut_nums@.contains_key(from) {
        spec_skip_any_report(SkipReason::AutNumUnrecorded(from))
    } else {
        spec_check_from(d, q, d.aut_nums@[from].exports, to, 0, 0)
    }
}

/// The import side of `of` hearing from `from`.
pub open spec fn spec_check_import(d: QueryDump, q: IpNet, of: u32, from: u32) -> AnyReportView {
    if !d.aut_nums@.contains_key(of) {
        spec_skip_any_report(SkipReason::AutNumUnrecorded(of))
    } else {
        spec_check_from(d, q, d.aut_nums@[of].imports, from, 0, 0)
    }
}

/// The export side of a path of one.
pub open spec fn spec_check_single_export(d: QueryDump, q: IpNet, from: u32) -> AnyReportView {
    if !d.aut_nums@.contains_key(from) {
        spec_skip_any_report(SkipReason::AutNumUnrecorded(from))
    } else {
        spec_check_single_from(d, q, d.aut_nums@[from].exports, 0, 0)
    }
}

/// The sub-results that position `i` of the path answers for: the origin
/// its export, the last AS its import, a middle AS its import conjoined
/// with its export onward.
pub open spec fn spec_rep_at(d: QueryDump, q: IpNet, path: Seq<u32>, i: int) -> AnyReportView {
    if path.len() == 1 {
        spec_check_single_export(d, q, path[0])
    } else if i == 0 {
        spec_check_export(d, q, path[0], path[1])
    } else if i == path.len() - 1 {
        spec_check_import(d, q, path[i], path[i - 1])
    } else {
        spec_and_rep(
            spec_check_import(d, q, path[i], path[i - 1]),
            spec_check_export(d, q, path[i], path[i + 1]),
        )
    }
}

/// The verdict position `i` earns: success is good, a skip neutral, a full
/// failure bad; the origin's verdict is export-flavoured, every other is
/// attributed as an import by that AS.
pub open spec fn spec_verdict_at(d: QueryDump, q: IpNet, path: Seq<u32>, i: int) -> ReportView {
    let rep = spec_rep_at(d, q, path, i);
    if path.len() == 1 {
        match rep {
            None => ReportView::GoodSingleExport { from: path[0] },
            Some((items, false)) => ReportView::NeutralSingleExport { from: path[0], items },
            Some((items, true)) => ReportView::BadSingleExport { from: path[0], items },
        }
    } else if i == 0 {
        match rep {
            None => ReportView::GoodExport { from: path[0], to: path[1] },
            Some((items, false)) => ReportView::NeutralExport {
                from: path[0],
                to: path[1],
                items,
            },
            Some((items, true)) => ReportView::BadExport { from: path[0], to: path[1], items },
        }
    } else {
        match rep {
            None => ReportView::GoodImport { from: path[i - 1], to: path[i] },
            Some((items, false)) => ReportView::NeutralImport {
                from: path[i - 1],
                to: path[i],
                items,
            },
            Some((items, true)) => ReportView::BadImport {
                from: path[i - 1],
                to: path[i],
                items,
            },
        }
    }
}

/// What the verbosity lets through of one verdict.
pub open spec fn spec_emit(verb: Verbosity, rv: ReportView) -> Seq<ReportView> {
    match rv {
        ReportView::GoodImport { .. } | ReportView::GoodExport { .. }
            | ReportView::GoodSingleExport { .. } => if verb.show_success {
            seq![rv]
        } else {
            Seq::empty()
        },
        ReportView::NeutralImport { .. } | ReportView::NeutralExport { .. }
            | ReportView::NeutralSingleExport { .. } => if verb.show_skips {
            seq![rv]
        } else {
            Seq::empty()
        },
        _ => seq![rv],
    }
}

/// The verdicts from position `i` on, cut short at the first bad one when
/// so configured.
pub open spec fn spec_reports_from(
    d: QueryDump,
    q: IpNet,
    path: Seq<u32>,
    verb: Verbosity,
    i: int,
) -> Seq<ReportView>
    decreases path.len() - i,
{
    if !(0 <= i < path.len()) {
        Seq::empty()
    } else {
        let rv = spec_verdict_at(d, q, path, i);
        let em = spec_emit(verb, rv);
        if verb.stop_at_first && report_is_bad(rv) {
            em
        } else {
            em + spec_reports_from(d, q, path, verb, i + 1)
        }
    }
}

/// Conjoin two sub-results, as [`spec_and_rep`] says.
pub fn and_rep(a: AnyReport, b: AnyReport) -> (r: AnyReport)
    ensures
        any_view(r) == spec_and_rep(any_view(a), any_view(b)),
{
    match (a, b) {
        (Some((ia, true)), _) => Some((ia, true)),
        (Some((mut ia, false)), Some((mut ib, bf))) => {
            ia.append(&mut ib);
            Some((ia, bf))
        },
        (Some((ia, false)), None) => Some((ia, false)),
        (None, b2) => b2,
    }
}

/// Invert a sub-result, as [`spec_not_rep`] says.
pub fn not_rep(r: AnyReport) -> (res: AnyReport)
    ensures
        any_view(res) == spec_not_rep(any_view(r)),
{
    match r {
        Some((items, true)) => None,
        Some((mut items, false)) => {
            items.push(ReportItem::Skip(SkipReason::SkippedNotFilterResult));
            Some((items, false))
        },
        None => failed_any_report(),
    }
}

/// The entry group consulted at one step of the policy walk.
pub fn group_of<'v>(v: &'v Versions, fam: IpFamily, g: usize) -> (r: &'v Vec<Entry>)
    requires
        g < 4,
    ensures
        r@ == spec_group(*v, fam, g as int),
{
    if g == 0 {
        &v.any.any
    } else if g == 1 {
        &v.any.unicast
    } else if g == 2 {
        match fam {
            IpFamily::V4 => &v.ipv4.any,
            IpFamily::V6 => &v.ipv6.any,
        }
    } else {
        match fam {
            IpFamily::V4 => &v.ipv4.unicast,
            IpFamily::V6 => &v.ipv6.unicast,
        }
    }
}

impl Compare {
    /// Match one peering against a neighbor AS.
    fn match_peering(&self, dump: &QueryDump, p: &Peering, neighbor: u32, depth: u32) -> (r:
        AnyReport)
        requires
            dump.wf(),
        ensures
            any_view(r) == spec_match_peering(*dump, *p, neighbor, depth),
        decreases depth, 5int, 0int, 0int,
    {
        let base = self.match_as_expr(dump, &p.remote_as, neighbor, depth);
        if p.remote_router.is_some() || p.local_router.is_some() {
            and_rep(base, skip_any_report(SkipReason::RouterExprUnimplemented))
        } else {
            base
        }
    }

    fn match_as_expr(&self, dump: &QueryDump, e: &AsExpr, neighbor: u32, depth: u32) -> (r:
        AnyReport)
        requires
            dump.wf(),
        ensures
            any_view(r) == spec_match_as_expr(*dump, *e, neighbor, depth),
        decreases depth, 4int, as_expr_height(*e), 0int,
    {
        if depth == 0 {
            return recursion_any_report(RecurSrc::CheckFilter);
        }
        match e {
            AsExpr::Single(nm) => match nm {
                AsName::Num(n) => if *n == neighbor {
                    None
                } else {
                    failed_any_report()
                },
                AsName::NamedSet(s) => self.match_as_set(dump, s, neighbor, depth),
                AsName::Invalid(reason) => bad_rpsl_any_report(
                    RpslError::InvalidAsName(reason.clone()),
                ),
            },
            AsExpr::PeeringSet(name) => match dump.peering_sets.get(name) {
                None => skip_any_report(SkipReason::PeeringSetUnrecorded(name.clone())),
                Some(peering_set) => {
                    proof {
                        assert(peering_set.peerings@.skip(0) =~= peering_set.peerings@);
                    }
                    self.match_peering_list(dump, &peering_set.peerings, 0, neighbor, depth)
                },
            },
            AsExpr::And { left, right } => {
                let l = self.match_as_expr(dump, left, neighbor, depth - 1);
                let rr = self.match_as_expr(dump, right, neighbor, depth);
                and_rep(l, rr)
            },
            AsExpr::Or { left, right } => match self.match_as_expr(dump, left, neighbor, depth
                - 1) {
                None => None,
                Some((mut ia, af)) => match self.match_as_expr(dump, right, neighbor, depth) {
                    None => None,
                    Some((mut ib, bf)) => {
                        ia.append(&mut ib);
                        Some((ia, af && bf))
                    },
                },
            },
            AsExpr::Except { left, right } => {
                let l = self.match_as_expr(dump, left, neighbor, depth - 1);
                let rr = self.match_as_expr(dump, right, neighbor, depth);
                and_rep(l, not_rep(rr))
            },
            AsExpr::Group(inner) => self.match_as_expr(dump, inner, neighbor, depth),
        }
    }

    fn match_as_set(&self, dump: &QueryDump, name: &String, neighbor: u32, depth: u32) -> (r:
        AnyReport)
        requires
            dump.wf(),
        ensures
            any_view(r) == spec_match_as_set(*dump, *name, neighbor, depth),
        decreases depth, 3int, 0int, 0int,
    {
        if depth == 0 {
            return recursion_any_report(RecurSrc::RemoteAsSet(name.clone()));
        }
        match dump.as_sets.get(name) {
            None => skip_any_report(SkipReason::AsSetUnrecorded(name.clone())),
            Some(as_set) => {
                let n = as_set.members.len();
                for i in 0..n
                    invariant
                        n == as_set.members@.len(),
                        depth >= 1,
                        dump.as_sets@.contains_key(name@),
                        *as_set == dump.as_sets@[name@],
                        forall|k: int| 0 <= k < i ==> (#[trigger] as_set.members@[k]) != neighbor,
                {
                    if as_set.members[i] == neighbor {
                        proof {
                            assert(as_set.members@[i as int] == neighbor);
                            assert(as_set.members@.contains(neighbor));
                        }
                        return None;
                    }
                }
                proof {
                    assert(!as_set.members@.contains(neighbor));
                    assert(as_set.set_members@.skip(0) =~= as_set.set_members@);
                }
                self.match_set_names(dump, &as_set.set_members, 0, neighbor, depth)
            },
        }
    }

    fn match_set_names(
        &self,
        dump: &QueryDump,
        names: &Vec<String>,
        idx: usize,
        neighbor: u32,
        depth: u32,
    ) -> (r: AnyReport)
        requires
            dump.wf(),
            depth >= 1,
            idx <= names@.len(),
        ensures
            any_view(r) == spec_match_set_names(*dump, names@.skip(idx as int), neighbor, depth),
        decreases depth, 2int, 0int, names@.len() - idx,
    {
        if idx == names.len() {
            proof {
                assert(names@.skip(idx as int) =~= Seq::<String>::empty());
            }
            return Some((Vec::new(), true));
        }
        proof {
            assert(names@.skip(idx as int)[0] == names@[idx as int]);
            assert(names@.skip(idx as int).drop_first() =~= names@.skip(idx + 1));
        }
        match self.match_as_set(dump, &names[idx], neighbor, depth - 1) {
            None => None,
            Some((mut items, af)) => match self.match_set_names(
                dump,
                names,
                idx + 1,
                neighbor,
                depth,
            ) {
                None => None,
                Some((mut rest, rf)) => {
                    items.append(&mut rest);
                    Some((items, af && rf))
                },
            },
        }
    }

    fn match_peering_list(
        &self,
        dump: &QueryDump,
        ps: &Vec<Peering>,
        idx: usize,
        neighbor: u32,
        depth: u32,
    ) -> (r: AnyReport)
        requires
            dump.wf(),
            depth >= 1,
            idx <= ps@.len(),
        ensures
            any_view(r) == spec_match_peering_list(*dump, ps@.skip(idx as int), neighbor, depth),
        decreases depth, 2int, 1int, ps@.len() - idx,
    {
        if idx == ps.len() {
            proof {
                assert(ps@.skip(idx as int) =~= Seq::<Peering>::empty());
            }
            return Some((Vec::new(), true));
        }
        proof {
            assert(ps@.skip(idx as int)[0] == ps@[idx as int]);
            assert(ps@.skip(idx as int).drop_first() =~= ps@.skip(idx + 1));
        }
        match self.match_peering(dump, &ps[idx], neighbor, depth - 1) {
            None => None,
            Some((mut items, af)) => match self.match_peering_list(
                dump,
                ps,
                idx + 1,
                neighbor,
                depth,
            ) {
                None => None,
                Some((mut rest, rf)) => {
                    items.append(&mut rest);
                    Some((items, af && rf))
                },
            },
        }
    }

    fn match_peering_actions(
        &self,
        dump: &QueryDump,
        pas: &Vec<PeeringAction>,
        idx: usize,
        neighbor: u32,
        depth: u32,
    ) -> (r: AnyReport)
        requires
            dump.wf(),
            depth >= 1,
            idx <= pas@.len(),
        ensures
            any_view(r) == spec_match_peering_actions(
                *dump,
                pas@.skip(idx as int),
                neighbor,
                depth,
            ),
        decreases depth, 6int, 0int, pas@.len() - idx,
    {
        if idx == pas.len() {
            proof {
                assert(pas@.skip(idx as int) =~= Seq::<PeeringAction>::empty());
            }
            return Some((Vec::new(), true));
        }
        proof {
            assert(pas@.skip(idx as int)[0] == pas@[idx as int]);
            assert(pas@.skip(idx as int).drop_first() =~= pas@.skip(idx + 1));
        }
        match self.match_peering(dump, &pas[idx].mp_peering, neighbor, depth - 1) {
            None => None,
            Some((mut items, af)) => match self.match_peering_actions(
                dump,
                pas,
                idx + 1,
                neighbor,
                depth,
            ) {
                None => None,
                Some((mut rest, rf)) => {
                    items.append(&mut rest);
                    Some((items, af && rf))
                },
            },
        }
    }

    fn check_from(
        &self,
        dump: &QueryDump,
        v: &Versions,
        neighbor: u32,
        g: usize,
        idx: usize,
    ) -> (r: AnyReport)
        requires
            self.wf(),
            dump.wf(),
            v.wf(),
            g <= 4,
        ensures
            any_view(r) == spec_check_from(
                *dump,
                self.prefix,
                *v,
                neighbor,
                g as int,
                idx as int,
            ),
        decreases 4 - g, spec_group(*v, self.prefix.family, g as int).len() - idx,
    {
        if g >= 4 {
            return no_match_any_report(MatchProblem::NoNeighbor(neighbor));
        }
        let entries = group_of(v, self.prefix.family, g);
        if idx >= entries.len() {
            return self.check_from(dump, v, neighbor, g + 1, 0);
        }
        let entry = &entries[idx];
        proof {
            assert(entry.mp_filter.wf()) by {
                if g == 0 {
                    assert(v.any.any@[idx as int].wf());
                } else if g == 1 {
                    assert(v.any.unicast@[idx as int].wf());
                } else if g == 2 {
                    if self.prefix.family == IpFamily::V4 {
                        assert(v.ipv4.any@[idx as int].wf());
                    } else {
                        assert(v.ipv6.any@[idx as int].wf());
                    }
                } else {
                    if self.prefix.family == IpFamily::V4 {
                        assert(v.ipv4.unicast@[idx as int].wf());
                    } else {
                        assert(v.ipv6.unicast@[idx as int].wf());
                    }
                }
            }
            assert(entry.mp_peerings@.skip(0) =~= entry.mp_peerings@);
        }
        match self.match_peering_actions(dump, &entry.mp_peerings, 0, neighbor, RECURSION_LIMIT) {
            None => {
                let checker = CheckFilter { dump, compare: self, accept_num: neighbor };
                checker.check(&entry.mp_filter, RECURSION_LIMIT)
            },
            Some((items, true)) => self.check_from(dump, v, neighbor, g, idx + 1),
            Some((mut items, false)) => match self.check_from(dump, v, neighbor, g, idx + 1) {
                None => None,
                Some((mut rest, rf)) => {
                    items.append(&mut rest);
                    Some((items, false))
                },
            },
        }
    }

    fn check_single_from(&self, dump: &QueryDump, v: &Versions, g: usize, idx: usize) -> (r:
        AnyReport)
        requires
            self.wf(),
            dump.wf(),
            v.wf(),
            g <= 4,
        ensures
            any_view(r) == spec_check_single_from(*dump, self.prefix, *v, g as int, idx as int),
        decreases 4 - g, spec_group(*v, self.prefix.family, g as int).len() - idx,
    {
        if g >= 4 {
            return Some((Vec::new(), true));
        }
        let entries = group_of(v, self.prefix.family, g);
        if idx >= entries.len() {
            return self.check_single_from(dump, v, g + 1, 0);
        }
        let entry = &entries[idx];
        proof {
            assert(entry.mp_filter.wf()) by {
                if g == 0 {
                    assert(v.any.any@[idx as int].wf());
                } else if g == 1 {
                    assert(v.any.unicast@[idx as int].wf());
                } else if g == 2 {
                    if self.prefix.family == IpFamily::V4 {
                        assert(v.ipv4.any@[idx as int].wf());
                    } else {
                        assert(v.ipv6.any@[idx as int].wf());
                    }
                } else {
                    if self.prefix.family == IpFamily::V4 {
                        assert(v.ipv4.unicast@[idx as int].wf());
                    } else {
                        assert(v.ipv6.unicast@[idx as int].wf());
                    }
                }
            }
        }
        let checker = CheckFilter { dump, compare: self, accept_num: 0 };
        match checker.check(&entry.mp_filter, RECURSION_LIMIT) {
            None => None,
            Some((mut items, af)) => match self.check_single_from(dump, v, g, idx + 1) {
                None => None,
                Some((mut rest, rf)) => {
                    items.append(&mut rest);
                    Some((items, af && rf))
                },
            },
        }
    }

    /// The export side of `from` towards `to`.
    pub fn check_export(&self, dump: &QueryDump, from: u32, to: u32) -> (r: AnyReport)
        requires
            self.wf(),
            dump.wf(),
        ensures
            any_view(r) == spec_check_export(*dump, self.prefix, from, to),
    {
        match dump.aut_nums.get(from) {
            None => skip_any_report(SkipReason::AutNumUnrecorded(from)),
            Some(aut_num) => {
                proof {
                    dump.lemma_aut_num_wf(from);
                }
                self.check_from(dump, &aut_num.exports, to, 0, 0)
            },
        }
    }

    /// The import side of `of` hearing from `from`.
    pub fn check_import(&self, dump: &QueryDump, of: u32, from: u32) -> (r: AnyReport)
        requires
            self.wf(),
            dump.wf(),
        ensures
            any_view(r) == spec_check_import(*dump, self.prefix, of, from),
    {
        match dump.aut_nums.get(of) {
            None => skip_any_report(SkipReason::AutNumUnrecorded(of)),
            Some(aut_num) => {
                proof {
                    dump.lemma_aut_num_wf(of);
                }
                self.check_from(dump, &aut_num.imports, from, 0, 0)
            },
        }
    }

    fn check_single_export(&self, dump: &QueryDump, from: u32) -> (r: AnyReport)
        requires
            self.wf(),
            dump.wf(),
        ensures
            any_view(r) == spec_check_single_export(*dump, self.prefix, from),
    {
        match dump.aut_nums.get(from) {
            None => skip_any_report(SkipReason::AutNumUnrecorded(from)),
            Some(aut_num) => {
                proof {
                    dump.lemma_aut_num_wf(from);
                }
                self.check_single_from(dump, &aut_num.exports, 0, 0)
            },
        }
    }

    /// Check the whole path: one verdict for each AS on it, the origin's
    /// export first, cut short at the first bad verdict when so configured.
    pub fn check(&self, dump: &QueryDump) -> (r: Vec<Report>)
        requires
            self.wf(),
            dump.wf(),
        ensures
            r@.map_values(|x: Report| x@) == spec_reports_from(
                *dump,
                self.prefix,
                self.as_path@,
                self.verbosity,
                0,
            ),
    {
        let mut out: Vec<Report> = Vec::new();
        let n = self.as_path.len();
        let mut i: usize = 0;
        let mut stopped = false;
        proof {
            assert(out@.map_values(|x: Report| x@) =~= Seq::<ReportView>::empty());
        }
        while i < n && !stopped
            invariant
                self.wf(),
                dump.wf(),
                n == self.as_path@.len(),
                i <= n,
                if stopped {
                    out@.map_values(|x: Report| x@) == spec_reports_from(
                        *dump,
                        self.prefix,
                        self.as_path@,
                        self.verbosity,
                        0,
                    )
                } else {
                    spec_reports_from(*dump, self.prefix, self.as_path@, self.verbosity, 0)
                        == out@.map_values(|x: Report| x@) + spec_reports_from(
                        *dump,
                        self.prefix,
                        self.as_path@,
                        self.verbosity,
                        i as int,
                    )
                },
            decreases n - i + if stopped { 0int } else { 1int },
        {
            let path = &self.as_path;
            let rep: AnyReport = if n == 1 {
                self.check_single_export(dump, path[0])
            } else if i == 0 {
                self.check_export(dump, path[0], path[1])
            } else if i == n - 1 {
                self.check_import(dump, path[i], path[i - 1])
            } else {
                let ri = self.check_import(dump, path[i], path[i - 1]);
                let re = self.check_export(dump, path[i], path[i + 1]);
                and_rep(ri, re)
            };
            proof {
                assert(any_view(rep) == spec_rep_at(*dump, self.prefix, self.as_path@, i as int));
            }
            let mut bad = false;
            let verdict: Report = if n == 1 {
                match rep {
                    None => Report::GoodSingleExport { from: path[0] },
                    Some((items, false)) => Report::NeutralSingleExport { from: path[0], items },
                    Some((items, true)) => {
                        bad = true;
                        Report::BadSingleExport { from: path[0], items }
                    },
                }
            } else if i == 0 {
                match rep {
                    None => Report::GoodExport { from: path[0], to: path[1] },
                    Some((items, false)) => Report::NeutralExport {
                        from: path[0],
                        to: path[1],
                        items,
                    },
                    Some((items, true)) => {
                        bad = true;
                        Report::BadExport { from: path[0], to: path[1], items }
                    },
                }
            } else {
                match rep {
                    None => Report::GoodImport { from: path[i - 1], to: path[i] },
                    Some((items, false)) => Report::NeutralImport {
                        from: path[i - 1],
                        to: path[i],
                        items,
                    },
                    Some((items, true)) => {
                        bad = true;
                        Report::BadImport { from: path[i - 1], to: path[i], items }
                    },
                }
            };
            let ghost rv = spec_verdict_at(*dump, self.prefix, self.as_path@, i as int);
            proof {
                assert(verdict@ == rv);
                assert(bad == report_is_bad(rv));
            }
            let emit = bad || (match &verdict {
                Report::GoodImport { .. } | Report::GoodExport { .. }
                    | Report::GoodSingleExport { .. } => self.verbosity.show_success,
                Report::NeutralImport { .. } | Report::NeutralExport { .. }
                    | Report::NeutralSingleExport { .. } => self.verbosity.show_skips,
                _ => true,
            });
            let ghost out0 = out@;
            if emit {
                out.push(verdict);
                proof {
                    out0.lemma_push_map_commute(|x: Report| x@, out@[out@.len() - 1]);
                    assert(out@.map_values(|x: Report| x@) =~= out0.map_values(|x: Report| x@)
                        + spec_emit(self.verbosity, rv));
                }
            } else {
                proof {
                    assert(spec_emit(self.verbosity, rv) =~= Seq::<ReportView>::empty());
                    assert(out@.map_values(|x: Report| x@) =~= out0.map_values(|x: Report| x@)
                        + spec_emit(self.verbosity, rv));
                }
            }
            if bad && self.verbosity.stop_at_first {
                stopped = true;
            } else {
                i = i + 1;
            }
        }
        out
    }
}

} // verus!
