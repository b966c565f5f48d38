//! The RPSL filter algebra.

use vstd::prelude::*;

use crate::aut_sys::{clone_as_name, spec_as_name_eq, as_name_eq, AsName};
use crate::cmp::Compare;
use crate::ip::{AddrPfxRange, IpNet, RangeOperator};
use crate::lex::Call;
use crate::query::{ip_seq_wf, QueryDump};
use crate::report::{
    all_to_any, any_to_all, bad_rpsl_any_report, failed_any_report, no_match_any_report,
    recursion_all_report,
    recursion_any_report, skip_any_report, spec_all_to_any, spec_any_to_all,
    spec_bad_rpsl_any_report, spec_failed_any_report, spec_no_match_any_report,
    spec_recursion_all_report, spec_recursion_any_report, spec_skip_any_report, all_view,
    any_view, AllReport, AllReportView, AnyReport, AnyReportView, MatchProblem, RecurSrc,
    ReportItem, RpslError, SkipReason,
};

verus! {

/// A filter tree: boolean algebra over prefix, AS, AS-path and community
/// predicates, with named-set references.
#[derive(Debug)]
pub enum Filter {
    /// Matches everything.
    Any,
    /// Reference to a named filter-set.
    FilterSet(String),
    /// Matches when any listed range contains the observed prefix.
    AddrPrefixSet(Vec<AddrPfxRange>),
    /// Reference to a named route-set, under a range operator.
    RouteSet(String, RangeOperator),
    /// The routes registered for one AS, under a range operator.
    AsNum(u32, RangeOperator),
    /// The routes registered for the members of a named as-set.
    AsSet(String, RangeOperator),
    /// An AS-path regular expression; checking it is unimplemented.
    AsPathRE(String),
    And { left: Box<Filter>, right: Box<Filter> },
    Or { left: Box<Filter>, right: Box<Filter> },
    Not(Box<Filter>),
    Group(Box<Filter>),
    /// A community call; checking it is unimplemented.
    Community(Call),
    /// A filter the parser could not make sense of, with the reason.
    Invalid(String),
}

impl Filter {
    /// Every prefix range written in the filter is well formed.
    pub open spec fn wf(self) -> bool
        decreases self,
    {
        match self {
            Filter::AddrPrefixSet(ps) => forall|i: int|
                0 <= i < ps@.len() ==> (#[trigger] ps@[i]).wf(),
            Filter::And { left, right } => left.wf() && right.wf(),
            Filter::Or { left, right } => left.wf() && right.wf(),
            Filter::Not(inner) => inner.wf(),
            Filter::Group(inner) => inner.wf(),
            _ => true,
        }
    }

    /// Height of the tree, the measure for structural descent at equal depth.
    pub open spec fn height(self) -> nat
        decreases self,
    {
        match self {
            Filter::And { left, right } => 1 + if left.height() > right.height() {
                left.height()
            } else {
                right.height()
            },
            Filter::Or { left, right } => 1 + if left.height() > right.height() {
                left.height()
            } else {
                right.height()
            },
            Filter::Not(inner) => 1 + inner.height(),
            Filter::Group(inner) => 1 + inner.height(),
            _ => 1,
        }
    }
}

/// The height of a binary filter node over the two children.
pub open spec fn pair_height(left: Filter, right: Filter) -> nat {
    1 + if left.height() > right.height() {
        left.height()
    } else {
        right.height()
    }
}


/// The filter checker: one observation against one filter tree, over the
/// query dump. `depth` bounds every descent into a named set or sub-filter;
/// the visited list cuts cycles among as-set names.
pub struct CheckFilter<'a> {
    pub dump: &'a QueryDump,
    pub compare: &'a Compare,
    pub accept_num: u32,
}

/// What `check` returns, as a function of the dump, the observed prefix,
/// the filter and the remaining depth.
pub open spec fn spec_check(d: QueryDump, q: IpNet, f: Filter, depth: u32) -> AnyReportView
    decreases depth, f.height(), 3int, 0int,
{
    if depth == 0 {
        spec_recursion_any_report(RecurSrc::CheckFilter)
    } else {
        match f {
            Filter::FilterSet(name) => spec_filter_set(d, q, name, depth),
            Filter::Any => None,
            Filter::AddrPrefixSet(prefixes) => spec_filter_prefixes(q, prefixes@),
            Filter::RouteSet(name, op) => spec_filter_route_set(d, q, name, op, depth),
            Filter::AsNum(num, op) => spec_filter_as_num(d, q, num, op),
            Filter::AsSet(name, op) => spec_filter_as_set(d, q, name, op, depth, Seq::empty()).0,
            Filter::AsPathRE(expr) => spec_skip_any_report(SkipReason::AsRegexUnimplemented(expr)),
            Filter::And { left, right } => spec_all_to_any(
                spec_filter_and(d, q, *left, *right, depth),
            ),
            Filter::Or { left, right } => spec_filter_or(d, q, *left, *right, depth),
            Filter::Not(inner) => spec_filter_not(d, q, *inner, depth),
            Filter::Group(inner) => spec_check(d, q, *inner, depth),
            Filter::Community(c) => spec_skip_any_report(
                SkipReason::CommunityCheckUnimplemented(c.method),
            ),
            Filter::Invalid(reason) => spec_bad_rpsl_any_report(RpslError::InvalidFilter(reason)),
        }
    }
}

/// A named filter-set: the disjunction of its filters.
pub open spec fn spec_filter_set(d: QueryDump, q: IpNet, name: String, depth: u32) -> AnyReportView
    decreases depth, 0int, 2int, 0int,
{
    if !d.filter_sets@.contains_key(name@) {
        spec_skip_any_report(SkipReason::FilterSetUnrecorded(name))
    } else {
        spec_check_list(d, q, d.filter_sets@[name@].filters@, depth)
    }
}

/// Disjunction over a list of filters, each one level deeper.
pub open spec fn spec_check_list(d: QueryDump, q: IpNet, fs: Seq<Filter>, depth: u32) -> AnyReportView
    decreases depth, 0int, 1int, fs.len(),
{
    if depth == 0 || fs.len() == 0 {
        Some((Seq::empty(), true))
    } else {
        match spec_check(d, q, fs[0], (depth - 1) as u32) {
            None => None,
            Some((items, all_fail)) => match spec_check_list(d, q, fs.drop_first(), depth) {
                None => None,
                Some((rest_items, rest_fail)) => Some((items + rest_items, all_fail && rest_fail)),
            },
        }
    }
}

/// A prefix list matches when any listed range contains the observation.
pub open spec fn spec_filter_prefixes(q: IpNet, prefixes: Seq<AddrPfxRange>) -> AnyReportView {
    if exists|i: int| 0 <= i < prefixes.len() && (#[trigger] prefixes[i]).spec_contains(q) {
        None
    } else {
        spec_no_match_any_report(MatchProblem::FilterPrefixes)
    }
}

/// The routes registered for one AS, each under the given operator.
pub open spec fn spec_filter_as_num(d: QueryDump, q: IpNet, num: u32, op: RangeOperator) -> AnyReportView {
    if !d.as_routes@.contains_key(num) {
        spec_skip_any_report(SkipReason::AsRoutesUnrecorded(num))
    } else {
        let routes = d.as_routes@[num];
        if exists|i: int|
            0 <= i < routes@.len() && (AddrPfxRange {
                address_prefix: #[trigger] routes@[i],
                range_operator: op,
            }).spec_contains(q) {
            None
        } else {
            spec_no_match_any_report(MatchProblem::FilterAsNum(num, op))
        }
    }
}

/// A named route-set under an operator: the disjunction of its members,
/// turned into a named mismatch when every member fails.
pub open spec fn spec_filter_route_set(
    d: QueryDump,
    q: IpNet,
    name: String,
    op: RangeOperator,
    depth: u32,
) -> AnyReportView
    decreases depth, 0int, 3int, 0int,
{
    if depth == 0 {
        spec_recursion_any_report(RecurSrc::FilterRouteSet(name))
    } else if !d.route_sets@.contains_key(name@) {
        spec_skip_any_report(SkipReason::RouteSetUnrecorded(name))
    } else {
        match spec_route_member_list(d, q, d.route_sets@[name@].members@, op, depth) {
            None => None,
            Some((items, all_fail)) => if all_fail {
                spec_no_match_any_report(MatchProblem::FilterRouteSet(name))
            } else {
                Some((items, false))
            },
        }
    }
}

/// Disjunction over route-set members, each one level deeper.
pub open spec fn spec_route_member_list(
    d: QueryDump,
    q: IpNet,
    ms: Seq<crate::set::RouteSetMember>,
    op: RangeOperator,
    depth: u32,
) -> AnyReportView
    decreases depth, 0int, 2int, ms.len(),
{
    if depth == 0 || ms.len() == 0 {
        Some((Seq::empty(), true))
    } else {
        match spec_filter_route_set_member(d, q, ms[0], op, (depth - 1) as u32) {
            None => None,
            Some((items, all_fail)) => match spec_route_member_list(
                d,
                q,
                ms.drop_first(),
                op,
                depth,
            ) {
                None => None,
                Some((rest_items, rest_fail)) => Some((items + rest_items, all_fail && rest_fail)),
            },
        }
    }
}

/// One route-set member: a literal range keeps its own operator unless it
/// has none and the caller does; a named member recurses.
pub open spec fn spec_filter_route_set_member(
    d: QueryDump,
    q: IpNet,
    member: crate::set::RouteSetMember,
    op: RangeOperator,
    depth: u32,
) -> AnyReportView
    decreases depth, 0int, 4int, 0int,
{
    if depth == 0 {
        spec_recursion_any_report(RecurSrc::FilterRouteSetMember(member))
    } else {
        match member {
            crate::set::RouteSetMember::Range(prefix) => match (prefix.range_operator, op) {
                (RangeOperator::NoOp, RangeOperator::NoOp) => spec_filter_prefixes(
                    q,
                    seq![prefix],
                ),
                (RangeOperator::NoOp, other) => spec_filter_prefixes(
                    q,
                    seq![
                        AddrPfxRange {
                            address_prefix: prefix.address_prefix,
                            range_operator: other,
                        },
                    ],
                ),
                _ => spec_filter_prefixes(q, seq![prefix]),
            },
            crate::set::RouteSetMember::NameOp(sub, sub_op) => spec_filter_route_set(
                d,
                q,
                sub,
                sub_op,
                (depth - 1) as u32,
            ),
        }
    }
}

/// A named as-set: the disjunction over its member numbers and member sets,
/// threading the visited list through.
pub open spec fn spec_filter_as_set(
    d: QueryDump,
    q: IpNet,
    name: String,
    op: RangeOperator,
    depth: u32,
    visited: Seq<AsName>,
) -> (AnyReportView, Seq<AsName>)
    decreases depth, 0int, 3int, 0int,
{
    if depth == 0 {
        (spec_recursion_any_report(RecurSrc::FilterAsSet(name)), visited)
    } else if !d.as_sets@.contains_key(name@) {
        (spec_skip_any_report(SkipReason::AsSetUnrecorded(name)), visited)
    } else {
        let as_set = d.as_sets@[name@];
        let names = as_set.members@.map_values(|n: u32| AsName::Num(n))
            + as_set.set_members@.map_values(|s: String| AsName::NamedSet(s));
        spec_as_name_list(d, q, names, op, depth, visited)
    }
}

/// Disjunction over AS names, each one level deeper, threading the visited
/// list; a success cuts the walk short.
pub open spec fn spec_as_name_list(
    d: QueryDump,
    q: IpNet,
    names: Seq<AsName>,
    op: RangeOperator,
    depth: u32,
    visited: Seq<AsName>,
) -> (AnyReportView, Seq<AsName>)
    decreases depth, 0int, 2int, names.len(),
{
    if depth == 0 || names.len() == 0 {
        (Some((Seq::empty(), true)), visited)
    } else {
        let (first, vis1) = spec_filter_as_name(d, q, names[0], op, (depth - 1) as u32, visited);
        match first {
            None => (None, vis1),
            Some((items, all_fail)) => {
                let (rest, vis2) = spec_as_name_list(d, q, names.drop_first(), op, depth, vis1);
                match rest {
                    None => (None, vis2),
                    Some((rest_items, rest_fail)) => (
                        Some((items + rest_items, all_fail && rest_fail)),
                        vis2,
                    ),
                }
            },
        }
    }
}

/// One AS name: a revisit on the current walk fails silently, letting a
/// sibling still succeed; otherwise the name is marked visited and checked.
pub open spec fn spec_filter_as_name(
    d: QueryDump,
    q: IpNet,
    nm: AsName,
    op: RangeOperator,
    depth: u32,
    visited: Seq<AsName>,
) -> (AnyReportView, Seq<AsName>)
    decreases depth, 0int, 4int, 0int,
{
    if exists|k: int| 0 <= k < visited.len() && spec_as_name_eq(#[trigger] visited[k], nm) {
        (spec_failed_any_report(), visited)
    } else {
        let vis1 = visited.push(nm);
        if depth == 0 {
            (spec_recursion_any_report(RecurSrc::FilterAsName(nm)), vis1)
        } else {
            match nm {
                AsName::Num(num) => (spec_filter_as_num(d, q, num, op), vis1),
                AsName::NamedSet(s) => spec_filter_as_set(d, q, s, op, (depth - 1) as u32, vis1),
                AsName::Invalid(reason) => (
                    spec_bad_rpsl_any_report(RpslError::InvalidAsName(reason)),
                    vis1,
                ),
            }
        }
    }
}

/// Conjunction: the left one level deeper, the right at the same depth;
/// the first failure is absorbing, skips accumulate.
pub open spec fn spec_filter_and(d: QueryDump, q: IpNet, left: Filter, right: Filter, depth: u32) -> AllReportView
    decreases depth, pair_height(left, right), 2int, 0int,
{
    if depth == 0 {
        spec_recursion_all_report(RecurSrc::FilterAnd)
    } else {
        match spec_any_to_all(spec_check(d, q, left, (depth - 1) as u32)) {
            Err(items) => Err(items),
            Ok(litems) => match spec_any_to_all(spec_check(d, q, right, depth)) {
                Ok(ritems) => Ok(litems + ritems),
                Err(ritems) => Err(litems + ritems),
            },
        }
    }
}

/// Disjunction: the left one level deeper, the right at the same depth;
/// one success is absorbing.
pub open spec fn spec_filter_or(d: QueryDump, q: IpNet, left: Filter, right: Filter, depth: u32) -> AnyReportView
    decreases depth, pair_height(left, right), 2int, 0int,
{
    if depth == 0 {
        spec_recursion_any_report(RecurSrc::FilterOr)
    } else {
        match spec_check(d, q, left, (depth - 1) as u32) {
            None => None,
            Some((litems, lfail)) => match spec_check(d, q, right, depth) {
                None => None,
                Some((ritems, rfail)) => Some((litems + ritems, lfail && rfail)),
            },
        }
    }
}

/// Negation: a full failure inverts to success, a success to a named
/// mismatch, and a skip stays a skip with one more item, since an
/// inconclusive result cannot soundly be inverted.
pub open spec fn spec_filter_not(d: QueryDump, q: IpNet, inner: Filter, depth: u32) -> AnyReportView
    decreases depth, 1 + inner.height(), 2int, 0int,
{
    if depth == 0 {
        spec_recursion_any_report(RecurSrc::FilterNot)
    } else {
        match spec_check(d, q, inner, depth) {
            Some((errors, true)) => None,
            Some((skips, false)) => Some(
                (skips.push(ReportItem::Skip(SkipReason::SkippedNotFilterResult)), false),
            ),
            None => spec_no_match_any_report(MatchProblem::NotFilterMatch),
        }
    }
}

impl<'a> CheckFilter<'a> {
    pub open spec fn wf(self) -> bool {
        self.dump.wf() && self.compare.wf()
    }

    /// Check one filter at the given remaining depth.
    pub fn check(&self, filter: &Filter, depth: u32) -> (r: AnyReport)
        requires
            self.wf(),
            filter.wf(),
        ensures
            any_view(r) == spec_check(*self.dump, self.compare.prefix, *filter, depth),
        decreases depth, filter.height(), 3int, 0int,
    {
        if depth == 0 {
            return recursion_any_report(RecurSrc::CheckFilter);
        }
        match filter {
            Filter::FilterSet(name) => self.filter_set(name, depth),
            Filter::Any => None,
            Filter::AddrPrefixSet(prefixes) => self.filter_prefixes(prefixes),
            Filter::RouteSet(name, op) => self.filter_route_set(name, *op, depth),
            Filter::AsNum(num, op) => self.filter_as_num(*num, *op),
            Filter::AsSet(name, op) => {
                let mut visited: Vec<AsName> = Vec::new();
                self.filter_as_set(name, *op, depth, &mut visited)
            },
            Filter::AsPathRE(expr) => self.filter_as_regex(expr),
            Filter::And { left, right } => all_to_any(self.filter_and(left, right, depth)),
            Filter::Or { left, right } => self.filter_or(left, right, depth),
            Filter::Not(inner) => self.filter_not(inner, depth),
            Filter::Group(inner) => self.check(inner, depth),
            Filter::Community(c) => self.filter_community(c),
            Filter::Invalid(reason) => self.invalid_filter(reason),
        }
    }

    fn filter_set(&self, name: &String, depth: u32) -> (r: AnyReport)
        requires
            self.wf(),
            depth >= 1,
        ensures
            any_view(r) == spec_filter_set(*self.dump, self.compare.prefix, *name, depth),
        decreases depth, 0int, 2int, 0int,
    {
        match self.dump.filter_sets.get(name) {
            None => skip_any_report(SkipReason::FilterSetUnrecorded(name.clone())),
            Some(filter_set) => {
                proof {
                    self.dump.lemma_filter_set_wf(name@);
                    assert(filter_set.filters@.skip(0) =~= filter_set.filters@);
                }
                self.check_list(&filter_set.filters, 0, depth)
            },
        }
    }

    fn check_list(&self, fs: &Vec<Filter>, idx: usize, depth: u32) -> (r: AnyReport)
        requires
            self.wf(),
            depth >= 1,
            idx <= fs@.len(),
            forall|i: int| 0 <= i < fs@.len() ==> (#[trigger] fs@[i]).wf(),
        ensures
            any_view(r) == spec_check_list(*self.dump, self.compare.prefix, fs@.skip(idx as int), depth),
        decreases depth, 0int, 1int, fs@.len() - idx,
    {
        if idx == fs.len() {
            proof {
                assert(fs@.skip(idx as int) =~= Seq::<Filter>::empty());
            }
            return Some((Vec::new(), true));
        }
        proof {
            assert(fs@.skip(idx as int)[0] == fs@[idx as int]);
            assert(fs@.skip(idx as int).drop_first() =~= fs@.skip(idx + 1));
        }
        match self.check(&fs[idx], depth - 1) {
            None => None,
            Some((mut items, all_fail)) => match self.check_list(fs, idx + 1, depth) {
                None => None,
                Some((mut rest_items, rest_fail)) => {
                    items.append(&mut rest_items);
                    Some((items, all_fail && rest_fail))
                },
            },
        }
    }

    fn filter_prefixes(&self, prefixes: &Vec<AddrPfxRange>) -> (r: AnyReport)
        requires
            self.wf(),
            forall|i: int| 0 <= i < prefixes@.len() ==> (#[trigger] prefixes@[i]).wf(),
        ensures
            any_view(r) == spec_filter_prefixes(self.compare.prefix, prefixes@),
    {
        let n = prefixes.len();
        for i in 0..n
            invariant
                n == prefixes@.len(),
                self.wf(),
                forall|k: int| 0 <= k < prefixes@.len() ==> (#[trigger] prefixes@[k]).wf(),
                forall|k: int| 0 <= k < i ==> !(#[trigger] prefixes@[k]).spec_contains(
                    self.compare.prefix,
                ),
        {
            if prefixes[i].contains(&self.compare.prefix) {
                return None;
            }
        }
        no_match_any_report(MatchProblem::FilterPrefixes)
    }

    fn filter_as_num(&self, num: u32, op: RangeOperator) -> (r: AnyReport)
        requires
            self.wf(),
        ensures
            any_view(r) == spec_filter_as_num(*self.dump, self.compare.prefix, num, op),
    {
        let routes = match self.dump.as_routes.get(num) {
            Some(routes) => routes,
            None => {
                return skip_any_report(SkipReason::AsRoutesUnrecorded(num));
            },
        };
        proof {
            self.dump.lemma_as_routes_value_wf(num);
        }
        let n = routes.len();
        for i in 0..n
            invariant
                n == routes@.len(),
                self.wf(),
                self.dump.as_routes@.contains_key(num),
                routes@ == self.dump.as_routes@[num]@,
                ip_seq_wf(routes@),
                forall|k: int|
                    0 <= k < i ==> !(AddrPfxRange {
                        address_prefix: #[trigger] routes@[k],
                        range_operator: op,
                    }).spec_contains(self.compare.prefix),
        {
            let range = AddrPfxRange { address_prefix: routes[i], range_operator: op };
            if range.contains(&self.compare.prefix) {
                proof {
                    assert(routes@ == self.dump.as_routes@[num]@);
                    assert((AddrPfxRange {
                        address_prefix: self.dump.as_routes@[num]@[i as int],
                        range_operator: op,
                    }).spec_contains(self.compare.prefix));
                }
                return None;
            }
        }
        no_match_any_report(MatchProblem::FilterAsNum(num, op))
    }

    fn filter_route_set(&self, name: &String, op: RangeOperator, depth: u32) -> (r: AnyReport)
        requires
            self.wf(),
        ensures
            any_view(r) == spec_filter_route_set(
                *self.dump,
                self.compare.prefix,
                *name,
                op,
                depth,
            ),
        decreases depth, 0int, 3int, 0int,
    {
        if depth == 0 {
            return recursion_any_report(RecurSrc::FilterRouteSet(name.clone()));
        }
        match self.dump.route_sets.get(name) {
            None => skip_any_report(SkipReason::RouteSetUnrecorded(name.clone())),
            Some(route_set) => {
                proof {
                    self.dump.lemma_route_set_wf(name@);
                    assert(route_set.members@.skip(0) =~= route_set.members@);
                }
                match self.route_member_list(&route_set.members, 0, op, depth) {
                    None => None,
                    Some((items, all_fail)) => if all_fail {
                        no_match_any_report(MatchProblem::FilterRouteSet(name.clone()))
                    } else {
                        Some((items, false))
                    },
                }
            },
        }
    }

    fn route_member_list(
        &self,
        ms: &Vec<crate::set::RouteSetMember>,
        idx: usize,
        op: RangeOperator,
        depth: u32,
    ) -> (r: AnyReport)
        requires
            self.wf(),
            depth >= 1,
            idx <= ms@.len(),
            forall|i: int| 0 <= i < ms@.len() ==> (#[trigger] ms@[i]).wf(),
        ensures
            any_view(r) == spec_route_member_list(
                *self.dump,
                self.compare.prefix,
                ms@.skip(idx as int),
                op,
                depth,
            ),
        decreases depth, 0int, 2int, ms@.len() - idx,
    {
        if idx == ms.len() {
            proof {
                assert(ms@.skip(idx as int) =~= Seq::<crate::set::RouteSetMember>::empty());
            }
            return Some((Vec::new(), true));
        }
        proof {
            assert(ms@.skip(idx as int)[0] == ms@[idx as int]);
            assert(ms@.skip(idx as int).drop_first() =~= ms@.skip(idx + 1));
        }
        match self.filter_route_set_member(&ms[idx], op, depth - 1) {
            None => None,
            Some((mut items, all_fail)) => match self.route_member_list(ms, idx + 1, op, depth) {
                None => None,
                Some((mut rest_items, rest_fail)) => {
                    items.append(&mut rest_items);
                    Some((items, all_fail && rest_fail))
                },
            },
        }
    }

    fn filter_route_set_member(
        &self,
        member: &crate::set::RouteSetMember,
        op: RangeOperator,
        depth: u32,
    ) -> (r: AnyReport)
        requires
            self.wf(),
            member.wf(),
        ensures
            any_view(r) == spec_filter_route_set_member(
                *self.dump,
                self.compare.prefix,
                *member,
                op,
                depth,
            ),
        decreases depth, 0int, 4int, 0int,
    {
        if depth == 0 {
            return recursion_any_report(
                RecurSrc::FilterRouteSetMember(crate::set::clone_route_set_member(member)),
            );
        }
        match member {
            crate::set::RouteSetMember::Range(prefix) => {
                let use_op = match (prefix.range_operator, op) {
                    (RangeOperator::NoOp, RangeOperator::NoOp) => prefix.range_operator,
                    (RangeOperator::NoOp, other) => other,
                    _ => prefix.range_operator,
                };
                let range = AddrPfxRange {
                    address_prefix: prefix.address_prefix,
                    range_operator: use_op,
                };
                let one = vec![range];
                proof {
                    assert(one@ =~= seq![range]);
                }
                self.filter_prefixes(&one)
            },
            crate::set::RouteSetMember::NameOp(sub, sub_op) => self.filter_route_set(
                sub,
                *sub_op,
                depth - 1,
            ),
        }
    }

    fn filter_as_set(
        &self,
        name: &String,
        op: RangeOperator,
        depth: u32,
        visited: &mut Vec<AsName>,
    ) -> (r: AnyReport)
        requires
            self.wf(),
        ensures
            ({
                let (sr, svis) = spec_filter_as_set(
                    *self.dump,
                    self.compare.prefix,
                    *name,
                    op,
                    depth,
                    old(visited)@,
                );
                any_view(r) == sr && final(visited)@ == svis
            }),
        decreases depth, 0int, 3int, 0int,
    {
        if depth == 0 {
            return recursion_any_report(RecurSrc::FilterAsSet(name.clone()));
        }
        match self.dump.as_sets.get(name) {
            None => skip_any_report(SkipReason::AsSetUnrecorded(name.clone())),
            Some(as_set) => {
                let mut names: Vec<AsName> = Vec::new();
                let n = as_set.members.len();
                for i in 0..n
                    invariant
                        n == as_set.members@.len(),
                        names@ == as_set.members@.take(i as int).map_values(
                            |x: u32| AsName::Num(x),
                        ),
                {
                    names.push(AsName::Num(as_set.members[i]));
                    proof {
                        assert(as_set.members@.take(i + 1) =~= as_set.members@.take(
                            i as int,
                        ).push(as_set.members@[i as int]));
                        as_set.members@.take(i as int).lemma_push_map_commute(
                            |x: u32| AsName::Num(x),
                            as_set.members@[i as int],
                        );
                    }
                }
                proof {
                    assert(as_set.members@.take(n as int) =~= as_set.members@);
                }
                let m = as_set.set_members.len();
                for j in 0..m
                    invariant
                        m == as_set.set_members@.len(),
                        names@ == as_set.members@.map_values(|x: u32| AsName::Num(x))
                            + as_set.set_members@.take(j as int).map_values(
                            |s: String| AsName::NamedSet(s),
                        ),
                {
                    names.push(AsName::NamedSet(as_set.set_members[j].clone()));
                    proof {
                        assert(as_set.set_members@.take(j + 1) =~= as_set.set_members@.take(
                            j as int,
                        ).push(as_set.set_members@[j as int]));
                        as_set.set_members@.take(j as int).lemma_push_map_commute(
                            |s: String| AsName::NamedSet(s),
                            as_set.set_members@[j as int],
                        );
                        assert(names@ == (as_set.members@.map_values(|x: u32| AsName::Num(x))
                            + as_set.set_members@.take(j as int).map_values(
                            |s: String| AsName::NamedSet(s),
                        )).push(AsName::NamedSet(as_set.set_members@[j as int])));
                        assert(as_set.members@.map_values(|x: u32| AsName::Num(x))
                            + as_set.set_members@.take(j + 1).map_values(
                            |s: String| AsName::NamedSet(s),
                        ) =~= (as_set.members@.map_values(|x: u32| AsName::Num(x))
                            + as_set.set_members@.take(j as int).map_values(
                            |s: String| AsName::NamedSet(s),
                        )).push(AsName::NamedSet(as_set.set_members@[j as int])));
                    }
                }
                proof {
                    assert(as_set.set_members@.take(m as int) =~= as_set.set_members@);
                    assert(names@.skip(0) =~= names@);
                }
                self.filter_as_name_list(&names, 0, op, depth, visited)
            },
        }
    }

    fn filter_as_name_list(
        &self,
        names: &Vec<AsName>,
        idx: usize,
        op: RangeOperator,
        depth: u32,
        visited: &mut Vec<AsName>,
    ) -> (r: AnyReport)
        requires
            self.wf(),
            depth >= 1,
            idx <= names@.len(),
        ensures
            ({
                let (sr, svis) = spec_as_name_list(
                    *self.dump,
                    self.compare.prefix,
                    names@.skip(idx as int),
                    op,
                    depth,
                    old(visited)@,
                );
                any_view(r) == sr && final(visited)@ == svis
            }),
        decreases depth, 0int, 2int, names@.len() - idx,
    {
        if idx == names.len() {
            proof {
                assert(names@.skip(idx as int) =~= Seq::<AsName>::empty());
            }
            return Some((Vec::new(), true));
        }
        proof {
            assert(names@.skip(idx as int)[0] == names@[idx as int]);
            assert(names@.skip(idx as int).drop_first() =~= names@.skip(idx + 1));
        }
        match self.filter_as_name(&names[idx], op, depth - 1, visited) {
            None => None,
            Some((mut items, all_fail)) => match self.filter_as_name_list(
                names,
                idx + 1,
                op,
                depth,
                visited,
            ) {
                None => None,
                Some((mut rest_items, rest_fail)) => {
                    items.append(&mut rest_items);
                    Some((items, all_fail && rest_fail))
                },
            },
        }
    }

    fn filter_as_name(
        &self,
        as_name: &AsName,
        op: RangeOperator,
        depth: u32,
        visited: &mut Vec<AsName>,
    ) -> (r: AnyReport)
        requires
            self.wf(),
        ensures
            ({
                let (sr, svis) = spec_filter_as_name(
                    *self.dump,
                    self.compare.prefix,
                    *as_name,
                    op,
                    depth,
                    old(visited)@,
                );
                any_view(r) == sr && final(visited)@ == svis
            }),
        decreases depth, 0int, 4int, 0int,
    {
        let n = visited.len();
        for k in 0..n
            invariant
                n == visited@.len(),
                visited@ == old(visited)@,
                forall|j: int| 0 <= j < k ==> !spec_as_name_eq(#[trigger] visited@[j], *as_name),
        {
            if as_name_eq(&visited[k], as_name) {
                return failed_any_report();
            }
        }
        visited.push(clone_as_name(as_name));
        if depth == 0 {
            return recursion_any_report(RecurSrc::FilterAsName(clone_as_name(as_name)));
        }
        match as_name {
            AsName::Num(num) => self.filter_as_num(*num, op),
            AsName::NamedSet(s) => self.filter_as_set(s, op, depth - 1, visited),
            AsName::Invalid(reason) => bad_rpsl_any_report(RpslError::InvalidAsName(reason.clone())),
        }
    }

    fn filter_as_regex(&self, expr: &String) -> (r: AnyReport)
        ensures
            any_view(r) == spec_skip_any_report(SkipReason::AsRegexUnimplemented(*expr)),
    {
        skip_any_report(SkipReason::AsRegexUnimplemented(expr.clone()))
    }

    fn filter_and(&self, left: &Filter, right: &Filter, depth: u32) -> (r: AllReport)
        requires
            self.wf(),
            left.wf(),
            right.wf(),
        ensures
            all_view(r) == spec_filter_and(*self.dump, self.compare.prefix, *left, *right, depth),
        decreases depth, pair_height(*left, *right), 2int, 0int,
    {
        if depth == 0 {
            return recursion_all_report(RecurSrc::FilterAnd);
        }
        let mut litems = match any_to_all(self.check(left, depth - 1)) {
            Ok(items) => items,
            Err(items) => {
                return Err(items);
            },
        };
        match any_to_all(self.check(right, depth)) {
            Ok(mut ritems) => {
                litems.append(&mut ritems);
                Ok(litems)
            },
            Err(mut ritems) => {
                litems.append(&mut ritems);
                Err(litems)
            },
        }
    }

    fn filter_or(&self, left: &Filter, right: &Filter, depth: u32) -> (r: AnyReport)
        requires
            self.wf(),
            left.wf(),
            right.wf(),
        ensures
            any_view(r) == spec_filter_or(*self.dump, self.compare.prefix, *left, *right, depth),
        decreases depth, pair_height(*left, *right), 2int, 0int,
    {
        if depth == 0 {
            return recursion_any_report(RecurSrc::FilterOr);
        }
        match self.check(left, depth - 1) {
            None => None,
            Some((mut litems, lfail)) => match self.check(right, depth) {
                None => None,
                Some((mut ritems, rfail)) => {
                    litems.append(&mut ritems);
                    Some((litems, lfail && rfail))
                },
            },
        }
    }

    fn filter_not(&self, inner: &Filter, depth: u32) -> (r: AnyReport)
        requires
            self.wf(),
            inner.wf(),
        ensures
            any_view(r) == spec_filter_not(*self.dump, self.compare.prefix, *inner, depth),
        decreases depth, 1 + inner.height(), 2int, 0int,
    {
        if depth == 0 {
            return recursion_any_report(RecurSrc::FilterNot);
        }
        match self.check(inner, depth) {
            Some((errors, true)) => None,
            Some((mut skips, false)) => {
                skips.push(ReportItem::Skip(SkipReason::SkippedNotFilterResult));
                Some((skips, false))
            },
            None => no_match_any_report(MatchProblem::NotFilterMatch),
        }
    }

    fn filter_community(&self, community: &Call) -> (r: AnyReport)
        ensures
            any_view(r) == spec_skip_any_report(
                SkipReason::CommunityCheckUnimplemented(community.method),
            ),
    {
        let method = match &community.method {
            Some(m) => Some(m.clone()),
            None => None,
        };
        skip_any_report(SkipReason::CommunityCheckUnimplemented(method))
    }

    fn invalid_filter(&self, reason: &String) -> (r: AnyReport)
        ensures
            any_view(r) == spec_bad_rpsl_any_report(RpslError::InvalidFilter(*reason)),
    {
        bad_rpsl_any_report(RpslError::InvalidFilter(reason.clone()))
    }
}



/// The checker's disjunction over a filter list is the report model's
/// disjunctive fold of the members' own results: what holds of that fold,
/// such as its monotony under hardening a skip into a failure, holds of
/// filter-set evaluation.
pub proof fn lemma_check_list_is_any_fold(d: QueryDump, q: IpNet, fs: Seq<Filter>, depth: u32)
    requires
        depth >= 1,
    ensures
        spec_check_list(d, q, fs, depth) == crate::report::spec_any_fold(
            fs.map_values(|f: Filter| spec_check(d, q, f, (depth - 1) as u32)),
        ),
    decreases fs.len(),
{
    let mapped = fs.map_values(|f: Filter| spec_check(d, q, f, (depth - 1) as u32));
    if fs.len() == 0 {
        assert(mapped =~= Seq::<crate::report::AnyReportView>::empty());
    } else {
        lemma_check_list_is_any_fold(d, q, fs.drop_first(), depth);
        assert(mapped[0] == spec_check(d, q, fs[0], (depth - 1) as u32));
        assert(mapped.drop_first() =~= fs.drop_first().map_values(
            |f: Filter| spec_check(d, q, f, (depth - 1) as u32),
        ));
    }
}



/// A sub-result is shaped as the interpreter shapes them: an inconclusive
/// result always carries at least one item.
pub open spec fn wf_rep(r: AnyReportView) -> bool {
    r matches Some((items, false)) ==> items.len() > 0
}

/// The checker never returns an inconclusive result without an item.
pub proof fn lemma_wf_check(d: QueryDump, q: IpNet, f: Filter, depth: u32)
    ensures
        wf_rep(spec_check(d, q, f, depth)),
    decreases depth, f.height(), 3int, 0int,
{
    if depth != 0 {
        match f {
            Filter::FilterSet(name) => {
                lemma_wf_filter_set(d, q, name, depth);
            },
            Filter::Any => {},
            Filter::AddrPrefixSet(prefixes) => {},
            Filter::RouteSet(name, op) => {
                lemma_wf_filter_route_set(d, q, name, op, depth);
            },
            Filter::AsNum(num, op) => {},
            Filter::AsSet(name, op) => {
                lemma_wf_filter_as_set(d, q, name, op, depth, Seq::empty());
            },
            Filter::AsPathRE(expr) => {},
            Filter::And { left, right } => {},
            Filter::Or { left, right } => {
                lemma_wf_check(d, q, *left, (depth - 1) as u32);
                lemma_wf_check(d, q, *right, depth);
                let lrep = spec_check(d, q, *left, (depth - 1) as u32);
                let rrep = spec_check(d, q, *right, depth);
                match (lrep, rrep) {
                    (Some((li, lf)), Some((ri, rf))) => {
                        assert(spec_filter_or(d, q, *left, *right, depth) == Some(
                            (li + ri, lf && rf),
                        ));
                        if !(lf && rf) {
                            assert(li.len() > 0 || ri.len() > 0);
                        }
                    },
                    _ => {},
                }
            },
            Filter::Not(inner) => {
                let irep = spec_check(d, q, *inner, depth);
                match irep {
                    Some((items, all_fail)) => {
                        if !all_fail {
                            assert(spec_filter_not(d, q, *inner, depth) == Some(
                                (
                                    items.push(
                                        ReportItem::Skip(SkipReason::SkippedNotFilterResult),
                                    ),
                                    false,
                                ),
                            ));
                        }
                    },
                    None => {},
                }
            },
            Filter::Group(inner) => {
                lemma_wf_check(d, q, *inner, depth);
            },
            Filter::Community(c) => {},
            Filter::Invalid(reason) => {},
        }
    }
}

proof fn lemma_wf_filter_set(d: QueryDump, q: IpNet, name: String, depth: u32)
    ensures
        wf_rep(spec_filter_set(d, q, name, depth)),
    decreases depth, 0int, 2int, 0int,
{
    if d.filter_sets@.contains_key(name@) {
        lemma_wf_check_list(d, q, d.filter_sets@[name@].filters@, depth);
    }
}

proof fn lemma_wf_check_list(d: QueryDump, q: IpNet, fs: Seq<Filter>, depth: u32)
    ensures
        wf_rep(spec_check_list(d, q, fs, depth)),
    decreases depth, 0int, 1int, fs.len(),
{
    if depth != 0 && fs.len() != 0 {
        lemma_wf_check(d, q, fs[0], (depth - 1) as u32);
        lemma_wf_check_list(d, q, fs.drop_first(), depth);
    }
}

proof fn lemma_wf_filter_route_set(d: QueryDump, q: IpNet, name: String, op: RangeOperator, depth: u32)
    ensures
        wf_rep(spec_filter_route_set(d, q, name, op, depth)),
    decreases depth, 0int, 3int, 0int,
{
    if depth != 0 && d.route_sets@.contains_key(name@) {
        lemma_wf_route_member_list(d, q, d.route_sets@[name@].members@, op, depth);
    }
}

proof fn lemma_wf_route_member_list(
    d: QueryDump,
    q: IpNet,
    ms: Seq<crate::set::RouteSetMember>,
    op: RangeOperator,
    depth: u32,
)
    ensures
        wf_rep(spec_route_member_list(d, q, ms, op, depth)),
    decreases depth, 0int, 2int, ms.len(),
{
    if depth != 0 && ms.len() != 0 {
        lemma_wf_filter_route_set_member(d, q, ms[0], op, (depth - 1) as u32);
        lemma_wf_route_member_list(d, q, ms.drop_first(), op, depth);
    }
}

proof fn lemma_wf_filter_route_set_member(
    d: QueryDump,
    q: IpNet,
    member: crate::set::RouteSetMember,
    op: RangeOperator,
    depth: u32,
)
    ensures
        wf_rep(spec_filter_route_set_member(d, q, member, op, depth)),
    decreases depth, 0int, 4int, 0int,
{
    if depth != 0 {
        match member {
            crate::set::RouteSetMember::NameOp(sub, sub_op) => {
                lemma_wf_filter_route_set(d, q, sub, sub_op, (depth - 1) as u32);
            },
            _ => {},
        }
    }
}

proof fn lemma_wf_filter_as_set(
    d: QueryDump,
    q: IpNet,
    name: String,
    op: RangeOperator,
    depth: u32,
    visited: Seq<AsName>,
)
    ensures
        wf_rep(spec_filter_as_set(d, q, name, op, depth, visited).0),
    decreases depth, 0int, 3int, 0int,
{
    if depth != 0 && d.as_sets@.contains_key(name@) {
        let as_set = d.as_sets@[name@];
        let names = as_set.members@.map_values(|n: u32| AsName::Num(n))
            + as_set.set_members@.map_values(|s2: String| AsName::NamedSet(s2));
        lemma_wf_as_name_list(d, q, names, op, depth, visited);
    }
}

proof fn lemma_wf_as_name_list(
    d: QueryDump,
    q: IpNet,
    names: Seq<AsName>,
    op: RangeOperator,
    depth: u32,
    visited: Seq<AsName>,
)
    ensures
        wf_rep(spec_as_name_list(d, q, names, op, depth, visited).0),
    decreases depth, 0int, 2int, names.len(),
{
    if depth != 0 && names.len() != 0 {
        lemma_wf_filter_as_name(d, q, names[0], op, (depth - 1) as u32, visited);
        let (first, vis1) = spec_filter_as_name(d, q, names[0], op, (depth - 1) as u32, visited);
        lemma_wf_as_name_list(d, q, names.drop_first(), op, depth, vis1);
    }
}

proof fn lemma_wf_filter_as_name(
    d: QueryDump,
    q: IpNet,
    nm: AsName,
    op: RangeOperator,
    depth: u32,
    visited: Seq<AsName>,
)
    ensures
        wf_rep(spec_filter_as_name(d, q, nm, op, depth, visited).0),
    decreases depth, 0int, 4int, 0int,
{
    if !(exists|k: int| 0 <= k < visited.len() && spec_as_name_eq(#[trigger] visited[k], nm))
        && depth != 0 {
        match nm {
            AsName::NamedSet(s2) => {
                lemma_wf_filter_as_set(d, q, s2, op, (depth - 1) as u32, visited.push(nm));
            },
            _ => {},
        }
    }
}

/// Class of a sub-result: success, skip, or full failure.
pub open spec fn rep_class(r: AnyReportView) -> int {
    match r {
        None => 0,
        Some((items, all_fail)) => if all_fail {
            2
        } else {
            1
        },
    }
}

/// Two evaluations related as hardening a skip allows: the same class, or
/// a skip turned into a failure, or a skip resolved into a success.
pub open spec fn skip_hardening(a: AnyReportView, b: AnyReportView) -> bool {
    rep_class(a) == rep_class(b) || (rep_class(a) == 1 && rep_class(b) == 2) || (rep_class(a) == 1
        && rep_class(b) == 0)
}

/// One step of a filter context: the position of a hole as one child of a
/// boolean node.
pub enum FilterCtx {
    AndLeft(Filter),
    AndRight(Filter),
    OrLeft(Filter),
    OrRight(Filter),
    NotHere,
    GroupHere,
}

/// The filter one context step builds around a hole.
pub open spec fn plug_step(step: FilterCtx, hole: Filter) -> Filter {
    match step {
        FilterCtx::AndLeft(r) => Filter::And { left: Box::new(hole), right: Box::new(r) },
        FilterCtx::AndRight(l) => Filter::And { left: Box::new(l), right: Box::new(hole) },
        FilterCtx::OrLeft(r) => Filter::Or { left: Box::new(hole), right: Box::new(r) },
        FilterCtx::OrRight(l) => Filter::Or { left: Box::new(l), right: Box::new(hole) },
        FilterCtx::NotHere => Filter::Not(Box::new(hole)),
        FilterCtx::GroupHere => Filter::Group(Box::new(hole)),
    }
}

/// A filter tree around a hole: the steps from the hole outward.
pub open spec fn plug(ctx: Seq<FilterCtx>, hole: Filter) -> Filter
    decreases ctx.len(),
{
    if ctx.len() == 0 {
        hole
    } else {
        plug_step(ctx.last(), plug(ctx.drop_last(), hole))
    }
}


/// The verdict class of a conjunction, from its sides' classes.
pub open spec fn spec_and_class(x: int, y: int) -> int {
    if x == 2 {
        2
    } else if x == 1 {
        if y == 2 {
            2
        } else {
            1
        }
    } else {
        y
    }
}

/// The verdict class of a disjunction, from its sides' classes.
pub open spec fn spec_or_class(x: int, y: int) -> int {
    if x == 0 || y == 0 {
        0
    } else if x == 2 && y == 2 {
        2
    } else {
        1
    }
}

/// The verdict class of a negation, from its operand's class.
pub open spec fn spec_not_class(x: int) -> int {
    if x == 2 {
        0
    } else if x == 1 {
        1
    } else {
        2
    }
}

proof fn lemma_and_class(d: QueryDump, q: IpNet, l: Filter, r: Filter, dep: u32)
    requires
        dep >= 1,
    ensures
        rep_class(spec_check(d, q, Filter::And { left: Box::new(l), right: Box::new(r) }, dep))
            == spec_and_class(
            rep_class(spec_check(d, q, l, (dep - 1) as u32)),
            rep_class(spec_check(d, q, r, dep)),
        ),
{
    lemma_wf_check(d, q, l, (dep - 1) as u32);
    lemma_wf_check(d, q, r, dep);
    let a = spec_check(d, q, l, (dep - 1) as u32);
    let b = spec_check(d, q, r, dep);
    let whole = spec_filter_and(d, q, l, r, dep);
    match (a, b) {
        (None, None) => {
            assert(whole == Ok::<Seq<ReportItem>, Seq<ReportItem>>(
                Seq::<ReportItem>::empty() + Seq::<ReportItem>::empty(),
            ));
            assert((Seq::<ReportItem>::empty() + Seq::<ReportItem>::empty()).len() == 0);
        },
        (None, Some((ib, bf))) => {
            if bf {
                assert(whole == Err::<Seq<ReportItem>, Seq<ReportItem>>(
                    Seq::<ReportItem>::empty() + ib,
                ));
            } else {
                assert(whole == Ok::<Seq<ReportItem>, Seq<ReportItem>>(
                    Seq::<ReportItem>::empty() + ib,
                ));
                assert((Seq::<ReportItem>::empty() + ib).len() == ib.len());
            }
        },
        (Some((ia, af)), None) => {
            if !af {
                assert(whole == Ok::<Seq<ReportItem>, Seq<ReportItem>>(
                    ia + Seq::<ReportItem>::empty(),
                ));
                assert((ia + Seq::<ReportItem>::empty()).len() == ia.len());
            }
        },
        (Some((ia, af)), Some((ib, bf))) => {
            if !af {
                if bf {
                    assert(whole == Err::<Seq<ReportItem>, Seq<ReportItem>>(ia + ib));
                } else {
                    assert(whole == Ok::<Seq<ReportItem>, Seq<ReportItem>>(ia + ib));
                    assert((ia + ib).len() == ia.len() + ib.len());
                }
            }
        },
    }
}

proof fn lemma_or_class(d: QueryDump, q: IpNet, l: Filter, r: Filter, dep: u32)
    requires
        dep >= 1,
    ensures
        rep_class(spec_check(d, q, Filter::Or { left: Box::new(l), right: Box::new(r) }, dep))
            == spec_or_class(
            rep_class(spec_check(d, q, l, (dep - 1) as u32)),
            rep_class(spec_check(d, q, r, dep)),
        ),
{
    let a = spec_check(d, q, l, (dep - 1) as u32);
    let b = spec_check(d, q, r, dep);
    match (a, b) {
        (Some((ia, af)), Some((ib, bf))) => {
            assert(spec_filter_or(d, q, l, r, dep) == Some((ia + ib, af && bf)));
        },
        _ => {},
    }
}

proof fn lemma_not_class(d: QueryDump, q: IpNet, inner: Filter, dep: u32)
    requires
        dep >= 1,
    ensures
        rep_class(spec_check(d, q, Filter::Not(Box::new(inner)), dep)) == spec_not_class(
            rep_class(spec_check(d, q, inner, dep)),
        ),
{
    match spec_check(d, q, inner, dep) {
        Some((items, all_fail)) => {
            if !all_fail {
                assert(spec_filter_not(d, q, inner, dep) == Some(
                    (items.push(ReportItem::Skip(SkipReason::SkippedNotFilterResult)), false),
                ));
            }
        },
        None => {},
    }
}

/// One context step preserves the hardening relation between two
/// evaluations of the filled tree, at every depth.
proof fn lemma_skip_hardening_step(d: QueryDump, q: IpNet, step: FilterCtx, f1: Filter, f2: Filter)
    requires
        forall|dep: u32|
            skip_hardening(spec_check(d, q, f1, dep), #[trigger] spec_check(d, q, f2, dep)),
    ensures
        forall|dep: u32|
            skip_hardening(
                spec_check(d, q, plug_step(step, f1), dep),
                #[trigger] spec_check(d, q, plug_step(step, f2), dep),
            ),
{
    assert forall|dep: u32|
        skip_hardening(
            spec_check(d, q, plug_step(step, f1), dep),
            #[trigger] spec_check(d, q, plug_step(step, f2), dep),
        ) by {
        if dep > 0 {
            match step {
                FilterCtx::AndLeft(r) => {
                    assert(skip_hardening(
                        spec_check(d, q, f1, (dep - 1) as u32),
                        spec_check(d, q, f2, (dep - 1) as u32),
                    ));
                    lemma_and_class(d, q, f1, r, dep);
                    lemma_and_class(d, q, f2, r, dep);
                },
                FilterCtx::AndRight(l) => {
                    assert(skip_hardening(spec_check(d, q, f1, dep), spec_check(d, q, f2, dep)));
                    lemma_and_class(d, q, l, f1, dep);
                    lemma_and_class(d, q, l, f2, dep);
                },
                FilterCtx::OrLeft(r) => {
                    assert(skip_hardening(
                        spec_check(d, q, f1, (dep - 1) as u32),
                        spec_check(d, q, f2, (dep - 1) as u32),
                    ));
                    lemma_or_class(d, q, f1, r, dep);
                    lemma_or_class(d, q, f2, r, dep);
                },
                FilterCtx::OrRight(l) => {
                    assert(skip_hardening(spec_check(d, q, f1, dep), spec_check(d, q, f2, dep)));
                    lemma_or_class(d, q, l, f1, dep);
                    lemma_or_class(d, q, l, f2, dep);
                },
                FilterCtx::NotHere => {
                    assert(skip_hardening(spec_check(d, q, f1, dep), spec_check(d, q, f2, dep)));
                    lemma_not_class(d, q, f1, dep);
                    lemma_not_class(d, q, f2, dep);
                },
                FilterCtx::GroupHere => {
                    assert(skip_hardening(spec_check(d, q, f1, dep), spec_check(d, q, f2, dep)));
                },
            }
        }
    }
}

/// Hardening one sub-filter's report from a skip into a failure, at any
/// position of the surrounding boolean tree, keeps the whole tree's
/// verdict in the hardening relation: a bad verdict never becomes good,
/// and a good verdict never becomes neutral.
pub proof fn lemma_skip_to_no_match_tree(
    d: QueryDump,
    q: IpNet,
    ctx: Seq<FilterCtx>,
    f1: Filter,
    f2: Filter,
    depth: u32,
)
    requires
        forall|dep: u32|
            skip_hardening(spec_check(d, q, f1, dep), #[trigger] spec_check(d, q, f2, dep)),
    ensures
        skip_hardening(spec_check(d, q, plug(ctx, f1), depth), spec_check(d, q, plug(ctx, f2), depth)),
        spec_check(d, q, plug(ctx, f1), depth) matches Some((_, true)) ==> !(spec_check(
            d,
            q,
            plug(ctx, f2),
            depth,
        ) is None),
        spec_check(d, q, plug(ctx, f1), depth) is None ==> !(spec_check(
            d,
            q,
            plug(ctx, f2),
            depth,
        ) matches Some((_, false))),
    decreases ctx.len(),
{
    if ctx.len() == 0 {
        assert(skip_hardening(spec_check(d, q, f1, depth), spec_check(d, q, f2, depth)));
    } else {
        assert forall|dep: u32|
            skip_hardening(
                spec_check(d, q, plug(ctx.drop_last(), f1), dep),
                #[trigger] spec_check(d, q, plug(ctx.drop_last(), f2), dep),
            ) by {
            lemma_skip_to_no_match_tree(d, q, ctx.drop_last(), f1, f2, dep);
        }
        lemma_skip_hardening_step(
            d,
            q,
            ctx.last(),
            plug(ctx.drop_last(), f1),
            plug(ctx.drop_last(), f2),
        );
    }
}

/// Negation never turns an inconclusive result into a match: where the
/// inner filter yields a skip, `Not` of it yields a skip as well.
pub proof fn lemma_not_preserves_skip(d: QueryDump, q: IpNet, inner: Filter, depth: u32)
    requires
        depth >= 1,
        spec_check(d, q, inner, depth) matches Some((_, false)),
    ensures
        spec_filter_not(d, q, inner, depth) matches Some((_, false)),
{
}

} // verus!
