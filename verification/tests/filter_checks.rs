use route_policy_cmp::aut_sys::AsName;
use route_policy_cmp::cmp::{Compare, Verbosity};
use route_policy_cmp::filter::{CheckFilter, Filter};
use route_policy_cmp::ip::{AddrPfxRange, IpFamily, IpNet, RangeOperator};
use route_policy_cmp::query::QueryDump;
use route_policy_cmp::report::{MatchProblem, RecurSrc, ReportItem, SkipReason};
use route_policy_cmp::set::AsSet;
use route_policy_cmp::vecmap::{NameMap, NumMap};

fn v4(a: u8, b: u8, c: u8, d: u8, len: u8) -> IpNet {
    let addr = ((a as u128) << 24) | ((b as u128) << 16) | ((c as u128) << 8) | (d as u128);
    IpNet {
        family: IpFamily::V4,
        addr,
        len,
    }
}

fn empty_dump() -> QueryDump {
    QueryDump {
        aut_nums: NumMap::new(),
        as_sets: NameMap::new(),
        route_sets: NameMap::new(),
        peering_sets: NameMap::new(),
        filter_sets: NameMap::new(),
        as_routes: NumMap::new(),
        as_set_routes: NameMap::new(),
    }
}

fn observation(prefix: IpNet) -> Compare {
    Compare {
        verbosity: Verbosity {
            stop_at_first: false,
            show_skips: true,
            show_success: true,
        },
        prefix,
        as_path: Vec::new(),
    }
}

#[test]
fn prefix_set_inclusive_range_matches_more_specific() {
    // AddrPrefixSet[10.0.0.0/8^+] against 10.1.2.0/24 is a match.
    let dump = empty_dump();
    let compare = observation(v4(10, 1, 2, 0, 24));
    let checker = CheckFilter {
        dump: &dump,
        compare: &compare,
        accept_num: 0,
    };
    let filter = Filter::AddrPrefixSet(vec![AddrPfxRange {
        address_prefix: v4(10, 0, 0, 0, 8),
        range_operator: RangeOperator::LenRange(0, 128),
    }]);
    assert_eq!(checker.check(&filter, 32), None);
}

#[test]
fn as_num_no_op_requires_exact_prefix() {
    // AsNum(64500, NoOp) with as_routes[64500] = [10.0.0.0/8] does not
    // accept 10.1.0.0/16: NoOp demands exact equality.
    let mut dump = empty_dump();
    dump.as_routes.insert(64500, vec![v4(10, 0, 0, 0, 8)]);
    let compare = observation(v4(10, 1, 0, 0, 16));
    let checker = CheckFilter {
        dump: &dump,
        compare: &compare,
        accept_num: 0,
    };
    let filter = Filter::AsNum(64500, RangeOperator::NoOp);
    let (items, all_fail) = checker.check(&filter, 32).expect("a mismatch report");
    assert!(all_fail);
    assert_eq!(
        items,
        vec![ReportItem::NoMatch(MatchProblem::FilterAsNum(
            64500,
            RangeOperator::NoOp
        ))]
    );
}

fn cyclic_dump() -> QueryDump {
    let mut dump = empty_dump();
    dump.as_sets.insert(
        "AS-FOO".to_string(),
        AsSet::new("".to_string(), vec![], vec!["AS-BAR".to_string()]),
    );
    dump.as_sets.insert(
        "AS-BAR".to_string(),
        AsSet::new(
            "".to_string(),
            vec![64501],
            vec!["AS-FOO".to_string()],
        ),
    );
    dump.as_routes.insert(64501, vec![v4(192, 0, 2, 0, 24)]);
    dump
}

#[test]
fn cyclic_as_set_matches_at_depth_eight() {
    let dump = cyclic_dump();
    let compare = observation(v4(192, 0, 2, 0, 24));
    let checker = CheckFilter {
        dump: &dump,
        compare: &compare,
        accept_num: 0,
    };
    let filter = Filter::AsSet("AS-FOO".to_string(), RangeOperator::NoOp);
    assert_eq!(checker.check(&filter, 8), None);
}

#[test]
fn cyclic_as_set_skips_at_depth_one() {
    let dump = cyclic_dump();
    let compare = observation(v4(192, 0, 2, 0, 24));
    let checker = CheckFilter {
        dump: &dump,
        compare: &compare,
        accept_num: 0,
    };
    let filter = Filter::AsSet("AS-FOO".to_string(), RangeOperator::NoOp);
    let (items, all_fail) = checker.check(&filter, 1).expect("a recursion skip");
    assert!(!all_fail);
    assert_eq!(
        items,
        vec![ReportItem::Recursion(RecurSrc::FilterAsName(
            AsName::NamedSet("AS-BAR".to_string())
        ))]
    );
}

#[test]
fn not_of_unrecorded_as_keeps_the_skip() {
    // Not(AsNum(64500, NoOp)) with as_routes[64500] unrecorded carries the
    // skip and one more skip item, and is neutral, not bad.
    let dump = empty_dump();
    let compare = observation(v4(10, 0, 0, 0, 8));
    let checker = CheckFilter {
        dump: &dump,
        compare: &compare,
        accept_num: 0,
    };
    let filter = Filter::Not(Box::new(Filter::AsNum(64500, RangeOperator::NoOp)));
    let (items, all_fail) = checker.check(&filter, 32).expect("a skip report");
    assert!(!all_fail);
    assert_eq!(
        items,
        vec![
            ReportItem::Skip(SkipReason::AsRoutesUnrecorded(64500)),
            ReportItem::Skip(SkipReason::SkippedNotFilterResult),
        ]
    );
}

#[test]
fn any_filter_always_matches() {
    let dump = empty_dump();
    let compare = observation(v4(10, 0, 0, 0, 8));
    let checker = CheckFilter {
        dump: &dump,
        compare: &compare,
        accept_num: 0,
    };
    assert_eq!(checker.check(&Filter::Any, 32), None);
}

#[test]
fn invalid_filter_reports_bad_rpsl() {
    let dump = empty_dump();
    let compare = observation(v4(10, 0, 0, 0, 8));
    let checker = CheckFilter {
        dump: &dump,
        compare: &compare,
        accept_num: 0,
    };
    let filter = Filter::Invalid("nonsense".to_string());
    let (items, all_fail) = checker.check(&filter, 32).expect("a bad-rpsl report");
    assert!(all_fail);
    assert_eq!(items.len(), 1);
    assert!(matches!(
        items[0],
        ReportItem::BadRpsl(route_policy_cmp::report::RpslError::InvalidFilter(_))
    ));
}

#[test]
fn unimplemented_features_skip() {
    let dump = empty_dump();
    let compare = observation(v4(10, 0, 0, 0, 8));
    let checker = CheckFilter {
        dump: &dump,
        compare: &compare,
        accept_num: 0,
    };
    let regex = Filter::AsPathRE("AS1+".to_string());
    let (items, all_fail) = checker.check(&regex, 32).expect("a skip");
    assert!(!all_fail);
    assert_eq!(
        items,
        vec![ReportItem::Skip(SkipReason::AsRegexUnimplemented(
            "AS1+".to_string()
        ))]
    );
    let set = Filter::FilterSet("fltr-unknown".to_string());
    let (items, all_fail) = checker.check(&set, 32).expect("a skip");
    assert!(!all_fail);
    assert_eq!(
        items,
        vec![ReportItem::Skip(SkipReason::FilterSetUnrecorded(
            "fltr-unknown".to_string()
        ))]
    );
    let route_set = Filter::RouteSet("rs-unknown".to_string(), RangeOperator::NoOp);
    let (items, all_fail) = checker.check(&route_set, 32).expect("a skip");
    assert!(!all_fail);
    assert_eq!(
        items,
        vec![ReportItem::Skip(SkipReason::RouteSetUnrecorded(
            "rs-unknown".to_string()
        ))]
    );
}

#[test]
fn depth_zero_cuts_off_immediately() {
    let dump = empty_dump();
    let compare = observation(v4(10, 0, 0, 0, 8));
    let checker = CheckFilter {
        dump: &dump,
        compare: &compare,
        accept_num: 0,
    };
    let (items, all_fail) = checker.check(&Filter::Any, 0).expect("a recursion skip");
    assert!(!all_fail);
    assert_eq!(items, vec![ReportItem::Recursion(RecurSrc::CheckFilter)]);
}

#[test]
fn or_matches_when_either_side_matches() {
    let mut dump = empty_dump();
    dump.as_routes.insert(64500, vec![v4(10, 0, 0, 0, 8)]);
    let compare = observation(v4(10, 0, 0, 0, 8));
    let checker = CheckFilter {
        dump: &dump,
        compare: &compare,
        accept_num: 0,
    };
    let filter = Filter::Or {
        left: Box::new(Filter::Invalid("broken".to_string())),
        right: Box::new(Filter::AsNum(64500, RangeOperator::NoOp)),
    };
    assert_eq!(checker.check(&filter, 32), None);
}

#[test]
fn and_fails_when_one_side_fails() {
    let mut dump = empty_dump();
    dump.as_routes.insert(64500, vec![v4(10, 0, 0, 0, 8)]);
    let compare = observation(v4(10, 0, 0, 0, 8));
    let checker = CheckFilter {
        dump: &dump,
        compare: &compare,
        accept_num: 0,
    };
    let filter = Filter::And {
        left: Box::new(Filter::AsNum(64500, RangeOperator::NoOp)),
        right: Box::new(Filter::AsNum(64500, RangeOperator::MoreSpecific)),
    };
    let (_, all_fail) = checker.check(&filter, 32).expect("a failure");
    assert!(all_fail);
}
