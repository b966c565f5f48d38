use route_policy_cmp::ip::{AddrPfxRange, IpFamily, IpNet, RangeOperator};
use route_policy_cmp::report::{
    all_to_any, any_to_all, failed_any_report, no_match_any_report, skip_any_report,
    AnyReportAggregator, MatchProblem, ReportItem, SkipReason,
};
use route_policy_cmp::sort::{dedup_sorted_ips, dedup_sorted_u32s, sort_ips, sort_u32s};

fn v4(a: u8, b: u8, c: u8, d: u8, len: u8) -> IpNet {
    let addr = ((a as u128) << 24) | ((b as u128) << 16) | ((c as u128) << 8) | (d as u128);
    IpNet {
        family: IpFamily::V4,
        addr,
        len,
    }
}

#[test]
fn aggregator_unions_items_and_conjoins_failure() {
    let mut agg = AnyReportAggregator::new();
    assert!(agg.all_fail);
    let (skip_items, skip_fail) = skip_any_report(SkipReason::AsRoutesUnrecorded(1)).unwrap();
    agg.join((skip_items, skip_fail));
    let (fail_items, fail_fail) = no_match_any_report(MatchProblem::FilterPrefixes).unwrap();
    agg.join((fail_items, fail_fail));
    let (items, all_fail) = agg.to_any().unwrap();
    assert!(!all_fail);
    assert_eq!(items.len(), 2);
}

#[test]
fn widening_a_skip_to_a_failure_never_turns_bad_into_good() {
    // One branch is a skip beside a failing branch: the aggregate is
    // neutral. Hardening the skip into a failure makes the aggregate bad;
    // it cannot become good.
    let mut neutral = AnyReportAggregator::new();
    neutral.join(skip_any_report(SkipReason::AsRoutesUnrecorded(1)).unwrap());
    neutral.join(failed_any_report().unwrap());
    let (_, neutral_fail) = neutral.to_any().unwrap();
    assert!(!neutral_fail);

    let mut hardened = AnyReportAggregator::new();
    hardened.join(no_match_any_report(MatchProblem::FilterPrefixes).unwrap());
    hardened.join(failed_any_report().unwrap());
    let (_, hardened_fail) = hardened.to_any().unwrap();
    assert!(hardened_fail);
}

#[test]
fn conjunctive_and_disjunctive_readings_round_trip() {
    assert_eq!(any_to_all(None), Ok(vec![]));
    assert_eq!(all_to_any(Ok(vec![])), None);
    let as_all = any_to_all(skip_any_report(SkipReason::RouterExprUnimplemented));
    assert_eq!(
        as_all,
        Ok(vec![ReportItem::Skip(SkipReason::RouterExprUnimplemented)])
    );
    assert_eq!(
        all_to_any(as_all),
        skip_any_report(SkipReason::RouterExprUnimplemented)
    );
    let bad = no_match_any_report(MatchProblem::NotFilterMatch);
    assert_eq!(
        any_to_all(bad),
        Err(vec![ReportItem::NoMatch(MatchProblem::NotFilterMatch)])
    );
}

#[test]
fn widening_the_operator_keeps_accepted_prefixes() {
    // The range predicate is monotone: what NoOp accepts, the inclusive
    // range operator accepts too.
    let base = v4(10, 0, 0, 0, 8);
    let exact = AddrPfxRange {
        address_prefix: base,
        range_operator: RangeOperator::NoOp,
    };
    let incl = AddrPfxRange {
        address_prefix: base,
        range_operator: RangeOperator::LessSpecificIncl,
    };
    assert!(exact.contains(&base));
    assert!(incl.contains(&base));
    let narrow = AddrPfxRange {
        address_prefix: base,
        range_operator: RangeOperator::LenExact(8),
    };
    let window = AddrPfxRange {
        address_prefix: base,
        range_operator: RangeOperator::LenRange(6, 10),
    };
    assert!(narrow.contains(&base));
    assert!(window.contains(&base));
}

#[test]
fn range_predicate_cases() {
    let base = v4(10, 0, 0, 0, 8);
    let sub = v4(10, 1, 2, 0, 24);
    let outside = v4(11, 0, 0, 0, 24);
    let more = AddrPfxRange {
        address_prefix: base,
        range_operator: RangeOperator::MoreSpecific,
    };
    assert!(more.contains(&sub));
    assert!(!more.contains(&base));
    assert!(!more.contains(&outside));
    let len_window = AddrPfxRange {
        address_prefix: base,
        range_operator: RangeOperator::LenRange(16, 24),
    };
    assert!(len_window.contains(&sub));
    assert!(!len_window.contains(&v4(10, 1, 2, 0, 25)));
    let less = AddrPfxRange {
        address_prefix: sub,
        range_operator: RangeOperator::LessSpecific,
    };
    assert!(less.contains(&base));
    assert!(!less.contains(&sub));
    let v6 = IpNet {
        family: IpFamily::V6,
        addr: 0x2001_0db8 << 96,
        len: 32,
    };
    let v6_range = AddrPfxRange {
        address_prefix: v6,
        range_operator: RangeOperator::MoreSpecific,
    };
    assert!(!v6_range.contains(&sub));
}

#[test]
fn sorting_is_by_family_address_and_length() {
    let a = v4(10, 0, 0, 0, 8);
    let b = v4(10, 0, 0, 0, 16);
    let c = v4(9, 9, 9, 9, 32);
    let v6 = IpNet {
        family: IpFamily::V6,
        addr: 1,
        len: 128,
    };
    let sorted = sort_ips(vec![v6, b, a, c, a]);
    assert_eq!(sorted, vec![c, a, a, b, v6]);
    let deduped = dedup_sorted_ips(sorted);
    assert_eq!(deduped, vec![c, a, b, v6]);
    let nums = dedup_sorted_u32s(sort_u32s(vec![5, 1, 5, 3]));
    assert_eq!(nums, vec![1, 3, 5]);
}
