use dashmap::DashMap;
use route_policy_cmp::aut_num::{AutNum, Casts, Entry, Versions};
use route_policy_cmp::aut_sys::AsName;
use route_policy_cmp::cmp::{Compare, Verbosity};
use route_policy_cmp::filter::Filter;
use route_policy_cmp::ip::{IpFamily, IpNet};
use route_policy_cmp::peering::{AsExpr, Peering, PeeringAction};
use route_policy_cmp::query::QueryDump;
use route_policy_cmp::report::{MatchProblem, Report, ReportItem, SkipReason};
use route_policy_cmp::stats::stats_map_get;
use route_policy_cmp::vecmap::{NameMap, NumMap};

fn v4(a: u8, b: u8, c: u8, d: u8, len: u8) -> IpNet {
    let addr = ((a as u128) << 24) | ((b as u128) << 16) | ((c as u128) << 8) | (d as u128);
    IpNet {
        family: IpFamily::V4,
        addr,
        len,
    }
}

fn empty_dump() -> QueryDump {
    QueryDump {
        aut_nums: NumMap::new(),
        as_sets: NameMap::new(),
        route_sets: NameMap::new(),
        peering_sets: NameMap::new(),
        filter_sets: NameMap::new(),
        as_routes: NumMap::new(),
        as_set_routes: NameMap::new(),
    }
}

fn talkative() -> Verbosity {
    Verbosity {
        stop_at_first: false,
        show_skips: true,
        show_success: true,
    }
}

#[test]
fn three_hop_path_yields_three_attributable_verdicts() {
    // Path [64500, 64501, 64502] advertising 10.0.0.0/8 with no aut-num
    // recorded: one export by 64500 to 64501, one verdict for 64501, one
    // import by 64502, each attributed to the right AS in the statistics.
    let dump = empty_dump();
    let mut compare = Compare {
        verbosity: talkative(),
        prefix: v4(10, 0, 0, 0, 8),
        as_path: vec![64500, 64501, 64502],
    };
    let reports = compare.check(&dump);
    assert_eq!(reports.len(), 3);
    assert!(matches!(
        reports[0],
        Report::NeutralExport {
            from: 64500,
            to: 64501,
            ..
        }
    ));
    assert!(matches!(
        reports[1],
        Report::NeutralImport {
            from: 64500,
            to: 64501,
            ..
        }
    ));
    assert!(matches!(
        reports[2],
        Report::NeutralImport {
            from: 64501,
            to: 64502,
            ..
        }
    ));

    let mut map: DashMap<u32, route_policy_cmp::stats::AsStats> = DashMap::new();
    compare.as_stats(&dump, &mut map);
    let s0 = stats_map_get(&map, 64500).expect("stats for 64500");
    assert_eq!(s0.export_skip, 1);
    assert_eq!(s0.import_skip, 0);
    let s1 = stats_map_get(&map, 64501).expect("stats for 64501");
    assert_eq!(s1.import_skip, 1);
    let s2 = stats_map_get(&map, 64502).expect("stats for 64502");
    assert_eq!(s2.import_skip, 1);
}

#[test]
fn missing_aut_num_surfaces_as_a_named_skip() {
    let dump = empty_dump();
    let compare = Compare {
        verbosity: talkative(),
        prefix: v4(10, 0, 0, 0, 8),
        as_path: vec![64500, 64501],
    };
    let reports = compare.check(&dump);
    assert_eq!(reports.len(), 2);
    match &reports[0] {
        Report::NeutralExport { from, to, items } => {
            assert_eq!((*from, *to), (64500, 64501));
            assert_eq!(
                items,
                &vec![ReportItem::Skip(SkipReason::AutNumUnrecorded(64500))]
            );
        }
        other => panic!("unexpected verdict {:?}", other),
    }
}

fn export_only_aut_num(neighbor: u32, filter: Filter) -> AutNum {
    let entry = Entry {
        mp_peerings: vec![PeeringAction {
            mp_peering: Peering {
                remote_as: AsExpr::Single(AsName::Num(neighbor)),
                remote_router: None,
                local_router: None,
            },
            actions: vec![],
        }],
        mp_filter: filter,
    };
    AutNum {
        body: String::new(),
        errors: vec![],
        imports: empty_versions(),
        exports: Versions {
            any: Casts {
                any: vec![entry],
                unicast: vec![],
                multicast: vec![],
            },
            ipv4: empty_casts(),
            ipv6: empty_casts(),
        },
    }
}

fn empty_casts() -> Casts {
    Casts {
        any: vec![],
        unicast: vec![],
        multicast: vec![],
    }
}

fn empty_versions() -> Versions {
    Versions {
        any: empty_casts(),
        ipv4: empty_casts(),
        ipv6: empty_casts(),
    }
}

#[test]
fn matching_export_policy_is_good() {
    let mut dump = empty_dump();
    dump.aut_nums
        .insert(64500, export_only_aut_num(64501, Filter::Any));
    let compare = Compare {
        verbosity: talkative(),
        prefix: v4(10, 0, 0, 0, 8),
        as_path: vec![64500, 64501],
    };
    let reports = compare.check(&dump);
    assert!(matches!(
        reports[0],
        Report::GoodExport {
            from: 64500,
            to: 64501
        }
    ));
}

#[test]
fn unmatched_neighbor_is_a_no_neighbor_violation() {
    let mut dump = empty_dump();
    dump.aut_nums
        .insert(64500, export_only_aut_num(65000, Filter::Any));
    let compare = Compare {
        verbosity: talkative(),
        prefix: v4(10, 0, 0, 0, 8),
        as_path: vec![64500, 64501],
    };
    let reports = compare.check(&dump);
    match &reports[0] {
        Report::BadExport { from, to, items } => {
            assert_eq!((*from, *to), (64500, 64501));
            assert_eq!(
                items,
                &vec![ReportItem::NoMatch(MatchProblem::NoNeighbor(64501))]
            );
        }
        other => panic!("unexpected verdict {:?}", other),
    }
}

#[test]
fn stop_at_first_cuts_the_batch_at_a_bad_verdict() {
    let mut dump = empty_dump();
    dump.aut_nums
        .insert(64500, export_only_aut_num(65000, Filter::Any));
    let compare = Compare {
        verbosity: Verbosity {
            stop_at_first: true,
            show_skips: true,
            show_success: true,
        },
        prefix: v4(10, 0, 0, 0, 8),
        as_path: vec![64500, 64501],
    };
    let reports = compare.check(&dump);
    assert_eq!(reports.len(), 1);
    assert!(matches!(reports[0], Report::BadExport { .. }));
}

#[test]
fn single_as_path_uses_the_single_export_verdicts() {
    let dump = empty_dump();
    let compare = Compare {
        verbosity: talkative(),
        prefix: v4(10, 0, 0, 0, 8),
        as_path: vec![64500],
    };
    let reports = compare.check(&dump);
    assert_eq!(reports.len(), 1);
    assert!(matches!(
        reports[0],
        Report::NeutralSingleExport { from: 64500, .. }
    ));
}

#[test]
fn good_verdicts_are_hidden_unless_asked_for() {
    let mut dump = empty_dump();
    dump.aut_nums
        .insert(64500, export_only_aut_num(64501, Filter::Any));
    let compare = Compare {
        verbosity: Verbosity {
            stop_at_first: false,
            show_skips: true,
            show_success: false,
        },
        prefix: v4(10, 0, 0, 0, 8),
        as_path: vec![64500],
    };
    // The origin's export filter matches, so the verdict is good, and good
    // verdicts are not emitted here.
    let reports = compare.check(&dump);
    assert_eq!(reports.len(), 0);
}

#[test]
fn line_check_stores_the_reports() {
    let raw = "T,1,B,198.51.100.1,64496,10.0.0.0/8,64500 64501,IGP".to_string();
    let mut line = route_policy_cmp::wrapper::Line::from_raw(raw).expect("a line");
    line.compare.verbosity = talkative();
    let dump = empty_dump();
    line.check(&dump);
    let reports = line.report.as_ref().expect("stored reports");
    assert_eq!(reports.len(), 2);
    assert!(matches!(
        reports[0],
        Report::NeutralExport {
            from: 64501,
            to: 64500,
            ..
        }
    ));
}

#[test]
fn import_policy_checks_the_origin_routes() {
    let mut dump = empty_dump();
    dump.as_routes.insert(64500, vec![v4(10, 0, 0, 0, 8)]);
    let import_entry = Entry {
        mp_peerings: vec![PeeringAction {
            mp_peering: Peering {
                remote_as: AsExpr::Single(AsName::Num(64500)),
                remote_router: None,
                local_router: None,
            },
            actions: vec![],
        }],
        mp_filter: Filter::AsNum(64500, route_policy_cmp::ip::RangeOperator::NoOp),
    };
    dump.aut_nums.insert(
        64501,
        AutNum {
            body: String::new(),
            errors: vec![],
            imports: Versions {
                any: Casts {
                    any: vec![import_entry],
                    unicast: vec![],
                    multicast: vec![],
                },
                ipv4: empty_casts(),
                ipv6: empty_casts(),
            },
            exports: empty_versions(),
        },
    );
    let compare = Compare {
        verbosity: talkative(),
        prefix: v4(10, 0, 0, 0, 8),
        as_path: vec![64500, 64501],
    };
    let reports = compare.check(&dump);
    assert_eq!(reports.len(), 2);
    assert!(matches!(
        reports[1],
        Report::GoodImport {
            from: 64500,
            to: 64501
        }
    ));
    // The same policy against a prefix the origin never registered is a
    // violation on the import side.
    let other = Compare {
        verbosity: talkative(),
        prefix: v4(192, 0, 2, 0, 24),
        as_path: vec![64500, 64501],
    };
    let reports = other.check(&dump);
    assert!(matches!(reports[1], Report::BadImport { .. }));
}
