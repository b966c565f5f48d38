use route_policy_cmp::aut_sys::{parse_as_name, to_uppercase_name, AsName};
use route_policy_cmp::cmp::Compare;
use route_policy_cmp::ip::{parse_ip_net, parse_range_operator, IpFamily, IpNet, RangeOperator};
use route_policy_cmp::lex;
use route_policy_cmp::peering::{is_peering_set, parse_mp_peerings, parse_single_as_expr, AsExpr};
use route_policy_cmp::set::{
    is_route_set_name, parse_route_set_member, try_parse_name_operator, RouteSetMember,
};
use route_policy_cmp::wrapper::{pack_lines, Line};

#[test]
fn parse_ipv4_prefix() {
    let net = parse_ip_net("10.0.0.0/8").expect("a v4 prefix");
    assert_eq!(
        net,
        IpNet {
            family: IpFamily::V4,
            addr: 0x0a000000,
            len: 8
        }
    );
    assert!(parse_ip_net("10.0.0/8").is_none());
    assert!(parse_ip_net("10.0.0.0/33").is_none());
    assert!(parse_ip_net("10.0.0.256/8").is_none());
    assert!(parse_ip_net("10.0.0.0").is_none());
}

#[test]
fn parse_ipv6_prefix() {
    let net = parse_ip_net("2001:db8::1/128").expect("a v6 prefix");
    assert_eq!(net.family, IpFamily::V6);
    assert_eq!(net.addr, 0x2001_0db8_0000_0000_0000_0000_0000_0001);
    assert_eq!(net.len, 128);
    let all = parse_ip_net("::/0").expect("the empty prefix");
    assert_eq!(all.addr, 0);
    assert_eq!(all.len, 0);
    let full = parse_ip_net("1:2:3:4:5:6:7:8/64").expect("eight groups");
    assert_eq!(full.addr, 0x0001_0002_0003_0004_0005_0006_0007_0008);
    assert!(parse_ip_net("1:2:3/64").is_none());
    assert!(parse_ip_net("2001:db8::1/129").is_none());
    assert!(parse_ip_net("1::2::3/64").is_none());
}

#[test]
fn parse_range_operators() {
    assert_eq!(
        parse_range_operator("^-"),
        Some(RangeOperator::MoreSpecific)
    );
    assert_eq!(
        parse_range_operator("^+"),
        Some(RangeOperator::LenRange(0, 128))
    );
    assert_eq!(parse_range_operator("^24"), Some(RangeOperator::LenExact(24)));
    assert_eq!(
        parse_range_operator("^12-24"),
        Some(RangeOperator::LenRange(12, 24))
    );
    assert_eq!(parse_range_operator("^200"), None);
    assert_eq!(parse_range_operator("24"), None);
    assert_eq!(parse_range_operator("^"), None);
    assert_eq!(parse_range_operator("^12-"), None);
}

#[test]
fn as_names_parse_and_canonicalize() {
    assert_eq!(parse_as_name("AS64500".to_string()), AsName::Num(64500));
    assert_eq!(parse_as_name("as64500".to_string()), AsName::Num(64500));
    assert_eq!(
        parse_as_name("as-foo".to_string()),
        AsName::NamedSet("AS-FOO".to_string())
    );
    assert_eq!(
        parse_as_name("AS99999999999".to_string()),
        AsName::Invalid("AS99999999999".to_string())
    );
    assert_eq!(to_uppercase_name("rs-Bar"), "RS-BAR".to_string());
}

#[test]
fn set_name_forms() {
    assert!(is_peering_set("prng-foo"));
    assert!(is_peering_set("PRNG-FOO"));
    assert!(is_peering_set("AS64500:prng-x"));
    assert!(!is_peering_set("prng-"));
    assert!(!is_peering_set("prng foo"));
    assert!(!is_peering_set("AS:prng-x"));
    assert!(is_route_set_name("rs-bar"));
    assert!(is_route_set_name("AS1:rs-bar"));
    assert!(!is_route_set_name("rso-bar"));
}

#[test]
fn name_operator_split() {
    let (name, op) = try_parse_name_operator("rs-foo^+").expect("a split");
    assert_eq!(name, "rs-foo");
    assert_eq!(op, RangeOperator::LenRange(0, 128));
    let (name, op) = try_parse_name_operator("rs-a^12-24").expect("a split");
    assert_eq!(name, "rs-a");
    assert_eq!(op, RangeOperator::LenRange(12, 24));
    assert!(try_parse_name_operator("rs-foo").is_none());
    assert!(try_parse_name_operator("^8").is_none());
    // Text after the operator characters is ignored, as an unanchored
    // search reads it.
    let (name, op) = try_parse_name_operator("name^2xyz").expect("a split");
    assert_eq!(name, "name");
    assert_eq!(op, RangeOperator::LenExact(2));
    // The stem is a non-space run; an earlier run without an operator is
    // passed over.
    let (name, op) = try_parse_name_operator("a b^2").expect("a split");
    assert_eq!(name, "b");
    assert_eq!(op, RangeOperator::LenExact(2));
    // The last operator-starting caret of the run splits it.
    let (name, op) = try_parse_name_operator("rs-x^2^3").expect("a split");
    assert_eq!(name, "rs-x^2");
    assert_eq!(op, RangeOperator::LenExact(3));
}

#[test]
fn route_set_members_dispatch() {
    match parse_route_set_member("10.0.0.0/8^+".to_string()) {
        RouteSetMember::Range(range) => {
            assert_eq!(
                range.address_prefix,
                IpNet {
                    family: IpFamily::V4,
                    addr: 0x0a000000,
                    len: 8
                }
            );
            assert_eq!(range.range_operator, RangeOperator::LenRange(0, 128));
        }
        other => panic!("unexpected {:?}", other),
    }
    match parse_route_set_member("192.0.2.0/24".to_string()) {
        RouteSetMember::Range(range) => {
            assert_eq!(range.range_operator, RangeOperator::NoOp);
        }
        other => panic!("unexpected {:?}", other),
    }
    assert_eq!(
        parse_route_set_member("rs-foo^24".to_string()),
        RouteSetMember::NameOp("rs-foo".to_string(), RangeOperator::LenExact(24))
    );
    assert_eq!(
        parse_route_set_member("rs-bar".to_string()),
        RouteSetMember::NameOp("rs-bar".to_string(), RangeOperator::NoOp)
    );
}

#[test]
fn single_fields_become_peering_sets_or_as_names() {
    match parse_single_as_expr("prng-peers".to_string()) {
        AsExpr::PeeringSet(name) => assert_eq!(name, "prng-peers".to_string()),
        other => panic!("unexpected {:?}", other),
    }
    match parse_single_as_expr("AS64500".to_string()) {
        AsExpr::Single(AsName::Num(n)) => assert_eq!(n, 64500),
        other => panic!("unexpected {:?}", other),
    }
}

#[test]
fn lexed_peerings_parse_structurally() {
    let lexed = vec![lex::PeeringAction {
        mp_peering: lex::Peering {
            as_expr: lex::AsExpr::AsComp(lex::ComplexAsExpr::And {
                left: Box::new(lex::AsExpr::Field("AS1".to_string())),
                right: Box::new(lex::AsExpr::Field("as-two".to_string())),
            }),
            router_expr1: None,
            router_expr2: None,
        },
        actions: vec![("pref".to_string(), "10".to_string())],
    }];
    let parsed = parse_mp_peerings(lexed);
    assert_eq!(parsed.len(), 1);
    assert_eq!(
        parsed[0].actions,
        vec![("pref".to_string(), "10".to_string())]
    );
    match &parsed[0].mp_peering.remote_as {
        AsExpr::And { left, right } => {
            assert!(matches!(**left, AsExpr::Single(AsName::Num(1))));
            match &**right {
                AsExpr::Single(AsName::NamedSet(s)) => assert_eq!(s, "AS-TWO"),
                other => panic!("unexpected {:?}", other),
            }
        }
        other => panic!("unexpected {:?}", other),
    }
}

#[test]
fn table_dump_lines_parse_into_observations() {
    let line = "TABLE_DUMP2,1651708800,B,198.51.100.1,64496,10.0.0.0/8,64500 64501 64502,IGP";
    let compare = Compare::with_line_dump(line).expect("an observation");
    assert_eq!(
        compare.prefix,
        IpNet {
            family: IpFamily::V4,
            addr: 0x0a000000,
            len: 8
        }
    );
    // The path text lists the origin last; the observation holds it first.
    assert_eq!(compare.as_path, vec![64502, 64501, 64500]);
    assert!(Compare::with_line_dump("too,short").is_none());
    assert!(Compare::with_line_dump(
        "TABLE_DUMP2,1,B,198.51.100.1,64496,not-a-prefix,64500,IGP"
    )
    .is_none());
}

#[test]
fn lines_pack_or_reject_as_a_batch() {
    let good = "T,1,B,198.51.100.1,64496,10.0.0.0/8,64500,IGP".to_string();
    let lines = pack_lines(vec![good.clone()]).expect("a packed batch");
    assert_eq!(lines.len(), 1);
    assert_eq!(lines[0].raw, good);
    assert!(lines[0].report.is_none());
    assert!(pack_lines(vec![good, "bad line".to_string()]).is_none());
    let parsed = Line::from_raw("T,1,B,198.51.100.1,64496,192.0.2.0/24,64500 64501,IGP".to_string())
        .expect("a line");
    assert_eq!(parsed.compare.as_path, vec![64501, 64500]);
}
