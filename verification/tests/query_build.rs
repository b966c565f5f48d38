use route_policy_cmp::ip::{IpFamily, IpNet};
use route_policy_cmp::query::{flatten_as_set_routes, AsSetRoute, Dump, QueryDump};
use route_policy_cmp::set::AsSet;
use route_policy_cmp::vecmap::{NameMap, NumMap};

fn v4(a: u8, b: u8, c: u8, d: u8, len: u8) -> IpNet {
    let addr = ((a as u128) << 24) | ((b as u128) << 16) | ((c as u128) << 8) | (d as u128);
    IpNet {
        family: IpFamily::V4,
        addr,
        len,
    }
}

#[test]
fn flatten_reaches_a_fixed_point_on_two_levels() {
    // A -> {routes: [p1], set_members: [B]}, B -> {routes: [p2]}: after the
    // pass, A holds the sorted union and no member set names.
    let p1 = v4(10, 0, 0, 0, 8);
    let p2 = v4(192, 0, 2, 0, 24);
    let mut input: NameMap<AsSetRoute> = NameMap::new();
    input.insert(
        "A".to_string(),
        AsSetRoute {
            routes: vec![p1],
            unrecorded_nums: vec![],
            set_members: vec!["B".to_string()],
        },
    );
    input.insert(
        "B".to_string(),
        AsSetRoute {
            routes: vec![p2],
            unrecorded_nums: vec![],
            set_members: vec![],
        },
    );
    let result = flatten_as_set_routes(&input);
    let a = result.get(&"A".to_string()).expect("entry for A");
    let mut expected = vec![p1, p2];
    expected.sort_by(|x, y| {
        (matches!(x.family, IpFamily::V6), x.addr, x.len).cmp(&(
            matches!(y.family, IpFamily::V6),
            y.addr,
            y.len,
        ))
    });
    assert_eq!(a.routes, expected);
    assert_eq!(a.set_members, Vec::<String>::new());
    assert_eq!(a.unrecorded_nums, Vec::<u32>::new());
    let b = result.get(&"B".to_string()).expect("entry for B");
    assert_eq!(b.routes, vec![p2]);
}

#[test]
fn flatten_keeps_dangling_member_names() {
    let mut input: NameMap<AsSetRoute> = NameMap::new();
    input.insert(
        "A".to_string(),
        AsSetRoute {
            routes: vec![],
            unrecorded_nums: vec![],
            set_members: vec!["MISSING".to_string()],
        },
    );
    let result = flatten_as_set_routes(&input);
    let a = result.get(&"A".to_string()).expect("entry for A");
    assert_eq!(a.set_members, vec!["MISSING".to_string()]);
}

#[test]
fn as_set_members_are_sorted_and_deduplicated() {
    let as_set = AsSet::new(
        "".to_string(),
        vec![64502, 64500, 64502, 64501],
        vec![],
    );
    assert_eq!(as_set.members, vec![64500, 64501, 64502]);
}

#[test]
fn from_as_set_collects_routes_and_unrecorded_members() {
    let mut as_routes: NumMap<Vec<IpNet>> = NumMap::new();
    let p1 = v4(10, 0, 0, 0, 8);
    as_routes.insert(64500, vec![p1, p1]);
    let as_set = AsSet::new(
        "".to_string(),
        vec![64501, 64500],
        vec!["AS-CHILD".to_string()],
    );
    let r = AsSetRoute::from_as_set(&as_set, &as_routes);
    assert_eq!(r.routes, vec![p1]);
    assert_eq!(r.unrecorded_nums, vec![64501]);
    assert_eq!(r.set_members, vec!["AS-CHILD".to_string()]);
}

#[test]
fn clean_up_sorts_and_dedups() {
    let p1 = v4(10, 0, 0, 0, 8);
    let p2 = v4(9, 0, 0, 0, 8);
    let mut r = AsSetRoute {
        routes: vec![p1, p2, p1],
        unrecorded_nums: vec![7, 3, 7],
        set_members: vec!["X".to_string()],
    };
    r.clean_up();
    assert_eq!(r.routes, vec![p2, p1]);
    assert_eq!(r.unrecorded_nums, vec![3, 7]);
    assert_eq!(r.set_members, vec!["X".to_string()]);
}

#[test]
fn from_dump_sorts_routes_and_flattens_sets() {
    let p_hi = v4(203, 0, 113, 0, 24);
    let p_lo = v4(10, 0, 0, 0, 8);
    let mut dump = Dump {
        aut_nums: NumMap::new(),
        as_sets: NameMap::new(),
        route_sets: NameMap::new(),
        peering_sets: NameMap::new(),
        filter_sets: NameMap::new(),
        as_routes: NumMap::new(),
    };
    dump.as_routes.insert(64500, vec![p_hi, p_lo, p_hi]);
    dump.as_sets.insert(
        "AS-ONE".to_string(),
        AsSet::new("".to_string(), vec![64500], vec![]),
    );
    let q: QueryDump = QueryDump::from_dump(dump);
    let routes = q.as_routes.get(64500).expect("routes for 64500");
    assert_eq!(*routes, vec![p_lo, p_hi]);
    let cached = q
        .as_set_routes
        .get(&"AS-ONE".to_string())
        .expect("cache for AS-ONE");
    assert_eq!(cached.routes, vec![p_lo, p_hi]);
    assert_eq!(cached.unrecorded_nums, Vec::<u32>::new());
    assert_eq!(cached.set_members, Vec::<String>::new());
}

#[test]
fn flatten_is_one_pass_only() {
    // A three-level chain shows the single pass: A pulls in B's member
    // list, which still names C, and C stays recorded, so deeper chains
    // are resolved at query time by a skip.
    let mut input: NameMap<AsSetRoute> = NameMap::new();
    input.insert(
        "A".to_string(),
        AsSetRoute {
            routes: vec![],
            unrecorded_nums: vec![],
            set_members: vec!["B".to_string()],
        },
    );
    input.insert(
        "B".to_string(),
        AsSetRoute {
            routes: vec![],
            unrecorded_nums: vec![],
            set_members: vec!["C".to_string()],
        },
    );
    input.insert(
        "C".to_string(),
        AsSetRoute {
            routes: vec![],
            unrecorded_nums: vec![],
            set_members: vec![],
        },
    );
    let result = flatten_as_set_routes(&input);
    let a = result.get(&"A".to_string()).expect("entry for A");
    assert_eq!(a.set_members, vec!["C".to_string()]);
    assert!(result.get(&"C".to_string()).is_some());
}
