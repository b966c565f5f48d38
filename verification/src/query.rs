//! The query dump: the policy graph after its one-shot post-processing.
//!
//! `as_routes` values are sorted and deduplicated; `as_set_routes` caches,
//! for each as-set, the union of its members' routes, in one flattening
//! pass over the member sets.

use vstd::prelude::*;
use vstd::seq_lib::group_to_multiset_ensures;
use vstd::set::group_set_axioms;

use crate::aut_num::AutNum;
use crate::ip::IpNet;
use crate::set::{AsSet, FilterSet, PeeringSet, RouteSet};
use crate::sort::{
    dedup_sorted_ips, dedup_sorted_u32s, ip_seq_strictly_sorted, sort_ips, sort_u32s,
    u32_seq_strictly_sorted,
};
use crate::vecmap::{NameMap, NumMap};

verus! {

broadcast use group_set_axioms;

/// Append the elements of `src` to `dst`.
pub fn extend_ips(dst: &mut Vec<IpNet>, src: &Vec<IpNet>) -> (nothing: ())
    ensures
        final(dst)@ == old(dst)@ + src@,
{
    let n = src.len();
    for i in 0..n
        invariant
            n == src@.len(),
            dst@ == old(dst)@ + src@.take(i as int),
    {
        dst.push(src[i]);
        proof {
            assert(old(dst)@ + src@.take(i + 1) =~= (old(dst)@ + src@.take(i as int)).push(
                src@[i as int],
            ));
        }
    }
    proof {
        assert(src@.take(n as int) =~= src@);
    }
}

/// Append the elements of `src` to `dst`.
pub fn extend_u32s(dst: &mut Vec<u32>, src: &Vec<u32>) -> (nothing: ())
    ensures
        final(dst)@ == old(dst)@ + src@,
{
    let n = src.len();
    for i in 0..n
        invariant
            n == src@.len(),
            dst@ == old(dst)@ + src@.take(i as int),
    {
        dst.push(src[i]);
        proof {
            assert(old(dst)@ + src@.take(i + 1) =~= (old(dst)@ + src@.take(i as int)).push(
                src@[i as int],
            ));
        }
    }
    proof {
        assert(src@.take(n as int) =~= src@);
    }
}

/// Copy a vector of names; the copy holds the same strings.
pub fn clone_strings(v: &Vec<String>) -> (r: Vec<String>)
    ensures
        r@ == v@,
{
    let n = v.len();
    let mut out: Vec<String> = Vec::new();
    for i in 0..n
        invariant
            n == v@.len(),
            out@ == v@.take(i as int),
    {
        out.push(v[i].clone());
        proof {
            assert(v@.take(i + 1) =~= v@.take(i as int).push(v@[i as int]));
        }
    }
    proof {
        assert(v@.take(n as int) =~= v@);
    }
    out
}

/// Copy a vector of prefixes.
pub fn clone_ips(v: &Vec<IpNet>) -> (r: Vec<IpNet>)
    ensures
        r@ == v@,
{
    let n = v.len();
    let mut out: Vec<IpNet> = Vec::new();
    for i in 0..n
        invariant
            n == v@.len(),
            out@ == v@.take(i as int),
    {
        out.push(v[i]);
        proof {
            assert(v@.take(i + 1) =~= v@.take(i as int).push(v@[i as int]));
        }
    }
    proof {
        assert(v@.take(n as int) =~= v@);
    }
    out
}

/// Copy a vector of numbers.
pub fn clone_u32s(v: &Vec<u32>) -> (r: Vec<u32>)
    ensures
        r@ == v@,
{
    let n = v.len();
    let mut out: Vec<u32> = Vec::new();
    for i in 0..n
        invariant
            n == v@.len(),
            out@ == v@.take(i as int),
    {
        out.push(v[i]);
        proof {
            assert(v@.take(i + 1) =~= v@.take(i as int).push(v@[i as int]));
        }
    }
    proof {
        assert(v@.take(n as int) =~= v@);
    }
    out
}

/// Two sequences with one multiset hold one set of elements.
pub proof fn lemma_same_multiset_same_set<A>(a: Seq<A>, b: Seq<A>)
    requires
        a.to_multiset() == b.to_multiset(),
    ensures
        a.to_set() == b.to_set(),
{
    broadcast use group_to_multiset_ensures;

    assert forall|x: A| #[trigger] a.to_set().contains(x) <==> b.to_set().contains(x) by {
        assert(a.to_set().contains(x) <==> a.contains(x));
        assert(b.to_set().contains(x) <==> b.contains(x));
        assert(a.contains(x) <==> a.to_multiset().count(x) > 0);
        assert(b.contains(x) <==> b.to_multiset().count(x) > 0);
    }
    assert(a.to_set() =~= b.to_set());
}

/// Concatenation unions the element sets.
pub proof fn lemma_concat_to_set<A>(a: Seq<A>, b: Seq<A>)
    ensures
        (a + b).to_set() == a.to_set().union(b.to_set()),
{
    assert forall|x: A| #[trigger] (a + b).to_set().contains(x) <==> a.to_set().union(
        b.to_set(),
    ).contains(x) by {
        if (a + b).contains(x) {
            let j = choose|j: int| 0 <= j < (a + b).len() && #[trigger] (a + b)[j] == x;
            if j < a.len() {
                assert(a[j] == x);
            } else {
                assert(b[j - a.len()] == x);
            }
        }
        if a.contains(x) {
            let j = choose|j: int| 0 <= j < a.len() && #[trigger] a[j] == x;
            assert((a + b)[j] == x);
        }
        if b.contains(x) {
            let j = choose|j: int| 0 <= j < b.len() && #[trigger] b[j] == x;
            assert((a + b)[j + a.len()] == x);
        }
    }
    assert((a + b).to_set() =~= a.to_set().union(b.to_set()));
}

/// Routes for one as-set: the union of its members' routes, the members
/// that had none recorded, and the names of member sets.
#[derive(Debug)]
pub struct AsSetRoute {
    /// Kept strictly sorted.
    pub routes: Vec<IpNet>,
    /// Kept strictly sorted.
    pub unrecorded_nums: Vec<u32>,
    pub set_members: Vec<String>,
}

/// The union of the recorded routes of the given AS numbers.
pub open spec fn member_routes_union(members: Seq<u32>, m: Map<u32, Vec<IpNet>>) -> Set<IpNet>
    decreases members.len(),
{
    if members.len() == 0 {
        Set::empty()
    } else {
        member_routes_union(members.drop_last(), m).union(
            if m.contains_key(members.last()) {
                m[members.last()]@.to_set()
            } else {
                Set::empty()
            },
        )
    }
}

/// The given AS numbers that have no recorded routes.
pub open spec fn unrecorded_of(members: Seq<u32>, m: Map<u32, Vec<IpNet>>) -> Set<u32>
    decreases members.len(),
{
    if members.len() == 0 {
        Set::empty()
    } else {
        unrecorded_of(members.drop_last(), m).union(
            if m.contains_key(members.last()) {
                Set::empty()
            } else {
                Set::empty().insert(members.last())
            },
        )
    }
}

/// The routes the one-pass flattening adds from the named member sets.
pub open spec fn members_routes_set(sm: Seq<String>, m: Map<Seq<char>, AsSetRoute>) -> Set<IpNet>
    decreases sm.len(),
{
    if sm.len() == 0 {
        Set::empty()
    } else {
        members_routes_set(sm.drop_last(), m).union(
            if m.contains_key(sm.last()@) {
                m[sm.last()@].routes@.to_set()
            } else {
                Set::empty()
            },
        )
    }
}

/// The unrecorded numbers the flattening adds from the named member sets.
pub open spec fn members_unrec_set(sm: Seq<String>, m: Map<Seq<char>, AsSetRoute>) -> Set<u32>
    decreases sm.len(),
{
    if sm.len() == 0 {
        Set::empty()
    } else {
        members_unrec_set(sm.drop_last(), m).union(
            if m.contains_key(sm.last()@) {
                m[sm.last()@].unrecorded_nums@.to_set()
            } else {
                Set::empty()
            },
        )
    }
}

/// The member names left after one flattening pass: a recorded member set is
/// replaced by its own member names, a dangling one stays.
pub open spec fn flat_set_members(sm: Seq<String>, m: Map<Seq<char>, AsSetRoute>) -> Seq<String>
    decreases sm.len(),
{
    if sm.len() == 0 {
        Seq::empty()
    } else {
        flat_set_members(sm.drop_last(), m) + if m.contains_key(sm.last()@) {
            m[sm.last()@].set_members@
        } else {
            seq![sm.last()]
        }
    }
}

impl AsSetRoute {
    /// Both ordered vectors are strictly sorted.
    pub open spec fn wf(self) -> bool {
        ip_seq_strictly_sorted(self.routes@) && u32_seq_strictly_sorted(self.unrecorded_nums@)
    }

    /// Sort and deduplicate `routes` and `unrecorded_nums`; the sets of
    /// elements and the member names are unchanged.
    pub fn clean_up(&mut self) -> (nothing: ())
        ensures
            final(self).wf(),
            final(self).routes@.to_set() == old(self).routes@.to_set(),
            final(self).unrecorded_nums@.to_set() == old(self).unrecorded_nums@.to_set(),
            final(self).set_members == old(self).set_members,
    {
        let mut routes: Vec<IpNet> = Vec::new();
        core::mem::swap(&mut self.routes, &mut routes);
        let ghost routes0 = routes@;
        let sorted = sort_ips(routes);
        proof {
            lemma_same_multiset_same_set(sorted@, routes0);
        }
        self.routes = dedup_sorted_ips(sorted);
        let mut nums: Vec<u32> = Vec::new();
        core::mem::swap(&mut self.unrecorded_nums, &mut nums);
        let ghost nums0 = nums@;
        let sorted_nums = sort_u32s(nums);
        proof {
            lemma_same_multiset_same_set(sorted_nums@, nums0);
        }
        self.unrecorded_nums = dedup_sorted_u32s(sorted_nums);
    }

    /// Build the route cache of one as-set from the recorded per-AS routes:
    /// recorded members contribute their routes, unrecorded members are
    /// listed, and the member set names are copied verbatim.
    pub fn from_as_set(as_set: &AsSet, as_routes: &NumMap<Vec<IpNet>>) -> (r: Self)
        requires
            as_routes.wf(),
        ensures
            r.wf(),
            r.routes@.to_set() == member_routes_union(as_set.members@, as_routes@),
            r.unrecorded_nums@.to_set() == unrecorded_of(as_set.members@, as_routes@),
            r.set_members@ == as_set.set_members@,
    {
        let mut routes: Vec<IpNet> = Vec::new();
        let mut unrecorded_nums: Vec<u32> = Vec::new();
        let n = as_set.members.len();
        for i in 0..n
            invariant
                n == as_set.members@.len(),
                as_routes.wf(),
                routes@.to_set() == member_routes_union(as_set.members@.take(i as int), as_routes@),
                unrecorded_nums@.to_set() == unrecorded_of(
                    as_set.members@.take(i as int),
                    as_routes@,
                ),
        {
            let member = as_set.members[i];
            let ghost routes0 = routes@;
            let ghost nums0 = unrecorded_nums@;
            match as_routes.get(member) {
                Some(as_route) => {
                    extend_ips(&mut routes, as_route);
                    proof {
                        lemma_concat_to_set(routes0, as_route@);
                    }
                },
                None => {
                    unrecorded_nums.push(member);
                    proof {
                        nums0.lemma_push_to_set_commute(member);
                        assert(nums0.to_set().insert(member) =~= nums0.to_set().union(
                            Set::empty().insert(member),
                        ));
                    }
                },
            }
            proof {
                let taken = as_set.members@.take(i + 1);
                assert(taken.drop_last() =~= as_set.members@.take(i as int));
                assert(taken.last() == as_set.members@[i as int]);
            }
        }
        proof {
            assert(as_set.members@.take(n as int) =~= as_set.members@);
        }
        let mut result = AsSetRoute {
            routes,
            unrecorded_nums,
            set_members: clone_strings(&as_set.set_members),
        };
        result.clean_up();
        result
    }
}

/// Cleaned RPSL dump, ready for query.
#[derive(Debug)]
pub struct QueryDump {
    pub aut_nums: NumMap<AutNum>,
    pub as_sets: NameMap<AsSet>,
    pub route_sets: NameMap<RouteSet>,
    pub peering_sets: NameMap<PeeringSet>,
    pub filter_sets: NameMap<FilterSet>,
    /// Each value is strictly sorted.
    pub as_routes: NumMap<Vec<IpNet>>,
    /// Each entry's ordered vectors are strictly sorted.
    pub as_set_routes: NameMap<AsSetRoute>,
}

impl QueryDump {
    /// All keyed collections are well formed, the cached vectors sorted,
    /// and every prefix and filter stored in the graph well formed.
    pub open spec fn wf(self) -> bool {
        &&& self.aut_nums.wf()
        &&& self.as_sets.wf()
        &&& self.route_sets.wf()
        &&& self.peering_sets.wf()
        &&& self.filter_sets.wf()
        &&& self.as_routes.wf()
        &&& self.as_set_routes.wf()
        &&& forall|i: int|
            0 <= i < self.as_routes.entries@.len() ==> ip_seq_strictly_sorted(
                (#[trigger] self.as_routes.entries@[i]).1@,
            )
        &&& forall|i: int|
            0 <= i < self.as_set_routes.entries@.len() ==> (
            #[trigger] self.as_set_routes.entries@[i]).1.wf()
        &&& forall|i: int|
            0 <= i < self.as_routes.entries@.len() ==> ip_seq_wf(
                (#[trigger] self.as_routes.entries@[i]).1@,
            )
        &&& forall|i: int|
            0 <= i < self.route_sets.entries@.len() ==> (
            #[trigger] self.route_sets.entries@[i]).1.wf()
        &&& forall|i: int|
            0 <= i < self.filter_sets.entries@.len() ==> (
            #[trigger] self.filter_sets.entries@[i]).1.wf()
        &&& forall|i: int|
            0 <= i < self.aut_nums.entries@.len() ==> (
            #[trigger] self.aut_nums.entries@[i]).1.wf()
    }
}

/// Every prefix in the sequence is well formed.
pub open spec fn ip_seq_wf(s: Seq<IpNet>) -> bool {
    forall|i: int| 0 <= i < s.len() ==> (#[trigger] s[i]).wf()
}

/// The raw dump an external parser hands over.
#[derive(Debug)]
pub struct Dump {
    pub aut_nums: NumMap<AutNum>,
    pub as_sets: NameMap<AsSet>,
    pub route_sets: NameMap<RouteSet>,
    pub peering_sets: NameMap<PeeringSet>,
    pub filter_sets: NameMap<FilterSet>,
    pub as_routes: NumMap<Vec<IpNet>>,
}

impl Dump {
    /// All keyed collections are well formed, and every prefix and filter
    /// in the graph is well formed.
    pub open spec fn wf(self) -> bool {
        &&& self.aut_nums.wf()
        &&& self.as_sets.wf()
        &&& self.route_sets.wf()
        &&& self.peering_sets.wf()
        &&& self.filter_sets.wf()
        &&& self.as_routes.wf()
        &&& forall|i: int|
            0 <= i < self.as_routes.entries@.len() ==> ip_seq_wf(
                (#[trigger] self.as_routes.entries@[i]).1@,
            )
        &&& forall|i: int|
            0 <= i < self.route_sets.entries@.len() ==> (
            #[trigger] self.route_sets.entries@[i]).1.wf()
        &&& forall|i: int|
            0 <= i < self.filter_sets.entries@.len() ==> (
            #[trigger] self.filter_sets.entries@[i]).1.wf()
        &&& forall|i: int|
            0 <= i < self.aut_nums.entries@.len() ==> (
            #[trigger] self.aut_nums.entries@[i]).1.wf()
    }
}

/// One flattening pass: each entry's member sets that are themselves
/// recorded are replaced by their contents; dangling names stay.
pub fn flatten_as_set_routes(as_set_routes: &NameMap<AsSetRoute>) -> (r: NameMap<AsSetRoute>)
    requires
        as_set_routes.wf(),
    ensures
        r.wf(),
        r.entries@.len() == as_set_routes.entries@.len(),
        forall|i: int|
            0 <= i < r.entries@.len() ==> (#[trigger] r.entries@[i]).0
                == as_set_routes.entries@[i].0,
        forall|i: int|
            0 <= i < r.entries@.len() ==> {
                let v = as_set_routes.entries@[i].1;
                let w = (#[trigger] r.entries@[i]).1;
                &&& w.wf()
                &&& w.routes@.to_set() == v.routes@.to_set().union(
                    members_routes_set(v.set_members@, as_set_routes@),
                )
                &&& w.unrecorded_nums@.to_set() == v.unrecorded_nums@.to_set().union(
                    members_unrec_set(v.set_members@, as_set_routes@),
                )
                &&& w.set_members@ == flat_set_members(v.set_members@, as_set_routes@)
            },
{
    let mut result: NameMap<AsSetRoute> = NameMap::new();
    let n = as_set_routes.len();
    for i in 0..n
        invariant
            n == as_set_routes.entries@.len(),
            as_set_routes.wf(),
            result.wf(),
            result.entries@.len() == i,
            forall|k: int|
                0 <= k < i ==> (#[trigger] result.entries@[k]).0 == as_set_routes.entries@[k].0,
            forall|k: int|
                0 <= k < i ==> {
                    let v = as_set_routes.entries@[k].1;
                    let w = (#[trigger] result.entries@[k]).1;
                    &&& w.wf()
                    &&& w.routes@.to_set() == v.routes@.to_set().union(
                        members_routes_set(v.set_members@, as_set_routes@),
                    )
                    &&& w.unrecorded_nums@.to_set() == v.unrecorded_nums@.to_set().union(
                        members_unrec_set(v.set_members@, as_set_routes@),
                    )
                    &&& w.set_members@ == flat_set_members(v.set_members@, as_set_routes@)
                },
    {
        let entry = as_set_routes.index(i);
        let name = entry.0.clone();
        let v = &entry.1;
        let mut routes = clone_ips(&v.routes);
        let mut unrecorded_nums = clone_u32s(&v.unrecorded_nums);
        let mut set_members: Vec<String> = Vec::new();
        let m = v.set_members.len();
        for j in 0..m
            invariant
                m == v.set_members@.len(),
                as_set_routes.wf(),
                routes@.to_set() == v.routes@.to_set().union(
                    members_routes_set(v.set_members@.take(j as int), as_set_routes@),
                ),
                unrecorded_nums@.to_set() == v.unrecorded_nums@.to_set().union(
                    members_unrec_set(v.set_members@.take(j as int), as_set_routes@),
                ),
                set_members@ == flat_set_members(v.set_members@.take(j as int), as_set_routes@),
        {
            let member = &v.set_members[j];
            let ghost routes0 = routes@;
            let ghost nums0 = unrecorded_nums@;
            let ghost names0 = set_members@;
            match as_set_routes.get(member) {
                Some(inner) => {
                    extend_ips(&mut routes, &inner.routes);
                    extend_u32s(&mut unrecorded_nums, &inner.unrecorded_nums);
                    let mut inner_names = clone_strings(&inner.set_members);
                    set_members.append(&mut inner_names);
                    proof {
                        lemma_concat_to_set(routes0, inner.routes@);
                        lemma_concat_to_set(nums0, inner.unrecorded_nums@);
                    }
                },
                None => {
                    set_members.push(member.clone());
                    proof {
                        assert(names0.push(v.set_members@[j as int]) =~= names0 + seq![
                            v.set_members@[j as int],
                        ]);
                    }
                },
            }
            proof {
                let taken = v.set_members@.take(j + 1);
                assert(taken.drop_last() =~= v.set_members@.take(j as int));
                assert(taken.last() == v.set_members@[j as int]);
                assert(routes@.to_set() =~= v.routes@.to_set().union(
                    members_routes_set(taken, as_set_routes@),
                ));
                assert(unrecorded_nums@.to_set() =~= v.unrecorded_nums@.to_set().union(
                    members_unrec_set(taken, as_set_routes@),
                ));
            }
        }
        proof {
            assert(v.set_members@.take(m as int) =~= v.set_members@);
        }
        let mut built = AsSetRoute { routes, unrecorded_nums, set_members };
        built.clean_up();
        proof {
            assert forall|k: int| 0 <= k < result.entries@.len() implies (
            #[trigger] result.entries@[k]).0@ != name@ by {
                assert(result.entries@[k].0 == as_set_routes.entries@[k].0);
            }
            crate::vecmap::lemma_name_entries_map_absent(result.entries@, name@);
        }
        result.insert_new(name, built);
    }
    result
}



/// The intermediate per-set route caches `mid` that tie a built query dump
/// to its raw dump: entry `i` caches as-set `i` of the raw dump against
/// the cleaned per-AS routes, and the flattened entries are one pass over
/// `mid` exactly.
pub open spec fn from_dump_mid_relates(
    as_sets_entries: Seq<(String, AsSet)>,
    as_routes: Map<u32, Vec<IpNet>>,
    mid: Seq<(String, AsSetRoute)>,
    flat: Seq<(String, AsSetRoute)>,
) -> bool {
    &&& mid.len() == as_sets_entries.len()
    &&& flat.len() == mid.len()
    &&& forall|i: int| 0 <= i < mid.len() ==> (#[trigger] mid[i]).0 == as_sets_entries[i].0
    &&& forall|i: int|
        0 <= i < mid.len() ==> (#[trigger] mid[i]).1.routes@.to_set() == member_routes_union(
            as_sets_entries[i].1.members@,
            as_routes,
        )
    &&& forall|i: int|
        0 <= i < mid.len() ==> (#[trigger] mid[i]).1.unrecorded_nums@.to_set() == unrecorded_of(
            as_sets_entries[i].1.members@,
            as_routes,
        )
    &&& forall|i: int|
        0 <= i < mid.len() ==> (#[trigger] mid[i]).1.set_members@
            == as_sets_entries[i].1.set_members@
    &&& forall|i: int|
        0 <= i < flat.len() ==> (#[trigger] flat[i]).1.routes@.to_set()
            == mid[i].1.routes@.to_set().union(
            members_routes_set(mid[i].1.set_members@, crate::vecmap::name_entries_map(mid)),
        )
    &&& forall|i: int|
        0 <= i < flat.len() ==> (#[trigger] flat[i]).1.unrecorded_nums@.to_set()
            == mid[i].1.unrecorded_nums@.to_set().union(
            members_unrec_set(mid[i].1.set_members@, crate::vecmap::name_entries_map(mid)),
        )
    &&& forall|i: int|
        0 <= i < flat.len() ==> (#[trigger] flat[i]).1.set_members@ == flat_set_members(
            mid[i].1.set_members@,
            crate::vecmap::name_entries_map(mid),
        )
}

impl QueryDump {
    /// Clean `dump` into a query dump: per-AS routes are sorted and
    /// deduplicated, and each as-set's routes are cached and flattened one
    /// level through its member sets.
    pub fn from_dump(dump: Dump) -> (r: Self)
        requires
            dump.wf(),
        ensures
            r.wf(),
            r.aut_nums == dump.aut_nums,
            r.as_sets == dump.as_sets,
            r.route_sets == dump.route_sets,
            r.peering_sets == dump.peering_sets,
            r.filter_sets == dump.filter_sets,
            r.as_routes.entries@.len() == dump.as_routes.entries@.len(),
            forall|i: int|
                0 <= i < r.as_routes.entries@.len() ==> (#[trigger] r.as_routes.entries@[i]).0
                    == dump.as_routes.entries@[i].0,
            forall|i: int|
                0 <= i < r.as_routes.entries@.len() ==> (#[trigger] r.as_routes.entries@[i]).1@.to_set()
                    == dump.as_routes.entries@[i].1@.to_set(),
            r.as_set_routes.entries@.len() == dump.as_sets.entries@.len(),
            forall|i: int|
                0 <= i < r.as_set_routes.entries@.len() ==> (
                #[trigger] r.as_set_routes.entries@[i]).0 == dump.as_sets.entries@[i].0,
            exists|mid: Seq<(String, AsSetRoute)>|
                #![trigger mid.len()]
                from_dump_mid_relates(
                    dump.as_sets.entries@,
                    r.as_routes@,
                    mid,
                    r.as_set_routes.entries@,
                ),
    {
        let Dump { aut_nums, as_sets, route_sets, peering_sets, filter_sets, as_routes } = dump;
        let mut clean_routes: NumMap<Vec<IpNet>> = NumMap::new();
        let n = as_routes.len();
        for i in 0..n
            invariant
                n == as_routes.entries@.len(),
                dump.wf(),
                as_routes == dump.as_routes,
                as_routes.wf(),
                clean_routes.wf(),
                clean_routes.entries@.len() == i,
                forall|k: int|
                    0 <= k < i ==> (#[trigger] clean_routes.entries@[k]).0
                        == as_routes.entries@[k].0,
                forall|k: int|
                    0 <= k < i ==> (#[trigger] clean_routes.entries@[k]).1@.to_set()
                        == as_routes.entries@[k].1@.to_set(),
                forall|k: int|
                    0 <= k < i ==> ip_seq_strictly_sorted(
                        (#[trigger] clean_routes.entries@[k]).1@,
                    ),
                forall|k: int|
                    0 <= k < i ==> ip_seq_wf((#[trigger] clean_routes.entries@[k]).1@),
        {
            let entry = as_routes.index(i);
            let copied = clone_ips(&entry.1);
            let ghost routes0 = copied@;
            let sorted = sort_ips(copied);
            proof {
                lemma_same_multiset_same_set(sorted@, routes0);
            }
            let cleaned = dedup_sorted_ips(sorted);
            proof {
                assert forall|k: int| 0 <= k < clean_routes.entries@.len() implies (
                #[trigger] clean_routes.entries@[k]).0 != entry.0 by {
                    assert(clean_routes.entries@[k].0 == as_routes.entries@[k].0);
                }
                crate::vecmap::lemma_num_entries_map_absent(clean_routes.entries@, entry.0);
            }
            proof {
                assert(ip_seq_wf(cleaned@)) by {
                    assert forall|j: int| 0 <= j < cleaned@.len() implies (
                    #[trigger] cleaned@[j]).wf() by {
                        assert(cleaned@.contains(cleaned@[j]));
                        assert(entry.1@.to_set().contains(cleaned@[j]));
                        let k = choose|k: int|
                            0 <= k < entry.1@.len() && #[trigger] entry.1@[k] == cleaned@[j];
                        assert(ip_seq_wf(dump.as_routes.entries@[i as int].1@));
                        assert(dump.as_routes.entries@[i as int].1@[k].wf());
                    }
                }
            }
            clean_routes.insert_new(entry.0, cleaned);
        }
        let mut initial: NameMap<AsSetRoute> = NameMap::new();
        let m = as_sets.len();
        for i in 0..m
            invariant
                m == as_sets.entries@.len(),
                as_sets.wf(),
                clean_routes.wf(),
                initial.wf(),
                initial.entries@.len() == i,
                forall|k: int|
                    0 <= k < i ==> (#[trigger] initial.entries@[k]).0 == as_sets.entries@[k].0,
                forall|k: int| 0 <= k < i ==> (#[trigger] initial.entries@[k]).1.wf(),
                forall|k: int|
                    0 <= k < i ==> (#[trigger] initial.entries@[k]).1.routes@.to_set()
                        == member_routes_union(as_sets.entries@[k].1.members@, clean_routes@),
                forall|k: int|
                    0 <= k < i ==> (#[trigger] initial.entries@[k]).1.unrecorded_nums@.to_set()
                        == unrecorded_of(as_sets.entries@[k].1.members@, clean_routes@),
                forall|k: int|
                    0 <= k < i ==> (#[trigger] initial.entries@[k]).1.set_members@
                        == as_sets.entries@[k].1.set_members@,
        {
            let entry = as_sets.index(i);
            let v = AsSetRoute::from_as_set(&entry.1, &clean_routes);
            let name = entry.0.clone();
            proof {
                assert forall|k: int| 0 <= k < initial.entries@.len() implies (
                #[trigger] initial.entries@[k]).0@ != name@ by {
                    assert(initial.entries@[k].0 == as_sets.entries@[k].0);
                }
                crate::vecmap::lemma_name_entries_map_absent(initial.entries@, name@);
            }
            initial.insert_new(name, v);
        }
        let as_set_routes = flatten_as_set_routes(&initial);
        proof {
            assert(from_dump_mid_relates(
                dump.as_sets.entries@,
                clean_routes@,
                initial.entries@,
                as_set_routes.entries@,
            ));
            assert(initial.entries@.len() == dump.as_sets.entries@.len());
        }
        QueryDump {
            aut_nums,
            as_sets,
            route_sets,
            peering_sets,
            filter_sets,
            as_routes: clean_routes,
            as_set_routes,
        }
    }
}

/// What one flattening pass leaves closed: where every recorded member
/// set's own member names are dangling, every name the pass leaves in
/// `set_members` is dangling too.
pub proof fn lemma_flat_members_dangling(sm: Seq<String>, m: Map<Seq<char>, AsSetRoute>)
    requires
        forall|s: Seq<char>|
            #[trigger] m.contains_key(s) ==> forall|j: int|
                0 <= j < m[s].set_members@.len() ==> !m.contains_key(
                    (#[trigger] m[s].set_members@[j])@,
                ),
    ensures
        forall|j: int|
            0 <= j < flat_set_members(sm, m).len() ==> !m.contains_key(
                (#[trigger] flat_set_members(sm, m)[j])@,
            ),
    decreases sm.len(),
{
    if sm.len() > 0 {
        lemma_flat_members_dangling(sm.drop_last(), m);
        let head = flat_set_members(sm.drop_last(), m);
        let tail = if m.contains_key(sm.last()@) {
            m[sm.last()@].set_members@
        } else {
            seq![sm.last()]
        };
        assert forall|j: int| 0 <= j < flat_set_members(sm, m).len() implies !m.contains_key(
            (#[trigger] flat_set_members(sm, m)[j])@,
        ) by {
            if j < head.len() {
                assert(flat_set_members(sm, m)[j] == head[j]);
            } else {
                assert(flat_set_members(sm, m)[j] == tail[j - head.len()]);
            }
        }
    }
}

/// The closure law for the flattened cache: when every member set recorded
/// in the input is at most one level deep, the flattened map is a fixed
/// point, and no name in any `set_members` is a key of the map.
pub proof fn lemma_flatten_fixed_point(input: NameMap<AsSetRoute>, result: NameMap<AsSetRoute>)
    requires
        input.wf(),
        result.wf(),
        result.entries@.len() == input.entries@.len(),
        forall|i: int|
            0 <= i < result.entries@.len() ==> (#[trigger] result.entries@[i]).0
                == input.entries@[i].0,
        forall|i: int|
            0 <= i < result.entries@.len() ==> (#[trigger] result.entries@[i]).1.set_members@
                == flat_set_members(input.entries@[i].1.set_members@, input@),
        forall|s: Seq<char>|
            #[trigger] input@.contains_key(s) ==> forall|j: int|
                0 <= j < input@[s].set_members@.len() ==> !input@.contains_key(
                    (#[trigger] input@[s].set_members@[j])@,
                ),
    ensures
        forall|i: int, j: int|
            0 <= i < result.entries@.len() && 0 <= j < (
            #[trigger] result.entries@[i]).1.set_members@.len() ==> !result@.contains_key(
                (#[trigger] result.entries@[i].1.set_members@[j])@,
            ),
{
    crate::vecmap::lemma_name_maps_same_keys(result.entries@, input.entries@);
    assert forall|i: int, j: int|
        0 <= i < result.entries@.len() && 0 <= j < (
        #[trigger] result.entries@[i]).1.set_members@.len() implies !result@.contains_key(
        (#[trigger] result.entries@[i].1.set_members@[j])@,
    ) by {
        lemma_flat_members_dangling(input.entries@[i].1.set_members@, input@);
    }
}


impl QueryDump {
    /// The routes recorded for an AS are well formed and strictly sorted.
    pub proof fn lemma_as_routes_value_wf(self, num: u32)
        requires
            self.wf(),
            self.as_routes@.contains_key(num),
        ensures
            ip_seq_wf(self.as_routes@[num]@),
            ip_seq_strictly_sorted(self.as_routes@[num]@),
    {
        let i = crate::vecmap::lemma_num_entries_map_key_index(self.as_routes.entries@, num);
        crate::vecmap::lemma_num_entries_map_index(self.as_routes.entries@, i);
    }

    /// A recorded route-set is well formed.
    pub proof fn lemma_route_set_wf(self, name: Seq<char>)
        requires
            self.wf(),
            self.route_sets@.contains_key(name),
        ensures
            self.route_sets@[name].wf(),
    {
        let i = crate::vecmap::lemma_name_entries_map_key_index(self.route_sets.entries@, name);
        crate::vecmap::lemma_name_entries_map_index(self.route_sets.entries@, i);
    }

    /// A recorded filter-set is well formed.
    pub proof fn lemma_filter_set_wf(self, name: Seq<char>)
        requires
            self.wf(),
            self.filter_sets@.contains_key(name),
        ensures
            self.filter_sets@[name].wf(),
    {
        let i = crate::vecmap::lemma_name_entries_map_key_index(self.filter_sets.entries@, name);
        crate::vecmap::lemma_name_entries_map_index(self.filter_sets.entries@, i);
    }

    /// A recorded aut-num is well formed.
    pub proof fn lemma_aut_num_wf(self, num: u32)
        requires
            self.wf(),
            self.aut_nums@.contains_key(num),
        ensures
            self.aut_nums@[num].wf(),
    {
        let i = crate::vecmap::lemma_num_entries_map_key_index(self.aut_nums.entries@, num);
        crate::vecmap::lemma_num_entries_map_index(self.aut_nums.entries@, i);
    }
}

} // verus!
