//! Sorting and deduplication for the vectors the query dump keeps ordered.

use vstd::prelude::*;
use vstd::seq_lib::group_to_multiset_ensures;
use vstd::set::group_set_axioms;

use crate::ip::IpNet;

verus! {

broadcast use group_set_axioms;

/// Ascending under the `(family, addr, len)` order, duplicates allowed.
pub open spec fn ip_seq_sorted(s: Seq<IpNet>) -> bool {
    forall|i: int, j: int| 0 <= i < j < s.len() ==> !(#[trigger] s[j]).spec_lt(#[trigger] s[i])
}

/// Strictly ascending under the `(family, addr, len)` order.
pub open spec fn ip_seq_strictly_sorted(s: Seq<IpNet>) -> bool {
    forall|i: int, j: int| 0 <= i < j < s.len() ==> (#[trigger] s[i]).spec_lt(#[trigger] s[j])
}

/// Ascending, duplicates allowed.
pub open spec fn u32_seq_sorted(s: Seq<u32>) -> bool {
    forall|i: int, j: int| 0 <= i < j < s.len() ==> (#[trigger] s[i]) <= (#[trigger] s[j])
}

/// Strictly ascending.
pub open spec fn u32_seq_strictly_sorted(s: Seq<u32>) -> bool {
    forall|i: int, j: int| 0 <= i < j < s.len() ==> (#[trigger] s[i]) < (#[trigger] s[j])
}

/// Inserting an element anywhere adds exactly it to the multiset.
proof fn lemma_to_multiset_insert<A>(s: Seq<A>, p: int, x: A)
    requires
        0 <= p <= s.len(),
    ensures
        s.insert(p, x).to_multiset() =~= s.to_multiset().insert(x),
{
    broadcast use group_to_multiset_ensures;

    let t = s.insert(p, x);
    s.insert_ensures(p, x);
    assert(t.remove(p) =~= s);
    assert(t.remove(p).to_multiset() =~= t.to_multiset().remove(t[p]));
    assert(t.contains(x)) by {
        assert(t[p] == x);
    }
    assert(t.to_multiset().count(x) > 0);
    assert forall|a: A| #[trigger] t.to_multiset().count(a) == s.to_multiset().insert(x).count(
        a,
    ) by {
        assert(s.to_multiset().count(a) == t.to_multiset().remove(t[p]).count(a));
    }
}

/// Sort prefixes ascending; the multiset of elements is unchanged.
pub fn sort_ips(v: Vec<IpNet>) -> (r: Vec<IpNet>)
    ensures
        ip_seq_sorted(r@),
        r@.to_multiset() == v@.to_multiset(),
{
    broadcast use group_to_multiset_ensures;

    let n = v.len();
    let mut out: Vec<IpNet> = Vec::new();
    assert(v@.take(0) =~= Seq::<IpNet>::empty());
    for i in 0..n
        invariant
            n == v@.len(),
            ip_seq_sorted(out@),
            out@.to_multiset() =~= v@.take(i as int).to_multiset(),
    {
        let x = v[i];
        let ghost prev = out@;
        let mut p: usize = 0;
        while p < out.len() && !x.lt(&out[p])
            invariant
                p <= out@.len(),
                out@ == prev,
                forall|k: int| 0 <= k < p ==> !x.spec_lt(out@[k]),
            decreases out@.len() - p,
        {
            p += 1;
        }
        out.insert(p, x);
        proof {
            prev.insert_ensures(p as int, x);
            assert(ip_seq_sorted(out@)) by {
                assert forall|a: int, b: int|
                    0 <= a < b < out@.len() implies !(#[trigger] out@[b]).spec_lt(
                    #[trigger] out@[a],
                ) by {
                    if b < p {
                    } else if a < p && b == p {
                        assert(!x.spec_lt(prev[a]));
                    } else if a < p {
                        assert(!prev[b - 1].spec_lt(prev[a]));
                    } else if a == p {
                        assert(x.spec_lt(prev[a]) || a == prev.len());
                        assert(x.spec_lt(prev[b - 1]) || b - 1 == a);
                    } else {
                        assert(!prev[b - 1].spec_lt(prev[a - 1]));
                    }
                }
            }
            lemma_to_multiset_insert(prev, p as int, x);
            assert(out@.to_multiset() =~= v@.take(i + 1).to_multiset()) by {
                assert(v@.take(i + 1) =~= v@.take(i as int).push(v@[i as int]));
                v@.take(i as int).to_multiset_ensures();
                assert(v@.take(i as int).push(v@[i as int]).to_multiset() =~= v@.take(
                    i as int,
                ).to_multiset().insert(v@[i as int]));
                assert(out@.to_multiset() =~= prev.to_multiset().insert(x));
            }
        }
    }
    proof {
        assert(v@.take(n as int) =~= v@);
    }
    out
}

/// Drop duplicates from a sorted vector: the result is strictly sorted and
/// holds exactly the same elements.
pub fn dedup_sorted_ips(v: Vec<IpNet>) -> (r: Vec<IpNet>)
    requires
        ip_seq_sorted(v@),
    ensures
        ip_seq_strictly_sorted(r@),
        r@.to_set() == v@.to_set(),
{
    let n = v.len();
    let mut out: Vec<IpNet> = Vec::new();
    assert(v@.take(0) =~= Seq::<IpNet>::empty());
    for i in 0..n
        invariant
            n == v@.len(),
            ip_seq_sorted(v@),
            ip_seq_strictly_sorted(out@),
            out@.to_set() =~= v@.take(i as int).to_set(),
            out@.len() > 0 ==> v@.take(i as int).contains(out@[out@.len() - 1]),
    {
        let x = v[i];
        let push = if out.len() == 0 {
            true
        } else {
            let last = out[out.len() - 1];
            last != x
        };
        let ghost prev = out@;
        proof {
            assert(v@.take(i + 1) =~= v@.take(i as int).push(v@[i as int]));
            if prev.len() > 0 {
                let k = choose|k: int| 0 <= k < i && #[trigger] v@.take(i as int)[k] == prev[prev.len() - 1];
                assert(v@[k] == prev[prev.len() - 1]);
                assert(!v@[i as int].spec_lt(v@[k]));
            }
        }
        if push {
            out.push(x);
            proof {
                assert(ip_seq_strictly_sorted(out@)) by {
                    assert forall|a: int, b: int|
                        0 <= a < b < out@.len() implies (#[trigger] out@[a]).spec_lt(
                        #[trigger] out@[b],
                    ) by {
                        if b < out@.len() - 1 {
                            assert(prev[a].spec_lt(prev[b]));
                        } else if a < out@.len() - 1 {
                            assert(prev[a].spec_lt(prev[prev.len() - 1]) || a == prev.len() - 1);
                        }
                    }
                }
                assert(out@.to_set() =~= v@.take(i + 1).to_set()) by {
                    assert(out@ == prev.push(x));
                    assert forall|y: IpNet|
                        #![trigger out@.to_set().contains(y)]
                        #![trigger v@.take(i + 1).to_set().contains(y)]
                        out@.to_set().contains(y) <==> v@.take(i + 1).to_set().contains(y) by {
                        seq_push_contains(prev, x, y);
                        seq_push_contains(v@.take(i as int), v@[i as int], y);
                        assert(prev.to_set().contains(y) <==> prev.contains(y));
                        assert(v@.take(i as int).to_set().contains(y) <==> v@.take(
                            i as int,
                        ).contains(y));
                        assert(prev.contains(y) <==> v@.take(i as int).contains(y));
                    }
                }
                assert(v@.take(i + 1).contains(out@[out@.len() - 1])) by {
                    assert(v@.take(i + 1)[i as int] == x);
                }
            }
        } else {
            proof {
                assert(prev[prev.len() - 1] == x);
                assert(out@.to_set() =~= v@.take(i + 1).to_set()) by {
                    assert forall|y: IpNet|
                        #![trigger out@.to_set().contains(y)]
                        #![trigger v@.take(i + 1).to_set().contains(y)]
                        out@.to_set().contains(y) <==> v@.take(i + 1).to_set().contains(y) by {
                        seq_push_contains(v@.take(i as int), v@[i as int], y);
                        assert(prev.to_set().contains(y) <==> prev.contains(y));
                        assert(v@.take(i as int).to_set().contains(y) <==> v@.take(
                            i as int,
                        ).contains(y));
                        assert(prev.contains(y) <==> v@.take(i as int).contains(y));
                        if y == x {
                            assert(prev.contains(x)) by {
                                assert(prev[prev.len() - 1] == x);
                            }
                        }
                        assert(out@.contains(y) <==> v@.take(i + 1).contains(y));
                        assert(out@.to_set().contains(y) <==> out@.contains(y));
                        assert(v@.take(i + 1).to_set().contains(y) <==> v@.take(i + 1).contains(y));
                    }
                }
                assert(v@.take(i + 1).contains(out@[out@.len() - 1])) by {
                    assert(v@.take(i + 1)[i as int] == x);
                }
            }
        }
    }
    proof {
        assert(v@.take(n as int) =~= v@);
    }
    out
}

/// Sort numbers ascending; the multiset of elements is unchanged.
pub fn sort_u32s(v: Vec<u32>) -> (r: Vec<u32>)
    ensures
        u32_seq_sorted(r@),
        r@.to_multiset() == v@.to_multiset(),
{
    broadcast use group_to_multiset_ensures;

    let n = v.len();
    let mut out: Vec<u32> = Vec::new();
    assert(v@.take(0) =~= Seq::<u32>::empty());
    for i in 0..n
        invariant
            n == v@.len(),
            u32_seq_sorted(out@),
            out@.to_multiset() =~= v@.take(i as int).to_multiset(),
    {
        let x = v[i];
        let ghost prev = out@;
        let mut p: usize = 0;
        while p < out.len() && !(x < out[p])
            invariant
                p <= out@.len(),
                out@ == prev,
                forall|k: int| 0 <= k < p ==> !(x < out@[k]),
            decreases out@.len() - p,
        {
            p += 1;
        }
        out.insert(p, x);
        proof {
            prev.insert_ensures(p as int, x);
            assert(u32_seq_sorted(out@)) by {
                assert forall|a: int, b: int|
                    0 <= a < b < out@.len() implies !((#[trigger] out@[b]) < (#[trigger] out@[a])) by {
                    if b < p {
                    } else if a < p && b == p {
                        assert(!(x < prev[a]));
                    } else if a < p {
                        assert(!(prev[b - 1] < prev[a]));
                    } else if a == p {
                        assert(x < prev[a] || a == prev.len());
                        assert(x < prev[b - 1] || b - 1 == a);
                    } else {
                        assert(!(prev[b - 1] < prev[a - 1]));
                    }
                }
            }
            lemma_to_multiset_insert(prev, p as int, x);
            assert(out@.to_multiset() =~= v@.take(i + 1).to_multiset()) by {
                assert(v@.take(i + 1) =~= v@.take(i as int).push(v@[i as int]));
                v@.take(i as int).to_multiset_ensures();
                assert(v@.take(i as int).push(v@[i as int]).to_multiset() =~= v@.take(
                    i as int,
                ).to_multiset().insert(v@[i as int]));
                assert(out@.to_multiset() =~= prev.to_multiset().insert(x));
            }
        }
    }
    proof {
        assert(v@.take(n as int) =~= v@);
    }
    out
}

/// Drop duplicates from a sorted vector: the result is strictly sorted and
/// holds exactly the same elements.
pub fn dedup_sorted_u32s(v: Vec<u32>) -> (r: Vec<u32>)
    requires
        u32_seq_sorted(v@),
    ensures
        u32_seq_strictly_sorted(r@),
        r@.to_set() == v@.to_set(),
{
    let n = v.len();
    let mut out: Vec<u32> = Vec::new();
    assert(v@.take(0) =~= Seq::<u32>::empty());
    for i in 0..n
        invariant
            n == v@.len(),
            u32_seq_sorted(v@),
            u32_seq_strictly_sorted(out@),
            out@.to_set() =~= v@.take(i as int).to_set(),
            out@.len() > 0 ==> v@.take(i as int).contains(out@[out@.len() - 1]),
    {
        let x = v[i];
        let push = if out.len() == 0 {
            true
        } else {
            let last = out[out.len() - 1];
            last != x
        };
        let ghost prev = out@;
        proof {
            assert(v@.take(i + 1) =~= v@.take(i as int).push(v@[i as int]));
            if prev.len() > 0 {
                let k = choose|k: int| 0 <= k < i && #[trigger] v@.take(i as int)[k] == prev[prev.len() - 1];
                assert(v@[k] == prev[prev.len() - 1]);
                assert(!(v@[i as int] < v@[k]));
            }
        }
        if push {
            out.push(x);
            proof {
                assert(u32_seq_strictly_sorted(out@)) by {
                    assert forall|a: int, b: int|
                        0 <= a < b < out@.len() implies (#[trigger] out@[a]) < (#[trigger] out@[b]) by {
                        if b < out@.len() - 1 {
                            assert(prev[a] < prev[b]);
                        } else if a < out@.len() - 1 {
                            assert(prev[a] < prev[prev.len() - 1] || a == prev.len() - 1);
                        }
                    }
                }
                assert(out@.to_set() =~= v@.take(i + 1).to_set()) by {
                    assert(out@ == prev.push(x));
                    assert forall|y: u32|
                        #![trigger out@.to_set().contains(y)]
                        #![trigger v@.take(i + 1).to_set().contains(y)]
                        out@.to_set().contains(y) <==> v@.take(i + 1).to_set().contains(y) by {
                        seq_push_contains(prev, x, y);
                        seq_push_contains(v@.take(i as int), v@[i as int], y);
                        assert(prev.to_set().contains(y) <==> prev.contains(y));
                        assert(v@.take(i as int).to_set().contains(y) <==> v@.take(
                            i as int,
                        ).contains(y));
                        assert(prev.contains(y) <==> v@.take(i as int).contains(y));
                    }
                }
                assert(v@.take(i + 1).contains(out@[out@.len() - 1])) by {
                    assert(v@.take(i + 1)[i as int] == x);
                }
            }
        } else {
            proof {
                assert(prev[prev.len() - 1] == x);
                assert(out@.to_set() =~= v@.take(i + 1).to_set()) by {
                    assert forall|y: u32|
                        #![trigger out@.to_set().contains(y)]
                        #![trigger v@.take(i + 1).to_set().contains(y)]
                        out@.to_set().contains(y) <==> v@.take(i + 1).to_set().contains(y) by {
                        seq_push_contains(v@.take(i as int), v@[i as int], y);
                        assert(prev.to_set().contains(y) <==> prev.contains(y));
                        assert(v@.take(i as int).to_set().contains(y) <==> v@.take(
                            i as int,
                        ).contains(y));
                        assert(prev.contains(y) <==> v@.take(i as int).contains(y));
                        if y == x {
                            assert(prev.contains(x)) by {
                                assert(prev[prev.len() - 1] == x);
                            }
                        }
                        assert(out@.contains(y) <==> v@.take(i + 1).contains(y));
                        assert(out@.to_set().contains(y) <==> out@.contains(y));
                        assert(v@.take(i + 1).to_set().contains(y) <==> v@.take(i + 1).contains(y));
                    }
                }
                assert(v@.take(i + 1).contains(out@[out@.len() - 1])) by {
                    assert(v@.take(i + 1)[i as int] == x);
                }
            }
        }
    }
    proof {
        assert(v@.take(n as int) =~= v@);
    }
    out
}

/// A pushed sequence holds an element iff the base held it or it is the one
/// pushed.
proof fn seq_push_contains<A>(s: Seq<A>, x: A, y: A)
    ensures
        s.push(x).contains(y) <==> (s.contains(y) || y == x),
{
    if s.contains(y) {
        let j = choose|j: int| 0 <= j < s.len() && #[trigger] s[j] == y;
        assert(s.push(x)[j] == y);
    }
    if s.push(x).contains(y) {
        let j = choose|j: int| 0 <= j < s.push(x).len() && #[trigger] s.push(x)[j] == y;
        if j < s.len() {
            assert(s[j] == y);
        }
    }
    assert(s.push(x)[s.len() as int] == x);
}

} // verus!
