//! Named RPSL set objects: as-set, route-set, peering-set, filter-set
//! (RFC 2622 sections 5.1, 5.2, 5.6).

use vstd::prelude::*;

use crate::filter::Filter;
use crate::ip::{AddrPfxRange, RangeOperator};
use crate::peering::Peering;
use crate::ip::{parse_addr_pfx_range, parse_range_operator, spec_parse_addr_pfx_range, spec_parse_range_op};
use crate::sort::{dedup_sorted_u32s, sort_u32s, u32_seq_strictly_sorted};

verus! {

/// A named set of AS numbers and of further as-set names.
#[derive(Debug)]
pub struct AsSet {
    pub body: String,
    /// AS numbers; kept strictly sorted ascending, duplicate-free.
    pub members: Vec<u32>,
    pub set_members: Vec<String>,
}

impl AsSet {
    /// Build an as-set; the member numbers are sorted strictly ascending,
    /// duplicates dropped.
    pub fn new(body: String, members: Vec<u32>, set_members: Vec<String>) -> (r: Self)
        ensures
            r.body == body,
            u32_seq_strictly_sorted(r.members@),
            r.members@.to_set() == members@.to_set(),
            r.set_members == set_members,
    {
        let ghost orig = members@;
        let sorted = sort_u32s(members);
        proof {
            crate::query::lemma_same_multiset_same_set(sorted@, orig);
        }
        AsSet { body, members: dedup_sorted_u32s(sorted), set_members }
    }
}

/// A named set of prefix ranges and of further route-set names.
#[derive(Debug)]
pub struct RouteSet {
    pub body: String,
    pub members: Vec<RouteSetMember>,
}

/// One member of a route-set.
#[derive(Debug, PartialEq, Eq)]
pub enum RouteSetMember {
    /// `<address-prefix-range>`
    Range(AddrPfxRange),
    /// `<route-set-name>` with an optional `<range-operator>`
    NameOp(String, RangeOperator),
}

impl RouteSetMember {
    /// A range member's base prefix is well formed.
    pub open spec fn wf(self) -> bool {
        match self {
            RouteSetMember::Range(r) => r.wf(),
            RouteSetMember::NameOp(_, _) => true,
        }
    }
}

impl RouteSet {
    pub open spec fn wf(self) -> bool {
        forall|i: int| 0 <= i < self.members@.len() ==> (#[trigger] self.members@[i]).wf()
    }
}

impl FilterSet {
    pub open spec fn wf(self) -> bool {
        forall|i: int| 0 <= i < self.filters@.len() ==> (#[trigger] self.filters@[i]).wf()
    }
}

/// Copy a route-set member; the copy holds the same value.
pub fn clone_route_set_member(m: &RouteSetMember) -> (r: RouteSetMember)
    ensures
        r == *m,
{
    match m {
        RouteSetMember::Range(range) => RouteSetMember::Range(*range),
        RouteSetMember::NameOp(name, op) => RouteSetMember::NameOp(name.clone(), *op),
    }
}

/// A named set of peerings.
#[derive(Debug)]
pub struct PeeringSet {
    pub body: String,
    pub peerings: Vec<Peering>,
}

/// A named, reusable filter expression.
#[derive(Debug)]
pub struct FilterSet {
    pub body: String,
    pub filters: Vec<Filter>,
}


/// A whitespace character, as the set-name forms exclude.
pub open spec fn spec_is_space(c: char) -> bool {
    c == ' ' || c == '\t' || c == '\n' || c == '\r' || c == '\u{b}' || c == '\u{c}'
}

/// `c` is the letter `l` in either case; `l` is given in lower case.
pub open spec fn spec_ci(c: char, l: char) -> bool {
    c == l || c as int == l as int - 32
}

/// After `AS`, a run of at least one digit and then a colon: the rest of
/// the text follows the colon.
pub open spec fn spec_after_digits_colon(s: Seq<char>, seen: bool) -> Option<Seq<char>>
    decreases s.len(),
{
    if s.len() == 0 {
        None
    } else if '0' <= s[0] && s[0] <= '9' {
        spec_after_digits_colon(s.drop_first(), true)
    } else if s[0] == ':' && seen {
        Some(s.drop_first())
    } else {
        None
    }
}

/// The text after an `AS<digits>:` prefix, if it has one.
pub open spec fn spec_as_prefix_rest(s: Seq<char>) -> Option<Seq<char>> {
    if s.len() >= 2 && spec_ci(s[0], 'a') && spec_ci(s[1], 's') {
        spec_after_digits_colon(s.skip(2), false)
    } else {
        None
    }
}

/// The body of a route-set name: `rs-` and at least one further character,
/// none of them whitespace, case-insensitive on the letters.
pub open spec fn spec_rs_body(s: Seq<char>) -> bool {
    s.len() >= 4 && spec_ci(s[0], 'r') && spec_ci(s[1], 's') && s[2] == '-' && forall|i: int|
        3 <= i < s.len() ==> !spec_is_space(#[trigger] s[i])
}

/// A route-set name: an `rs-` body, optionally behind an `AS<digits>:`
/// prefix.
pub open spec fn spec_is_route_set_name(s: Seq<char>) -> bool {
    spec_rs_body(s) || match spec_as_prefix_rest(s) {
        Some(rest) => spec_rs_body(rest),
        None => false,
    }
}

/// Where an `AS<digits>:` prefix ends: the index after its colon.
pub(crate) fn as_prefix_rest_index(s: &str) -> (r: Option<usize>)
    ensures
        match r {
            Some(k) => 2 <= k <= s@.len() && spec_as_prefix_rest(s@) == Some(s@.skip(k as int)),
            None => spec_as_prefix_rest(s@) is None,
        },
{
    let n = s.unicode_len();
    if n < 2 {
        return None;
    }
    let c0 = s.get_char(0);
    let c1 = s.get_char(1);
    if !((c0 == 'a' || c0 == 'A') && (c1 == 's' || c1 == 'S')) {
        return None;
    }
    proof {
        assert(spec_ci(s@[0], 'a') && spec_ci(s@[1], 's'));
    }
    let mut i: usize = 2;
    while i < n
        invariant
            2 <= i <= n,
            n == s@.len(),
            spec_as_prefix_rest(s@) == spec_after_digits_colon(s@.skip(i as int), i > 2),
        decreases n - i,
    {
        let c = s.get_char(i);
        proof {
            assert(s@.skip(i as int)[0] == s@[i as int]);
            assert(s@.skip(i as int).drop_first() =~= s@.skip(i + 1));
        }
        if '0' <= c && c <= '9' {
            i = i + 1;
        } else if c == ':' && i > 2 {
            return Some(i + 1);
        } else {
            return None;
        }
    }
    proof {
        assert(s@.skip(n as int) =~= Seq::<char>::empty());
    }
    None
}

/// Whether the text from `k` on is an `rs-` body.
fn rs_body_at(s: &str, k: usize) -> (r: bool)
    requires
        k <= s@.len(),
    ensures
        r == spec_rs_body(s@.skip(k as int)),
{
    let n = s.unicode_len();
    if n - k < 4 {
        return false;
    }
    let c0 = s.get_char(k);
    let c1 = s.get_char(k + 1);
    let c2 = s.get_char(k + 2);
    proof {
        assert(s@.skip(k as int)[0] == s@[k as int]);
        assert(s@.skip(k as int)[1] == s@[k + 1]);
        assert(s@.skip(k as int)[2] == s@[k + 2]);
    }
    if !((c0 == 'r' || c0 == 'R') && (c1 == 's' || c1 == 'S') && c2 == '-') {
        return false;
    }
    let mut i: usize = k + 3;
    while i < n
        invariant
            k + 3 <= i <= n,
            n == s@.len(),
            forall|j: int| 3 <= j < i - k ==> !spec_is_space(#[trigger] s@.skip(k as int)[j]),
        decreases n - i,
    {
        let c = s.get_char(i);
        proof {
            assert(s@.skip(k as int)[i - k] == s@[i as int]);
        }
        if c == ' ' || c == '\t' || c == '\n' || c == '\r' || c == '\u{b}' || c == '\u{c}' {
            return false;
        }
        i = i + 1;
    }
    true
}

/// Whether the text names a route-set (RFC 2622 section 5.2 name form).
pub fn is_route_set_name(attr: &str) -> (r: bool)
    ensures
        r == spec_is_route_set_name(attr@),
{
    proof {
        assert(attr@.skip(0) =~= attr@);
    }
    if rs_body_at(attr, 0) {
        return true;
    }
    match as_prefix_rest_index(attr) {
        Some(k) => rs_body_at(attr, k),
        None => false,
    }
}

/// An operator character: a digit, `-` or `+`.
pub open spec fn spec_is_op_char(c: char) -> bool {
    c == '-' || c == '+' || ('0' <= c && c <= '9')
}

/// Whether `c` is a whitespace character.
pub fn is_space_char(c: char) -> (r: bool)
    ensures
        r == spec_is_space(c),
{
    c == ' ' || c == '\t' || c == '\n' || c == '\r' || c == '\u{b}' || c == '\u{c}'
}

/// Whether `c` can stand in a range operator.
pub fn is_op_char(c: char) -> (r: bool)
    ensures
        r == spec_is_op_char(c),
{
    c == '-' || c == '+' || ('0' <= c && c <= '9')
}

/// The end of the non-space run starting at `i`.
pub open spec fn spec_run_end(s: Seq<char>, i: int) -> int
    decreases s.len() - i,
{
    if !(0 <= i < s.len()) {
        i
    } else if spec_is_space(s[i]) {
        i
    } else {
        spec_run_end(s, i + 1)
    }
}

/// A position where a range operator can start: a caret with an operator
/// character after it.
pub open spec fn spec_valid_caret(s: Seq<char>, k: int) -> bool {
    0 <= k && k + 1 < s.len() && s[k] == '^' && spec_is_op_char(s[k + 1])
}

/// The last operator-starting caret at or before `j` that leaves a stem
/// after `p`.
pub open spec fn spec_best_caret(s: Seq<char>, p: int, j: int) -> Option<int>
    decreases j - p,
{
    if j <= p {
        None
    } else if spec_valid_caret(s, j) {
        Some(j)
    } else {
        spec_best_caret(s, p, j - 1)
    }
}

/// The end of the operator-character run starting at `m`.
pub open spec fn spec_op_end(s: Seq<char>, m: int) -> int
    decreases s.len() - m,
{
    if !(0 <= m < s.len()) {
        m
    } else if spec_is_op_char(s[m]) {
        spec_op_end(s, m + 1)
    } else {
        m
    }
}

/// Where a member text splits into stem and operator: the first non-space
/// run that holds an operator-starting caret after its first character
/// gives the stem from the run's start to the last such caret, and the
/// operator from that caret through the operator characters after it.
/// Text after the operator is ignored; runs without such a caret are
/// passed over.
pub open spec fn spec_find_split(s: Seq<char>, i: int) -> Option<(int, int, int)>
    decreases s.len() - i,
{
    if !(0 <= i < s.len()) {
        None
    } else if spec_is_space(s[i]) {
        spec_find_split(s, i + 1)
    } else {
        let e = spec_run_end(s, i);
        match spec_best_caret(s, i, e - 1) {
            Some(k) => Some((i, k, spec_op_end(s, k + 2))),
            None => if e <= i || e > s.len() {
                None
            } else {
                spec_find_split(s, e)
            },
        }
    }
}

/// Split a member text into its stem and its range-operator text, the way
/// an unanchored search for a non-space stem followed by `^` and operator
/// characters reads it: the stem runs from the start of the first
/// candidate run to the last operator-starting caret in it, and trailing
/// text after the operator characters is ignored.
pub fn get_name_operator<'a>(s: &'a str) -> (r: Option<(&'a str, &'a str)>)
    ensures
        match r {
            Some((name, op)) => spec_find_split(s@, 0) matches Some((p, k, m)) && name@
                == s@.subrange(p, k) && op@ == s@.subrange(k, m),
            None => spec_find_split(s@, 0) is None,
        },
{
    let n = s.unicode_len();
    let mut i: usize = 0;
    while i < n
        invariant
            i <= n,
            n == s@.len(),
            spec_find_split(s@, 0) == spec_find_split(s@, i as int),
        decreases n - i,
    {
        let c = s.get_char(i);
        if c == ' ' || c == '\t' || c == '\n' || c == '\r' || c == '\u{b}' || c == '\u{c}' {
            i = i + 1;
        } else {
            let run_start = i;
            let mut j = i;
            let mut best: Option<usize> = None;
            while j < n && !is_space_char(s.get_char(j))
                invariant
                    run_start <= j <= n,
                    n == s@.len(),
                    run_start < n,
                    !spec_is_space(s@[run_start as int]),
                    spec_run_end(s@, run_start as int) == spec_run_end(s@, j as int),
                    (match best {
                        Some(k) => Some(k as int),
                        None => None,
                    }) == spec_best_caret(s@, run_start as int, j - 1),
                    best matches Some(k) ==> run_start < k < j && k + 1 < n,
                decreases n - j,
            {
                if j > run_start && s.get_char(j) == '^' && j + 1 < n {
                    let next = s.get_char(j + 1);
                    if next == '-' || next == '+' || ('0' <= next && next <= '9') {
                        best = Some(j);
                    }
                }
                j = j + 1;
            }
            proof {
                assert(spec_run_end(s@, j as int) == j);
            }
            match best {
                Some(k) => {
                    let mut m = k + 2;
                    while m < n && is_op_char(s.get_char(m))
                        invariant
                            k + 2 <= m <= n,
                            n == s@.len(),
                            spec_op_end(s@, k + 2) == spec_op_end(s@, m as int),
                        decreases n - m,
                    {
                        m = m + 1;
                    }
                    proof {
                        assert(spec_op_end(s@, m as int) == m);
                        assert(spec_find_split(s@, run_start as int) == Some(
                            (run_start as int, k as int, m as int),
                        ));
                    }
                    let name = s.substring_char(run_start, k);
                    let op = s.substring_char(k, m);
                    proof {
                        assert(name@ =~= s@.subrange(run_start as int, k as int));
                        assert(op@ =~= s@.subrange(k as int, m as int));
                    }
                    return Some((name, op));
                },
                None => {
                    proof {
                        assert(spec_find_split(s@, run_start as int) == spec_find_split(
                            s@,
                            j as int,
                        ));
                    }
                    i = j;
                },
            }
        }
    }
    None
}

/// Parse a member text of the form `<stem>^<range-operator>`: the stem and
/// operator are found as [`get_name_operator`] reads them, and the
/// operator text must be a valid range operator.
pub fn try_parse_name_operator<'a>(s: &'a str) -> (r: Option<(&'a str, RangeOperator)>)
    ensures
        match r {
            Some((name, op)) => spec_find_split(s@, 0) matches Some((p, k, m)) && name@
                == s@.subrange(p, k) && Some(op) == spec_parse_range_op(s@.subrange(k, m)),
            None => spec_find_split(s@, 0) is None || (spec_find_split(s@, 0) matches Some(
                (p, k, m),
            ) && spec_parse_range_op(s@.subrange(k, m)) is None),
        },
{
    match get_name_operator(s) {
        Some((name, op_text)) => match parse_range_operator(op_text) {
            Some(op) => Some((name, op)),
            None => None,
        },
        None => None,
    }
}


/// Mathematical form of a route-set member.
pub enum RouteSetMemberView {
    Range(AddrPfxRange),
    NameOp(Seq<char>, RangeOperator),
}

impl View for RouteSetMember {
    type V = RouteSetMemberView;

    open spec fn view(&self) -> RouteSetMemberView {
        match self {
            RouteSetMember::Range(range) => RouteSetMemberView::Range(*range),
            RouteSetMember::NameOp(name, op) => RouteSetMemberView::NameOp(name@, *op),
        }
    }
}

/// What parsing a route-set member text yields: an address-prefix range
/// where the text reads as one, else a named member with its operator
/// where the text splits as `<stem>^<operator>`, else the bare text as a
/// name with no operator.
pub open spec fn spec_parse_route_set_member(s: Seq<char>) -> RouteSetMemberView {
    match spec_parse_addr_pfx_range(s) {
        Some(range) => RouteSetMemberView::Range(range),
        None => match spec_find_split(s, 0) {
            Some((p, k, m)) => match spec_parse_range_op(s.subrange(k, m)) {
                Some(op) => RouteSetMemberView::NameOp(s.subrange(p, k), op),
                None => RouteSetMemberView::NameOp(s, RangeOperator::NoOp),
            },
            None => RouteSetMemberView::NameOp(s, RangeOperator::NoOp),
        },
    }
}

/// Parse one route-set member text.
pub fn parse_route_set_member(value: String) -> (r: RouteSetMember)
    ensures
        r@ == spec_parse_route_set_member(value@),
{
    match parse_addr_pfx_range(value.as_str()) {
        Some(range) => RouteSetMember::Range(range),
        None => match try_parse_name_operator(value.as_str()) {
            Some((name, op)) => RouteSetMember::NameOp(name.to_owned(), op),
            None => RouteSetMember::NameOp(value, RangeOperator::NoOp),
        },
    }
}

} // verus!
