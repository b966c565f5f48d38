//! IP prefixes and RPSL address-prefix ranges.
//!
//! An [`IpNet`] is an IPv4 or IPv6 CIDR prefix `(addr, len)`; an
//! [`AddrPfxRange`] pairs a base prefix with a [`RangeOperator`] and decides
//! whether a concrete prefix lies within the range (RFC 2622 semantics).

use vstd::prelude::*;

verus! {

/// Address family of a prefix.
#[derive(Clone, Copy, Debug, PartialEq, Eq, Structural, Hash)]
pub enum IpFamily {
    V4,
    V6,
}

impl IpFamily {
    /// Number of address bits for this family.
    pub open spec fn spec_bits(self) -> u32 {
        match self {
            IpFamily::V4 => 32,
            IpFamily::V6 => 128,
        }
    }

    /// Number of address bits for this family.
    #[verifier::when_used_as_spec(spec_bits)]
    pub fn bits(self) -> (r: u32)
        ensures
            r == self.spec_bits(),
    {
        match self {
            IpFamily::V4 => 32,
            IpFamily::V6 => 128,
        }
    }
}

/// An IPv4 or IPv6 CIDR prefix.
///
/// IPv4 addresses live in the low 32 bits of `addr`.
#[derive(Clone, Copy, Debug, PartialEq, Eq, Structural, Hash)]
pub struct IpNet {
    pub family: IpFamily,
    pub addr: u128,
    pub len: u8,
}

impl IpNet {
    /// A prefix is well formed when its length fits the family and its
    /// address fits the family's bit width.
    pub open spec fn wf(self) -> bool {
        self.len <= self.family.spec_bits()
            && (self.family == IpFamily::V4 ==> self.addr < 0x1_0000_0000u128)
    }

    /// The top `l` bits of `addr`, as a number: the part of the address that
    /// a prefix of length `l` fixes.
    pub open spec fn spec_chop(self, l: u8) -> u128 {
        if l == 0 {
            0u128
        } else {
            self.addr >> ((self.family.spec_bits() - l) as u128)
        }
    }

    /// `self` is a sub-range of `base`: at least as long, same family, and
    /// the top `base.len` bits of the addresses agree.
    pub open spec fn spec_subnet_of(self, base: IpNet) -> bool {
        self.family == base.family && self.len >= base.len && self.spec_chop(base.len)
            == base.spec_chop(base.len)
    }

    /// The top `l` bits of the address, for `l` no longer than the family
    /// width.
    pub fn chop(&self, l: u8) -> (r: u128)
        requires
            l <= self.family.spec_bits(),
        ensures
            r == self.spec_chop(l),
    {
        if l == 0 {
            0u128
        } else {
            self.addr >> ((self.family.bits() - l as u32) as u128)
        }
    }

    /// Exact bitwise containment test: `self` is a sub-range of `base`.
    pub fn subnet_of(&self, base: &IpNet) -> (r: bool)
        requires
            base.len <= base.family.spec_bits(),
        ensures
            r == self.spec_subnet_of(*base),
    {
        self.family == base.family && self.len >= base.len && self.chop(base.len) == base.chop(
            base.len,
        )
    }

    /// Rank of the family in the `(family, addr, len)` lexicographic order.
    pub open spec fn spec_family_rank(self) -> int {
        match self.family {
            IpFamily::V4 => 0,
            IpFamily::V6 => 1,
        }
    }

    /// Strict `(family, addr, len)` lexicographic order on prefixes.
    pub open spec fn spec_lt(self, other: IpNet) -> bool {
        self.spec_family_rank() < other.spec_family_rank() || (self.spec_family_rank()
            == other.spec_family_rank() && (self.addr < other.addr || (self.addr == other.addr
            && self.len < other.len)))
    }

    /// Compare two prefixes in the `(family, addr, len)` lexicographic order.
    pub fn lt(&self, other: &IpNet) -> (r: bool)
        ensures
            r == self.spec_lt(*other),
    {
        let a: u8 = match self.family {
            IpFamily::V4 => 0,
            IpFamily::V6 => 1,
        };
        let b: u8 = match other.family {
            IpFamily::V4 => 0,
            IpFamily::V6 => 1,
        };
        a < b || (a == b && (self.addr < other.addr || (self.addr == other.addr && self.len
            < other.len)))
    }
}

/// An RPSL `<address-prefix-range>` under a range operator (RFC 2622).
#[derive(Clone, Copy, Debug, PartialEq, Eq, Structural, Hash)]
pub enum RangeOperator {
    NoOp,
    LenExact(u8),
    LenRange(u8, u8),
    LessSpecific,
    LessSpecificIncl,
    MoreSpecific,
}

/// A base prefix qualified by a range operator.
#[derive(Clone, Copy, Debug, PartialEq, Eq, Structural, Hash)]
pub struct AddrPfxRange {
    pub address_prefix: IpNet,
    pub range_operator: RangeOperator,
}

impl AddrPfxRange {
    pub open spec fn wf(self) -> bool {
        self.address_prefix.wf()
    }

    /// The range predicate: a query prefix `q` lies within the range iff it
    /// has the base's family and its length satisfies the operator:
    /// `NoOp` demands exact equality; `LenExact`/`LenRange`/`MoreSpecific`
    /// demand a sub-range of the base with the stated length; `LessSpecific`
    /// and `LessSpecificIncl` demand that the base is a sub-range of `q`.
    pub open spec fn spec_contains(self, q: IpNet) -> bool {
        let base = self.address_prefix;
        q.family == base.family && match self.range_operator {
            RangeOperator::NoOp => q == base,
            RangeOperator::LenExact(n) => q.len == n && q.spec_subnet_of(base),
            RangeOperator::LenRange(a, b) => a <= q.len <= b && q.spec_subnet_of(base),
            RangeOperator::LessSpecific => q.len < base.len && base.spec_subnet_of(q),
            RangeOperator::LessSpecificIncl => q.len <= base.len && base.spec_subnet_of(q),
            RangeOperator::MoreSpecific => q.len > base.len && q.spec_subnet_of(base),
        }
    }

    /// Decide whether `q` lies within this range.
    pub fn contains(&self, q: &IpNet) -> (r: bool)
        requires
            self.wf(),
            q.wf(),
        ensures
            r == self.spec_contains(*q),
    {
        let base = &self.address_prefix;
        q.family == base.family && match self.range_operator {
            RangeOperator::NoOp => *q == *base,
            RangeOperator::LenExact(n) => q.len == n && q.subnet_of(base),
            RangeOperator::LenRange(a, b) => a <= q.len && q.len <= b && q.subnet_of(base),
            RangeOperator::LessSpecific => q.len < base.len && base.subnet_of(q),
            RangeOperator::LessSpecificIncl => q.len <= base.len && base.subnet_of(q),
            RangeOperator::MoreSpecific => q.len > base.len && q.subnet_of(base),
        }
    }
}

/// `op2` accepts every prefix `op1` accepts, over any base prefix.
pub open spec fn op_widens(op1: RangeOperator, op2: RangeOperator) -> bool {
    op1 == op2 || match (op1, op2) {
        (RangeOperator::LenExact(n), RangeOperator::LenRange(a, b)) => a <= n <= b,
        (RangeOperator::LenRange(a, b), RangeOperator::LenRange(a2, b2)) => a2 <= a && b <= b2,
        (RangeOperator::NoOp, RangeOperator::LessSpecificIncl) => true,
        (RangeOperator::LessSpecific, RangeOperator::LessSpecificIncl) => true,
        _ => false,
    }
}

/// The range predicate is monotone in the operator: widening the operator
/// never shrinks the accepted set of prefixes.
pub proof fn lemma_range_operator_monotone(
    base: IpNet,
    op1: RangeOperator,
    op2: RangeOperator,
    q: IpNet,
)
    requires
        op_widens(op1, op2),
        (AddrPfxRange { address_prefix: base, range_operator: op1 }).spec_contains(q),
    ensures
        (AddrPfxRange { address_prefix: base, range_operator: op2 }).spec_contains(q),
{
}


/// Parse the tail of a range operator after `^<digits>`: either the end of
/// the text, closing `LenExact`, or a dash and a second length, closing
/// `LenRange`. `acc` is the value read so far, `first` the finished first
/// length where one was closed by a dash.
pub open spec fn spec_op_digits(s: Seq<char>, first: Option<u8>, acc: int) -> Option<RangeOperator>
    decreases s.len(),
{
    if s.len() == 0 {
        if acc < 0 {
            None
        } else {
            match first {
                None => Some(RangeOperator::LenExact(acc as u8)),
                Some(a) => Some(RangeOperator::LenRange(a, acc as u8)),
            }
        }
    } else if '0' <= s[0] && s[0] <= '9' {
        let d = s[0] as int - '0' as int;
        let base = if acc < 0 {
            0
        } else {
            acc
        };
        if base * 10 + d > 128 {
            None
        } else {
            spec_op_digits(s.drop_first(), first, base * 10 + d)
        }
    } else if s[0] == '-' && acc >= 0 && first is None {
        spec_op_digits(s.drop_first(), Some(acc as u8), -1)
    } else {
        None
    }
}

/// What parsing a textual range operator yields: `^-` takes strictly more
/// specific prefixes, `^+` any sub-range of the base, `^n` and `^n-m` the
/// stated length windows, up to 128.
pub open spec fn spec_parse_range_op(s: Seq<char>) -> Option<RangeOperator> {
    if s.len() < 2 || s[0] != '^' {
        None
    } else if s.len() == 2 && s[1] == '-' {
        Some(RangeOperator::MoreSpecific)
    } else if s.len() == 2 && s[1] == '+' {
        Some(RangeOperator::LenRange(0, 128))
    } else {
        spec_op_digits(s.skip(1), None, -1)
    }
}

/// Parse a textual range operator.
pub fn parse_range_operator(s: &str) -> (r: Option<RangeOperator>)
    ensures
        r == spec_parse_range_op(s@),
{
    let n = s.unicode_len();
    if n < 2 || s.get_char(0) != '^' {
        return None;
    }
    if n == 2 && s.get_char(1) == '-' {
        return Some(RangeOperator::MoreSpecific);
    }
    if n == 2 && s.get_char(1) == '+' {
        return Some(RangeOperator::LenRange(0, 128));
    }
    let mut first: Option<u8> = None;
    let mut acc: i32 = -1;
    let mut i: usize = 1;
    while i < n
        invariant
            1 <= i <= n,
            n == s@.len(),
            s@[0] == '^',
            -1 <= acc <= 128,
            spec_parse_range_op(s@) == spec_op_digits(
                s@.skip(i as int),
                first,
                acc as int,
            ) || (spec_parse_range_op(s@) == spec_op_digits(s@.skip(1), None, -1)
                && spec_op_digits(s@.skip(1), None, -1) == spec_op_digits(
                s@.skip(i as int),
                first,
                acc as int,
            )),
        decreases n - i,
    {
        let c = s.get_char(i);
        proof {
            assert(s@.skip(i as int)[0] == s@[i as int]);
            assert(s@.skip(i as int).drop_first() =~= s@.skip(i + 1));
        }
        if '0' <= c && c <= '9' {
            let d = (c as u32) - 48;
            let base: i32 = if acc < 0 {
                0
            } else {
                acc
            };
            if base * 10 + (d as i32) > 128 {
                return None;
            }
            acc = base * 10 + (d as i32);
        } else if c == '-' && acc >= 0 && first.is_none() {
            first = Some(acc as u8);
            acc = -1;
        } else {
            return None;
        }
        i = i + 1;
    }
    proof {
        assert(s@.skip(n as int) =~= Seq::<char>::empty());
    }
    if acc < 0 {
        return None;
    }
    match first {
        None => Some(RangeOperator::LenExact(acc as u8)),
        Some(a) => Some(RangeOperator::LenRange(a, acc as u8)),
    }
}


/// What parsing the decimal length text from `from` to the end yields:
/// one to three digits, read as a number.
pub open spec fn spec_len_text(s: Seq<char>, from: int) -> Option<u32> {
    if 0 <= from < s.len() && s.len() - from <= 3 && crate::aut_sys::spec_all_digits(
        s.skip(from),
    ) {
        Some(crate::aut_sys::spec_digits_val(s.skip(from)) as u32)
    } else {
        None
    }
}

/// Parse the decimal length text from `from` to the end.
fn parse_len_text(s: &str, from: usize) -> (r: Option<u32>)
    requires
        from <= s@.len(),
    ensures
        r == spec_len_text(s@, from as int),
        r matches Some(v) ==> v <= 999,
{
    let n = s.unicode_len();
    if from >= n || n - from > 3 {
        return None;
    }
    let mut acc: u32 = 0;
    let mut i = from;
    while i < n
        invariant
            from <= i <= n,
            n == s@.len(),
            n - from <= 3,
            crate::aut_sys::spec_all_digits(s@.skip(from as int).take(i - from)),
            acc == crate::aut_sys::spec_digits_val(s@.skip(from as int).take(i - from)),
            i - from == 0 ==> acc == 0,
            i - from == 1 ==> acc <= 9,
            i - from == 2 ==> acc <= 99,
            i - from == 3 ==> acc <= 999,
        decreases n - i,
    {
        let c = s.get_char(i);
        proof {
            let part = s@.skip(from as int);
            assert(part.take(i - from + 1).drop_last() =~= part.take(i - from));
            assert(part.take(i - from + 1).last() == s@[i as int]);
            assert(forall|k: int|
                0 <= k < i - from + 1 ==> #[trigger] part.take(i - from + 1)[k] == part.take(
                    i - from + 1,
                )[k]);
        }
        if !('0' <= c && c <= '9') {
            proof {
                assert(!crate::aut_sys::spec_all_digits(s@.skip(from as int))) by {
                    assert(s@.skip(from as int)[i - from] == s@[i as int]);
                }
            }
            return None;
        }
        proof {
            let part = s@.skip(from as int);
            assert(crate::aut_sys::spec_all_digits(part.take(i - from + 1))) by {
                assert(forall|k: int|
                    0 <= k < i - from ==> #[trigger] part.take(i - from + 1)[k] == part.take(
                        i - from,
                    )[k]);
                assert(part.take(i - from + 1)[i - from] == s@[i as int]);
            }
        }
        acc = acc * 10 + ((c as u32) - 48);
        i = i + 1;
    }
    proof {
        assert(s@.skip(from as int).take(n - from) =~= s@.skip(from as int));
    }
    Some(acc)
}

/// What the dotted-quad scan yields from state `(i, addr, octet, digits,
/// dots)`: four dot-separated groups of one to three digits, each at most
/// 255, read big-endian.
pub open spec fn spec_v4_scan(
    s: Seq<char>,
    to: int,
    i: int,
    addr: int,
    octet: int,
    digits: int,
    dots: int,
) -> Option<u32>
    decreases to - i,
{
    if !(0 <= i <= to <= s.len()) {
        None
    } else if i == to {
        if dots == 3 && digits > 0 {
            Some((addr * 256 + octet) as u32)
        } else {
            None
        }
    } else {
        let c = s[i];
        if '0' <= c && c <= '9' {
            if digits >= 3 {
                None
            } else {
                let v = octet * 10 + (c as int - '0' as int);
                if v > 255 {
                    None
                } else {
                    spec_v4_scan(s, to, i + 1, addr, v, digits + 1, dots)
                }
            }
        } else if c == '.' {
            if digits == 0 || dots >= 3 {
                None
            } else {
                spec_v4_scan(s, to, i + 1, addr * 256 + octet, 0, 0, dots + 1)
            }
        } else {
            None
        }
    }
}

/// Parse a dotted-quad IPv4 address from the text before `to`.
fn parse_v4_addr(s: &str, to: usize) -> (r: Option<u32>)
    requires
        to <= s@.len(),
    ensures
        r == spec_v4_scan(s@, to as int, 0, 0, 0, 0, 0),
{
    let mut addr: u32 = 0;
    let mut octet: u32 = 0;
    let mut digits: usize = 0;
    let mut dots: usize = 0;
    let mut i: usize = 0;
    while i < to
        invariant
            i <= to,
            to <= s@.len(),
            octet <= 255,
            digits <= 3,
            dots <= 3,
            dots == 0 ==> addr == 0,
            dots == 1 ==> addr <= 0xff,
            dots == 2 ==> addr <= 0xffff,
            dots == 3 ==> addr <= 0xffffff,
            spec_v4_scan(s@, to as int, 0, 0, 0, 0, 0) == spec_v4_scan(
                s@,
                to as int,
                i as int,
                addr as int,
                octet as int,
                digits as int,
                dots as int,
            ),
        decreases to - i,
    {
        let c = s.get_char(i);
        if '0' <= c && c <= '9' {
            if digits >= 3 {
                return None;
            }
            let v = octet * 10 + ((c as u32) - 48);
            if v > 255 {
                return None;
            }
            octet = v;
            digits = digits + 1;
        } else if c == '.' {
            if digits == 0 || dots >= 3 {
                return None;
            }
            addr = addr * 256 + octet;
            octet = 0;
            digits = 0;
            dots = dots + 1;
        } else {
            return None;
        }
        i = i + 1;
    }
    if dots != 3 || digits == 0 {
        return None;
    }
    Some(addr * 256 + octet)
}

/// Value of one hexadecimal digit.
pub open spec fn spec_hex_val(c: char) -> Option<u32> {
    if '0' <= c && c <= '9' {
        Some((c as int - '0' as int) as u32)
    } else if 'a' <= c && c <= 'f' {
        Some((c as int - 'a' as int + 10) as u32)
    } else if 'A' <= c && c <= 'F' {
        Some((c as int - 'A' as int + 10) as u32)
    } else {
        None
    }
}

fn hex_val(c: char) -> (r: Option<u32>)
    ensures
        r == spec_hex_val(c),
        r matches Some(v) ==> v < 16,
{
    if '0' <= c && c <= '9' {
        Some((c as u32) - 48)
    } else if 'a' <= c && c <= 'f' {
        Some((c as u32) - 87)
    } else if 'A' <= c && c <= 'F' {
        Some((c as u32) - 55)
    } else {
        None
    }
}

/// The number eight colon-separated 16-bit groups denote, big-endian.
pub open spec fn spec_v6_value(gs: Seq<u16>) -> int
    decreases gs.len(),
{
    if gs.len() == 0 {
        0
    } else {
        spec_v6_value(gs.drop_last()) * 0x10000 + gs.last()
    }
}

/// Close the group scan: with a `::` gap the front and back groups flank
/// the zeros the gap stands for; without one exactly eight groups are
/// owed.
pub open spec fn spec_v6_finish(front: Seq<u16>, back: Seq<u16>, has_gap: bool) -> Option<u128> {
    if has_gap {
        if front.len() + back.len() > 7 {
            None
        } else {
            Some(
                spec_v6_value(
                    front + Seq::new((8 - front.len() - back.len()) as nat, |z: int| 0u16) + back,
                ) as u128,
            )
        }
    } else {
        if front.len() != 8 {
            None
        } else {
            Some(spec_v6_value(front) as u128)
        }
    }
}

/// What the IPv6 group scan yields from state `(i, front, back, has_gap,
/// group, digits)`: hexadecimal groups of at most four digits separated by
/// colons, with at most one `::` gap and no trailing or doubled separator.
pub open spec fn spec_v6_scan(
    s: Seq<char>,
    to: int,
    i: int,
    front: Seq<u16>,
    back: Seq<u16>,
    has_gap: bool,
    group: int,
    digits: int,
) -> Option<u128>
    decreases to - i,
{
    if !(0 <= i <= to <= s.len()) {
        None
    } else if i == to {
        if digits > 0 {
            if has_gap {
                spec_v6_finish(front, back.push((group as u16)), has_gap)
            } else {
                spec_v6_finish(front.push((group as u16)), back, has_gap)
            }
        } else {
            spec_v6_finish(front, back, has_gap)
        }
    } else {
        let c = s[i];
        if c == ':' {
            if digits == 0 {
                None
            } else {
                let front2 = if has_gap {
                    front
                } else {
                    front.push((group as u16))
                };
                let back2 = if has_gap {
                    back.push((group as u16))
                } else {
                    back
                };
                if i + 1 < to && s[i + 1] == ':' {
                    if has_gap {
                        None
                    } else {
                        spec_v6_scan(s, to, i + 2, front2, back2, true, 0, 0)
                    }
                } else if i + 1 >= to {
                    None
                } else {
                    spec_v6_scan(s, to, i + 1, front2, back2, has_gap, 0, 0)
                }
            }
        } else {
            match spec_hex_val(c) {
                Some(v) => if digits >= 4 {
                    None
                } else {
                    spec_v6_scan(s, to, i + 1, front, back, has_gap, group * 16 + v, digits + 1)
                },
                None => None,
            }
        }
    }
}

/// What parsing the text before `to` as an IPv6 address yields.
pub open spec fn spec_parse_v6(s: Seq<char>, to: int) -> Option<u128> {
    if to >= 2 && 2 <= s.len() && s[0] == ':' && s[1] == ':' {
        spec_v6_scan(s, to, 2, Seq::empty(), Seq::empty(), true, 0, 0)
    } else {
        spec_v6_scan(s, to, 0, Seq::empty(), Seq::empty(), false, 0, 0)
    }
}

/// Parse an IPv6 address in the colon-separated hexadecimal form, with one
/// optional `::` gap; embedded IPv4 tails are not read.
fn parse_v6_addr(s: &str, to: usize) -> (r: Option<u128>)
    requires
        to <= s@.len(),
    ensures
        r == spec_parse_v6(s@, to as int),
{
    let mut front: Vec<u16> = Vec::new();
    let mut back: Vec<u16> = Vec::new();
    let mut has_gap = false;
    let mut i: usize = 0;
    if to >= 2 && s.get_char(0) == ':' && s.get_char(1) == ':' {
        has_gap = true;
        i = 2;
    }
    let mut group: u32 = 0;
    let mut digits: usize = 0;
    while i < to
        invariant
            i <= to,
            to <= s@.len(),
            digits <= 4,
            digits == 0 ==> group == 0,
            digits == 1 ==> group <= 0xf,
            digits == 2 ==> group <= 0xff,
            digits == 3 ==> group <= 0xfff,
            group <= 0xffff,
            front@.len() + back@.len() <= i,
            spec_parse_v6(s@, to as int) == spec_v6_scan(
                s@,
                to as int,
                i as int,
                front@,
                back@,
                has_gap,
                group as int,
                digits as int,
            ),
        decreases to - i,
    {
        let c = s.get_char(i);
        if c == ':' {
            if digits == 0 {
                return None;
            }
            if has_gap {
                back.push(group as u16);
            } else {
                front.push(group as u16);
            }
            group = 0;
            digits = 0;
            if i + 1 < to && s.get_char(i + 1) == ':' {
                if has_gap {
                    return None;
                }
                has_gap = true;
                i = i + 2;
            } else {
                if i + 1 >= to {
                    return None;
                }
                i = i + 1;
            }
        } else {
            match hex_val(c) {
                Some(v) => {
                    if digits >= 4 {
                        return None;
                    }
                    group = group * 16 + v;
                    digits = digits + 1;
                    i = i + 1;
                },
                None => {
                    return None;
                },
            }
        }
    }
    if digits > 0 {
        if has_gap {
            back.push(group as u16);
        } else {
            front.push(group as u16);
        }
    }
    proof {
        assert(spec_parse_v6(s@, to as int) == spec_v6_finish(front@, back@, has_gap));
    }
    let f = front.len();
    let b = back.len();
    if has_gap {
        if f > 7 || b > 7 {
            return None;
        }
        if f + b > 7 {
            return None;
        }
    } else {
        if f != 8 {
            return None;
        }
    }
    let mut all: Vec<u16> = Vec::new();
    let mut k: usize = 0;
    while k < f
        invariant
            k <= f,
            f == front@.len(),
            all@ == front@.take(k as int),
        decreases f - k,
    {
        all.push(front[k]);
        proof {
            assert(front@.take(k + 1) =~= front@.take(k as int).push(front@[k as int]));
        }
        k = k + 1;
    }
    proof {
        assert(front@.take(f as int) =~= front@);
    }
    if has_gap {
        let zeros = 8 - f - b;
        let mut z: usize = 0;
        while z < zeros
            invariant
                z <= zeros,
                zeros == 8 - f - b,
                f + b <= 7,
                f == front@.len(),
                all@ == front@ + Seq::new(z as nat, |x: int| 0u16),
            decreases zeros - z,
        {
            all.push(0);
            proof {
                assert(front@ + Seq::new((z + 1) as nat, |x: int| 0u16) =~= (front@ + Seq::new(
                    z as nat,
                    |x: int| 0u16,
                )).push(0u16));
            }
            z = z + 1;
        }
        let mut j: usize = 0;
        while j < b
            invariant
                j <= b,
                b == back@.len(),
                f == front@.len(),
                f + b <= 7,
                all@ == front@ + Seq::new((8 - f - b) as nat, |x: int| 0u16) + back@.take(j as int),
            decreases b - j,
        {
            all.push(back[j]);
            proof {
                assert(front@ + Seq::new((8 - f - b) as nat, |x: int| 0u16) + back@.take(j + 1)
                    =~= (front@ + Seq::new((8 - f - b) as nat, |x: int| 0u16) + back@.take(
                    j as int,
                )).push(back@[j as int]));
            }
            j = j + 1;
        }
        proof {
            assert(back@.take(b as int) =~= back@);
        }
    }
    if all.len() != 8 {
        return None;
    }
    let mut addr: u128 = 0;
    let mut g: usize = 0;
    while g < 8
        invariant
            g <= 8,
            all@.len() == 8,
            addr == spec_v6_value(all@.take(g as int)),
            g == 0 ==> addr == 0,
            g == 1 ==> addr < 0x10000,
            g == 2 ==> addr < 0x100000000,
            g == 3 ==> addr < 0x1000000000000,
            g == 4 ==> addr < 0x10000000000000000,
            g == 5 ==> addr < 0x100000000000000000000,
            g == 6 ==> addr < 0x1000000000000000000000000,
            g == 7 ==> addr < 0x10000000000000000000000000000,
        decreases 8 - g,
    {
        proof {
            assert(all@.take(g + 1).drop_last() =~= all@.take(g as int));
            assert(all@.take(g + 1).last() == all@[g as int]);
        }
        addr = addr * 0x10000 + (all[g] as u128);
        g = g + 1;
    }
    proof {
        assert(all@.take(8) =~= all@);
    }
    Some(addr)
}

/// Scan for the slash and the address family: one slash is owed, a colon
/// anywhere marks the text as IPv6.
pub open spec fn spec_slash_scan(s: Seq<char>, i: int, slash: Option<int>, v6: bool) -> Option<
    (int, bool),
>
    decreases s.len() - i,
{
    if !(0 <= i <= s.len()) {
        None
    } else if i == s.len() {
        match slash {
            Some(k) => Some((k, v6)),
            None => None,
        }
    } else if s[i] == '/' {
        if slash is Some {
            None
        } else {
            spec_slash_scan(s, i + 1, Some(i), v6)
        }
    } else if s[i] == ':' {
        spec_slash_scan(s, i + 1, slash, true)
    } else {
        spec_slash_scan(s, i + 1, slash, v6)
    }
}

/// What parsing a textual CIDR prefix yields: the address before the one
/// slash, read as IPv6 when a colon occurs and as a dotted quad
/// otherwise, and the length after it, bounded by the family's width.
pub open spec fn spec_parse_ip_net(s: Seq<char>) -> Option<IpNet> {
    match spec_slash_scan(s, 0, None, false) {
        None => None,
        Some((k, v6)) => match spec_len_text(s, k + 1) {
            None => None,
            Some(len) => if v6 {
                if len > 128 {
                    None
                } else {
                    match spec_parse_v6(s, k) {
                        Some(addr) => Some(IpNet { family: IpFamily::V6, addr, len: len as u8 }),
                        None => None,
                    }
                }
            } else {
                if len > 32 {
                    None
                } else {
                    match spec_v4_scan(s, k, 0, 0, 0, 0, 0) {
                        Some(addr) => Some(
                            IpNet { family: IpFamily::V4, addr: addr as u128, len: len as u8 },
                        ),
                        None => None,
                    }
                }
            },
        },
    }
}

/// Parse a CIDR prefix in its text form, IPv4 or IPv6: exactly the prefix
/// [`spec_parse_ip_net`] reads, always well formed.
pub fn parse_ip_net(s: &str) -> (r: Option<IpNet>)
    ensures
        r == spec_parse_ip_net(s@),
        r matches Some(net) ==> net.wf(),
{
    let n = s.unicode_len();
    let mut slash: usize = n;
    let mut v6 = false;
    let mut i: usize = 0;
    while i < n
        invariant
            i <= n,
            n == s@.len(),
            slash <= n,
            spec_slash_scan(s@, 0, None, false) == spec_slash_scan(
                s@,
                i as int,
                if slash < n {
                    Some(slash as int)
                } else {
                    None
                },
                v6,
            ),
        decreases n - i,
    {
        let c = s.get_char(i);
        if c == '/' {
            if slash < n {
                proof {
                    assert(spec_slash_scan(s@, 0, None, false) is None);
                }
                return None;
            }
            slash = i;
        } else if c == ':' {
            v6 = true;
        }
        i = i + 1;
    }
    if slash >= n {
        return None;
    }
    let len = match parse_len_text(s, slash + 1) {
        Some(v) => v,
        None => {
            return None;
        },
    };
    if v6 {
        if len > 128 {
            return None;
        }
        match parse_v6_addr(s, slash) {
            Some(addr) => Some(IpNet { family: IpFamily::V6, addr, len: len as u8 }),
            None => None,
        }
    } else {
        if len > 32 {
            return None;
        }
        match parse_v4_addr(s, slash) {
            Some(addr) => Some(IpNet { family: IpFamily::V4, addr: addr as u128, len: len as u8 }),
            None => None,
        }
    }
}


/// The first caret of the text, where one occurs.
pub open spec fn spec_first_caret(s: Seq<char>, i: int) -> Option<int>
    decreases s.len() - i,
{
    if !(0 <= i < s.len()) {
        None
    } else if s[i] == '^' {
        Some(i)
    } else {
        spec_first_caret(s, i + 1)
    }
}

/// What parsing an `<address-prefix-range>` text yields: a prefix,
/// optionally followed by a range operator at the first caret.
pub open spec fn spec_parse_addr_pfx_range(s: Seq<char>) -> Option<AddrPfxRange> {
    match spec_first_caret(s, 0) {
        None => match spec_parse_ip_net(s) {
            Some(net) => Some(
                AddrPfxRange { address_prefix: net, range_operator: RangeOperator::NoOp },
            ),
            None => None,
        },
        Some(k) => match spec_parse_ip_net(s.subrange(0, k)) {
            Some(net) => match spec_parse_range_op(s.skip(k)) {
                Some(op) => Some(AddrPfxRange { address_prefix: net, range_operator: op }),
                None => None,
            },
            None => None,
        },
    }
}

/// Parse an `<address-prefix-range>` text: a prefix, optionally followed
/// by a range operator.
pub fn parse_addr_pfx_range(s: &str) -> (r: Option<AddrPfxRange>)
    ensures
        r == spec_parse_addr_pfx_range(s@),
        r matches Some(range) ==> range.wf(),
{
    let n = s.unicode_len();
    let mut caret: Option<usize> = None;
    let mut i: usize = 0;
    while i < n
        invariant
            i <= n,
            n == s@.len(),
            caret matches Some(k) ==> k < n,
            spec_first_caret(s@, 0) == (match caret {
                Some(k) => Some(k as int),
                None => spec_first_caret(s@, i as int),
            }),
        decreases n - i,
    {
        if caret.is_none() && s.get_char(i) == '^' {
            caret = Some(i);
        }
        i = i + 1;
    }
    match caret {
        None => match parse_ip_net(s) {
            Some(net) => Some(
                AddrPfxRange { address_prefix: net, range_operator: RangeOperator::NoOp },
            ),
            None => None,
        },
        Some(k) => {
            let prefix_text = s.substring_char(0, k);
            let op_text = s.substring_char(k, n);
            proof {
                assert(prefix_text@ =~= s@.subrange(0, k as int));
                assert(op_text@ =~= s@.skip(k as int));
            }
            match parse_ip_net(prefix_text) {
                Some(net) => match parse_range_operator(op_text) {
                    Some(op) => Some(AddrPfxRange { address_prefix: net, range_operator: op }),
                    None => None,
                },
                None => None,
            }
        },
    }
}

} // verus!
