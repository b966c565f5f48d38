//! One line of a table dump and its evaluation state.
//!
//! A line is the text an external table-dump reader emits for one
//! announcement: comma-separated fields of which the sixth holds the
//! prefix and the seventh the AS path, origin last. Reading the dump is
//! the caller's business; this module only parses the line's fields and
//! carries the verdicts.

use vstd::prelude::*;

use crate::cmp::{spec_reports_from, Compare, Verbosity};
use crate::ip::{parse_ip_net, spec_parse_ip_net, IpNet};
use crate::query::QueryDump;
use crate::report::Report;

verus! {

/// A line of a table dump, its parsed observation, and the reports
/// generated for it.
#[derive(Debug)]
pub struct Line {
    pub raw: String,
    pub compare: Compare,
    /// Slot for the generated report about this line.
    pub report: Option<Vec<Report>>,
}

impl Line {
    pub fn new(raw: String, compare: Compare, report: Option<Vec<Report>>) -> (r: Self)
        ensures
            r.raw == raw,
            r.compare == compare,
            r.report == report,
    {
        Line { raw, compare, report }
    }

    /// Parse one raw table-dump line: exactly the observation
    /// [`spec_with_line_dump`] reads from it, the line kept verbatim and
    /// the report slot empty; a line that does not parse is rejected.
    pub fn from_raw(raw: String) -> (r: Option<Self>)
        ensures
            match r {
                Some(line) => {
                    &&& spec_with_line_dump(raw@) == Some(
                        (line.compare.prefix, line.compare.as_path@),
                    )
                    &&& line.compare.verbosity == (Verbosity {
                        stop_at_first: false,
                        show_skips: false,
                        show_success: false,
                    })
                    &&& line.compare.wf()
                    &&& line.raw == raw
                    &&& line.report is None
                },
                None => spec_with_line_dump(raw@) is None,
            },
    {
        match Compare::with_line_dump(raw.as_str()) {
            Some(compare) => Some(Line { raw, compare, report: None }),
            None => None,
        }
    }

    /// Generate the reports for this line against the dump and store them.
    pub fn check(&mut self, dump: &QueryDump) -> (nothing: ())
        requires
            old(self).compare.wf(),
            dump.wf(),
        ensures
            final(self).raw == old(self).raw,
            final(self).compare == old(self).compare,
            final(self).report matches Some(rs) && rs@.map_values(|x: Report| x@)
                == spec_reports_from(
                *dump,
                old(self).compare.prefix,
                old(self).compare.as_path@,
                old(self).compare.verbosity,
                0,
            ),
    {
        let reports = self.compare.check(dump);
        self.report = Some(reports);
    }
}

/// Scan one table-dump line for its comma-separated field boundaries: the
/// character spans of the sixth and seventh fields.
pub open spec fn spec_comma_scan(
    s: Seq<char>,
    i: int,
    commas: int,
    f5s: int,
    f5e: int,
    f6s: int,
    f6e: int,
) -> (int, int, int, int, int)
    decreases s.len() - i,
{
    if !(0 <= i < s.len()) {
        (commas, f5s, f5e, f6s, f6e)
    } else if s[i] == ',' {
        let c2 = commas + 1;
        if c2 == 5 {
            spec_comma_scan(s, i + 1, c2, i + 1, i + 1, f6s, f6e)
        } else if c2 == 6 {
            spec_comma_scan(s, i + 1, c2, f5s, i, i + 1, s.len() as int)
        } else if c2 == 7 {
            spec_comma_scan(s, i + 1, c2, f5s, f5e, f6s, i)
        } else {
            spec_comma_scan(s, i + 1, c2, f5s, f5e, f6s, f6e)
        }
    } else {
        spec_comma_scan(s, i + 1, commas, f5s, f5e, f6s, f6e)
    }
}

/// Scan a space-separated AS path left to right: `tokens` collects the
/// numbers read so far, `acc` and `digits` the number in hand.
pub open spec fn spec_path_scan(
    s: Seq<char>,
    i: int,
    acc: int,
    digits: int,
    tokens: Seq<u32>,
) -> Option<Seq<u32>>
    decreases s.len() - i,
{
    if !(0 <= i <= s.len()) {
        None
    } else if i == s.len() {
        if digits > 0 {
            Some(tokens.push(acc as u32))
        } else {
            Some(tokens)
        }
    } else {
        let c = s[i];
        if '0' <= c && c <= '9' {
            let next = acc * 10 + (c as int - '0' as int);
            if next > u32::MAX {
                None
            } else {
                spec_path_scan(s, i + 1, next, digits + 1, tokens)
            }
        } else if c == ' ' {
            if digits > 0 {
                spec_path_scan(s, i + 1, 0, 0, tokens.push(acc as u32))
            } else {
                spec_path_scan(s, i + 1, 0, 0, tokens)
            }
        } else {
            None
        }
    }
}

/// What parsing an AS-path text yields: its space-separated numbers, in
/// reverse, so the origin comes first.
pub open spec fn spec_parse_as_path(s: Seq<char>) -> Option<Seq<u32>> {
    match spec_path_scan(s, 0, 0, 0, Seq::empty()) {
        Some(tokens) => Some(tokens.reverse()),
        None => None,
    }
}

/// What parsing one table-dump line yields: the prefix of the sixth
/// comma-separated field and the reversed AS path of the seventh, when the
/// line has at least six commas and both fields parse.
pub open spec fn spec_with_line_dump(s: Seq<char>) -> Option<(IpNet, Seq<u32>)> {
    let (commas, f5s, f5e, f6s, f6e) = spec_comma_scan(s, 0, 0, 0, 0, 0, 0);
    if commas < 6 || f5e < f5s || f6e < f6s || f5e > s.len() || f6e > s.len() {
        None
    } else {
        match spec_parse_ip_net(s.subrange(f5s, f5e)) {
            None => None,
            Some(prefix) => match spec_parse_as_path(s.subrange(f6s, f6e)) {
                None => None,
                Some(path) => Some((prefix, path)),
            },
        }
    }
}

impl Compare {
    /// Parse the observation out of one table-dump line: exactly what
    /// [`spec_with_line_dump`] reads, with the quiet default verbosity;
    /// any other line is rejected.
    pub fn with_line_dump(line: &str) -> (r: Option<Compare>)
        ensures
            match r {
                Some(c) => {
                    &&& spec_with_line_dump(line@) == Some((c.prefix, c.as_path@))
                    &&& c.verbosity == (Verbosity {
                        stop_at_first: false,
                        show_skips: false,
                        show_success: false,
                    })
                    &&& c.wf()
                },
                None => spec_with_line_dump(line@) is None,
            },
    {
        let n = line.unicode_len();
        let mut commas: usize = 0;
        let mut f5_start: usize = 0;
        let mut f5_end: usize = 0;
        let mut f6_start: usize = 0;
        let mut f6_end: usize = 0;
        let mut i: usize = 0;
        while i < n
            invariant
                i <= n,
                n == line@.len(),
                commas <= i,
                f5_start <= n,
                f5_end <= n,
                f6_start <= n,
                f6_end <= n,
                spec_comma_scan(line@, 0, 0, 0, 0, 0, 0) == spec_comma_scan(
                    line@,
                    i as int,
                    commas as int,
                    f5_start as int,
                    f5_end as int,
                    f6_start as int,
                    f6_end as int,
                ),
            decreases n - i,
        {
            if line.get_char(i) == ',' {
                commas = commas + 1;
                if commas == 5 {
                    f5_start = i + 1;
                    f5_end = i + 1;
                } else if commas == 6 {
                    f5_end = i;
                    f6_start = i + 1;
                    f6_end = n;
                } else if commas == 7 {
                    f6_end = i;
                }
            }
            i = i + 1;
        }
        if commas < 6 {
            return None;
        }
        if f5_end < f5_start || f6_end < f6_start {
            return None;
        }
        let prefix_text = line.substring_char(f5_start, f5_end);
        let path_text = line.substring_char(f6_start, f6_end);
        proof {
            assert(prefix_text@ =~= line@.subrange(f5_start as int, f5_end as int));
            assert(path_text@ =~= line@.subrange(f6_start as int, f6_end as int));
        }
        let prefix = match parse_ip_net(prefix_text) {
            Some(p) => p,
            None => {
                return None;
            },
        };
        let as_path = match parse_as_path(path_text) {
            Some(p) => p,
            None => {
                return None;
            },
        };
        Some(Compare { verbosity: Verbosity::default(), prefix, as_path })
    }
}

/// Parse a space-separated AS path, last hop first in the text, into the
/// origin-first order the checker walks.
fn parse_as_path(s: &str) -> (r: Option<Vec<u32>>)
    ensures
        (match r {
            Some(v) => Some(v@),
            None => None,
        }) == spec_parse_as_path(s@),
{
    let n = s.unicode_len();
    let mut tokens: Vec<u32> = Vec::new();
    let mut acc: u64 = 0;
    let mut digits: usize = 0;
    let mut i: usize = 0;
    while i < n
        invariant
            i <= n,
            n == s@.len(),
            digits <= i,
            acc <= u32::MAX,
            spec_path_scan(s@, 0, 0, 0, Seq::empty()) == spec_path_scan(
                s@,
                i as int,
                acc as int,
                digits as int,
                tokens@,
            ),
        decreases n - i,
    {
        let c = s.get_char(i);
        if '0' <= c && c <= '9' {
            let next = acc * 10 + (((c as u32) - 48) as u64);
            if next > u32::MAX as u64 {
                return None;
            }
            acc = next;
            digits = digits + 1;
        } else if c == ' ' {
            if digits > 0 {
                tokens.push(acc as u32);
            }
            acc = 0;
            digits = 0;
        } else {
            return None;
        }
        i = i + 1;
    }
    if digits > 0 {
        tokens.push(acc as u32);
    }
    let ghost toks = tokens@;
    let mut reversed: Vec<u32> = Vec::new();
    let mut k = tokens.len();
    while k > 0
        invariant
            k <= toks.len(),
            tokens@ == toks,
            reversed@ == toks.skip(k as int).reverse(),
        decreases k,
    {
        reversed.push(tokens[k - 1]);
        proof {
            assert(toks.skip(k as int - 1).reverse() =~= toks.skip(k as int).reverse().push(
                toks[k as int - 1],
            ));
        }
        k = k - 1;
    }
    proof {
        assert(toks.skip(0) =~= toks);
    }
    Some(reversed)
}

/// Parse every raw line into a [`Line`], in input order; one line that
/// does not parse rejects the batch, as the original stream reader
/// stopped at the first bad line.
pub fn pack_lines(raw_lines: Vec<String>) -> (r: Option<Vec<Line>>)
    ensures
        match r {
            Some(lines) => lines@.len() == raw_lines@.len() && forall|i: int|
                0 <= i < lines@.len() ==> {
                    &&& spec_with_line_dump(raw_lines@[i]@) == Some(
                        ((#[trigger] lines@[i]).compare.prefix, lines@[i].compare.as_path@),
                    )
                    &&& lines@[i].raw == raw_lines@[i]
                    &&& lines@[i].compare.verbosity == (Verbosity {
                        stop_at_first: false,
                        show_skips: false,
                        show_success: false,
                    })
                    &&& lines@[i].report is None
                },
            None => exists|i: int|
                0 <= i < raw_lines@.len() && spec_with_line_dump(
                    (#[trigger] raw_lines@[i])@,
                ) is None,
        },
{
    let ghost orig = raw_lines@;
    let mut rest = raw_lines;
    let mut out: Vec<Line> = Vec::new();
    while rest.len() > 0
        invariant
            orig == raw_lines@,
            out@.len() + rest@.len() == orig.len(),
            rest@ == orig.skip(out@.len() as int),
            forall|i: int|
                0 <= i < out@.len() ==> {
                    &&& spec_with_line_dump(orig[i]@) == Some(
                        ((#[trigger] out@[i]).compare.prefix, out@[i].compare.as_path@),
                    )
                    &&& out@[i].raw == orig[i]
                    &&& out@[i].compare.verbosity == (Verbosity {
                        stop_at_first: false,
                        show_skips: false,
                        show_success: false,
                    })
                    &&& out@[i].report is None
                },
        decreases rest@.len(),
    {
        proof {
            assert(rest@[0] == orig[out@.len() as int]);
            assert(rest@.remove(0) =~= orig.skip(out@.len() as int + 1));
        }
        let raw = rest.remove(0);
        match Line::from_raw(raw) {
            Some(line) => out.push(line),
            None => {
                proof {
                    assert(raw_lines@[out@.len() as int] == orig[out@.len() as int]);
                    assert(spec_with_line_dump((raw_lines@[out@.len() as int])@) is None);
                }
                return None;
            },
        }
    }
    Some(out)
}

} // verus!
