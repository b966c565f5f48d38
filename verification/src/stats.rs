//! Per-AS statistics folded from a verdict stream.
//!
//! Import verdicts are attributed to the receiving AS, export verdicts to
//! the sending AS. The counters live in a concurrent map so several
//! evaluation batches may share one table.

use vstd::prelude::*;

use dashmap::DashMap;

use crate::cmp::{spec_reports_from, Compare, Verbosity};
use crate::query::QueryDump;
use crate::report::{Report, ReportView};

verus! {

/// Declares dashmap's `DashMap` so the statistics table can appear in
/// verified signatures; the value is opaque here, spoken of only through
/// [`stats_map_contents`].
#[verifier::external_type_specification]
#[verifier::external_body]
#[verifier::reject_recursive_types(K)]
#[verifier::reject_recursive_types(V)]
#[verifier::reject_recursive_types(S)]
pub struct ExDashMap<K, V, S>(DashMap<K, V, S>);

/// Per-AS counters; `u32` for easy tabular export downstream.
#[derive(Clone, Copy, Debug, PartialEq, Eq, Structural, Hash)]
pub struct AsStats {
    pub import_ok: u32,
    pub export_ok: u32,
    pub import_skip: u32,
    pub export_skip: u32,
    pub import_err: u32,
    pub export_err: u32,
}

impl Default for AsStats {
    /// All counters start at zero.
    fn default() -> (r: Self)
        ensures
            r == spec_zero_stats(),
    {
        AsStats {
            import_ok: 0,
            export_ok: 0,
            import_skip: 0,
            export_skip: 0,
            import_err: 0,
            export_err: 0,
        }
    }
}

pub open spec fn spec_zero_stats() -> AsStats {
    AsStats {
        import_ok: 0,
        export_ok: 0,
        import_skip: 0,
        export_skip: 0,
        import_err: 0,
        export_err: 0,
    }
}

/// What a `DashMap` statistics table holds, keyed by AS number; the
/// trusted wrappers below state their effect over this map.
pub uninterp spec fn stats_map_contents(m: DashMap<u32, AsStats>) -> Map<u32, AsStats>;

/// Relies on dashmap::DashMap::get: the value the map holds for the key,
/// if any, copied out.
#[verifier::external_body]
pub fn stats_map_get(m: &DashMap<u32, AsStats>, key: u32) -> (r: Option<AsStats>)
    ensures
        r == if stats_map_contents(*m).contains_key(key) {
            Some(stats_map_contents(*m)[key])
        } else {
            None::<AsStats>
        },
{
    m.get(&key).map(|entry| *entry)
}

/// Relies on dashmap::DashMap::insert: the key is bound to the value, any
/// earlier binding replaced.
#[verifier::external_body]
pub fn stats_map_insert(m: &mut DashMap<u32, AsStats>, key: u32, value: AsStats) -> (nothing: ())
    ensures
        stats_map_contents(*final(m)) == stats_map_contents(*old(m)).insert(key, value),
{
    m.insert(key, value);
}

/// A counter bumped by one, stopping at its ceiling.
pub open spec fn spec_bump_counter(c: u32) -> u32 {
    if c == u32::MAX {
        c
    } else {
        (c + 1) as u32
    }
}

/// The stats a key holds, the zero stats where it holds none.
pub open spec fn spec_stats_at(m: Map<u32, AsStats>, key: u32) -> AsStats {
    if m.contains_key(key) {
        m[key]
    } else {
        spec_zero_stats()
    }
}

/// One verdict folded into the table: the counter its tag names, on the AS
/// it is attributed to.
pub open spec fn spec_bump(m: Map<u32, AsStats>, rv: ReportView) -> Map<u32, AsStats> {
    match rv {
        ReportView::GoodImport { from, to } => m.insert(
            to,
            AsStats { import_ok: spec_bump_counter(spec_stats_at(m, to).import_ok), ..spec_stats_at(m, to) },
        ),
        ReportView::GoodExport { from, to } => m.insert(
            from,
            AsStats { export_ok: spec_bump_counter(spec_stats_at(m, from).export_ok), ..spec_stats_at(m, from) },
        ),
        ReportView::GoodSingleExport { from } => m.insert(
            from,
            AsStats { export_ok: spec_bump_counter(spec_stats_at(m, from).export_ok), ..spec_stats_at(m, from) },
        ),
        ReportView::NeutralImport { from, to, items } => m.insert(
            to,
            AsStats { import_skip: spec_bump_counter(spec_stats_at(m, to).import_skip), ..spec_stats_at(m, to) },
        ),
        ReportView::NeutralExport { from, to, items } => m.insert(
            from,
            AsStats { export_skip: spec_bump_counter(spec_stats_at(m, from).export_skip), ..spec_stats_at(m, from) },
        ),
        ReportView::NeutralSingleExport { from, items } => m.insert(
            from,
            AsStats { export_skip: spec_bump_counter(spec_stats_at(m, from).export_skip), ..spec_stats_at(m, from) },
        ),
        ReportView::BadImport { from, to, items } => m.insert(
            to,
            AsStats { import_err: spec_bump_counter(spec_stats_at(m, to).import_err), ..spec_stats_at(m, to) },
        ),
        ReportView::BadExport { from, to, items } => m.insert(
            from,
            AsStats { export_err: spec_bump_counter(spec_stats_at(m, from).export_err), ..spec_stats_at(m, from) },
        ),
        ReportView::BadSingleExport { from, items } => m.insert(
            from,
            AsStats { export_err: spec_bump_counter(spec_stats_at(m, from).export_err), ..spec_stats_at(m, from) },
        ),
    }
}

/// A verdict stream folded into the table, first verdict first.
pub open spec fn spec_fold_stats(m: Map<u32, AsStats>, rs: Seq<ReportView>) -> Map<u32, AsStats>
    decreases rs.len(),
{
    if rs.len() == 0 {
        m
    } else {
        spec_fold_stats(spec_bump(m, rs[0]), rs.drop_first())
    }
}

/// The stats a key holds in the map, read through the trusted contents.
fn stats_at(m: &DashMap<u32, AsStats>, key: u32) -> (r: AsStats)
    ensures
        r == spec_stats_at(stats_map_contents(*m), key),
{
    match stats_map_get(m, key) {
        Some(st) => st,
        None => AsStats::default(),
    }
}

/// Bump one counter, stopping at its ceiling.
fn bump_counter(c: u32) -> (r: u32)
    ensures
        r == spec_bump_counter(c),
{
    if c == u32::MAX {
        c
    } else {
        c + 1
    }
}

impl Compare {
    /// Check the path with every verdict emitted, and fold each verdict
    /// into the per-AS table: imports count for the receiving AS, exports
    /// for the sending one.
    pub fn as_stats(&mut self, dump: &QueryDump, map: &mut DashMap<u32, AsStats>) -> (nothing: ())
        requires
            old(self).wf(),
            dump.wf(),
        ensures
            final(self).prefix == old(self).prefix,
            final(self).as_path == old(self).as_path,
            final(self).verbosity == (Verbosity {
                stop_at_first: false,
                show_skips: true,
                show_success: true,
            }),
            stats_map_contents(*final(map)) == spec_fold_stats(
                stats_map_contents(*old(map)),
                spec_reports_from(
                    *dump,
                    old(self).prefix,
                    old(self).as_path@,
                    Verbosity { stop_at_first: false, show_skips: true, show_success: true },
                    0,
                ),
            ),
    {
        self.verbosity = Verbosity { stop_at_first: false, show_skips: true, show_success: true };
        let reports = self.check(dump);
        let ghost all = reports@.map_values(|x: Report| x@);
        let ghost m0 = stats_map_contents(*map);
        let n = reports.len();
        proof {
            assert(all.skip(0) =~= all);
        }
        for i in 0..n
            invariant
                n == reports@.len(),
                all == reports@.map_values(|x: Report| x@),
                spec_fold_stats(m0, all) == spec_fold_stats(
                    stats_map_contents(*map),
                    all.skip(i as int),
                ),
        {
            proof {
                assert(all.skip(i as int)[0] == all[i as int]);
                assert(all.skip(i as int).drop_first() =~= all.skip(i + 1));
                assert(all[i as int] == reports@[i as int]@);
            }
            let ghost before = stats_map_contents(*map);
            match &reports[i] {
                Report::GoodImport { from, to } => {
                    let mut st = stats_at(map, *to);
                    st.import_ok = bump_counter(st.import_ok);
                    stats_map_insert(map, *to, st);
                },
                Report::GoodExport { from, to } => {
                    let mut st = stats_at(map, *from);
                    st.export_ok = bump_counter(st.export_ok);
                    stats_map_insert(map, *from, st);
                },
                Report::GoodSingleExport { from } => {
                    let mut st = stats_at(map, *from);
                    st.export_ok = bump_counter(st.export_ok);
                    stats_map_insert(map, *from, st);
                },
                Report::NeutralImport { from, to, items } => {
                    let mut st = stats_at(map, *to);
                    st.import_skip = bump_counter(st.import_skip);
                    stats_map_insert(map, *to, st);
                },
                Report::NeutralExport { from, to, items } => {
                    let mut st = stats_at(map, *from);
                    st.export_skip = bump_counter(st.export_skip);
                    stats_map_insert(map, *from, st);
                },
                Report::NeutralSingleExport { from, items } => {
                    let mut st = stats_at(map, *from);
                    st.export_skip = bump_counter(st.export_skip);
                    stats_map_insert(map, *from, st);
                },
                Report::BadImport { from, to, items } => {
                    let mut st = stats_at(map, *to);
                    st.import_err = bump_counter(st.import_err);
                    stats_map_insert(map, *to, st);
                },
                Report::BadExport { from, to, items } => {
                    let mut st = stats_at(map, *from);
                    st.export_err = bump_counter(st.export_err);
                    stats_map_insert(map, *from, st);
                },
                Report::BadSingleExport { from, items } => {
                    let mut st = stats_at(map, *from);
                    st.export_err = bump_counter(st.export_err);
                    stats_map_insert(map, *from, st);
                },
            }
            proof {
                assert(stats_map_contents(*map) == spec_bump(before, all[i as int]));
            }
        }
        proof {
            assert(all.skip(n as int) =~= Seq::<ReportView>::empty());
        }
    }
}

} // verus!
