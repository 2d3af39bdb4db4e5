//! The console report: one block per benchmark, in registry order, each
//! counter right-aligned beside its label and followed by the percentage
//! change against the prior run where one exists.

use vstd::prelude::*;

use crate::bytes::dec_digits;
use crate::bytes::pad_left;
use crate::bytes::pad_left_bytes;
use crate::bytes::u64_to_dec;
use crate::bytes::bytes_eq;
use crate::counters::CallgrindStats;
use crate::diff::percentage_diff;
use crate::diff::percentage_diff_spec;
use crate::parser::entries_view;

verus! {

/// Why a report could not be rendered.
#[derive(Clone, Copy, Debug, PartialEq, Eq, Structural)]
pub enum ReportError {
    /// A registered benchmark has no counters in the parsed run.
    MissingBenchmark,
    /// A counter set is not well formed, or a cycle estimate does not fit
    /// the counter width.
    InvalidCounters,
}

/// The label `  Instructions:     `.
pub open spec fn label_instructions() -> Seq<u8> {
    seq![
        32u8,
        32u8,
        73u8,
        110u8,
        115u8,
        116u8,
        114u8,
        117u8,
        99u8,
        116u8,
        105u8,
        111u8,
        110u8,
        115u8,
        58u8,
        32u8,
        32u8,
        32u8,
        32u8,
        32u8,
    ]
}

/// The label `  L1 Accesses:      `.
pub open spec fn label_l1() -> Seq<u8> {
    seq![
        32u8,
        32u8,
        76u8,
        49u8,
        32u8,
        65u8,
        99u8,
        99u8,
        101u8,
        115u8,
        115u8,
        101u8,
        115u8,
        58u8,
        32u8,
        32u8,
        32u8,
        32u8,
        32u8,
        32u8,
    ]
}

/// The label `  L2 Accesses:      ` (the last-level tier keeps its
/// traditional console label).
pub open spec fn label_l2() -> Seq<u8> {
    seq![
        32u8,
        32u8,
        76u8,
        50u8,
        32u8,
        65u8,
        99u8,
        99u8,
        101u8,
        115u8,
        115u8,
        101u8,
        115u8,
        58u8,
        32u8,
        32u8,
        32u8,
        32u8,
        32u8,
        32u8,
    ]
}

/// The label `  RAM Accesses:     `.
pub open spec fn label_ram() -> Seq<u8> {
    seq![
        32u8,
        32u8,
        82u8,
        65u8,
        77u8,
        32u8,
        65u8,
        99u8,
        99u8,
        101u8,
        115u8,
        115u8,
        101u8,
        115u8,
        58u8,
        32u8,
        32u8,
        32u8,
        32u8,
        32u8,
    ]
}

/// The label `  Estimated Cycles: `.
pub open spec fn label_cycles() -> Seq<u8> {
    seq![
        32u8,
        32u8,
        69u8,
        115u8,
        116u8,
        105u8,
        109u8,
        97u8,
        116u8,
        101u8,
        100u8,
        32u8,
        67u8,
        121u8,
        99u8,
        108u8,
        101u8,
        115u8,
        58u8,
        32u8,
    ]
}

/// A counter line: the label, the value right-aligned to fifteen columns,
/// and the delta annotation, empty on a first run.
pub open spec fn counter_line(label: Seq<u8>, value: u64, delta: Seq<u8>) -> Seq<u8> {
    label + pad_left(dec_digits(value as int), 15) + delta
}

/// The delta annotation for one counter: the rendered percentage change
/// where a prior value exists, nothing on a first run.
pub open spec fn delta_of(new: u64, old: Option<u64>) -> Seq<u8> {
    match old {
        Some(o) => percentage_diff_spec(new, o),
        None => Seq::empty(),
    }
}

/// The cycle estimate a counter set derives to.
pub open spec fn derived_cycles(s: CallgrindStats) -> int {
    s.l1_hits_spec() + 5 * s.l3_hits_spec() + 35 * s.ram_hits_spec()
}

/// A counter set can be rendered: it is well formed and its cycle estimate
/// fits the counter width; likewise the prior set where one exists.
pub open spec fn block_ok(s: CallgrindStats, old: Option<CallgrindStats>) -> bool {
    &&& s.well_formed()
    &&& derived_cycles(s) <= u64::MAX
    &&& (old matches Some(o) ==> o.well_formed() && derived_cycles(o) <= u64::MAX)
}

/// One benchmark's report block: its name, the five counter lines, and a
/// blank separator line.
pub open spec fn block_spec(name: Seq<u8>, s: CallgrindStats, old: Option<CallgrindStats>) -> Seq<
    Seq<u8>,
> {
    seq![
        name,
        counter_line(
            label_instructions(),
            s.instruction_reads,
            delta_of(
                s.instruction_reads,
                match old {
                    Some(o) => Some(o.instruction_reads),
                    None => None,
                },
            ),
        ),
        counter_line(
            label_l1(),
            s.l1_hits_spec() as u64,
            delta_of(
                s.l1_hits_spec() as u64,
                match old {
                    Some(o) => Some(o.l1_hits_spec() as u64),
                    None => None,
                },
            ),
        ),
        counter_line(
            label_l2(),
            s.l3_hits_spec() as u64,
            delta_of(
                s.l3_hits_spec() as u64,
                match old {
                    Some(o) => Some(o.l3_hits_spec() as u64),
                    None => None,
                },
            ),
        ),
        counter_line(
            label_ram(),
            s.ram_hits_spec() as u64,
            delta_of(
                s.ram_hits_spec() as u64,
                match old {
                    Some(o) => Some(o.ram_hits_spec() as u64),
                    None => None,
                },
            ),
        ),
        counter_line(
            label_cycles(),
            derived_cycles(s) as u64,
            delta_of(
                derived_cycles(s) as u64,
                match old {
                    Some(o) => Some(derived_cycles(o) as u64),
                    None => None,
                },
            ),
        ),
        Seq::<u8>::empty(),
    ]
}

/// The counters recorded for `name`: the last entry under that name, as a
/// keyed lookup over the parsed sections would see it.
pub open spec fn find_stats(entries: Seq<(Seq<u8>, CallgrindStats)>, name: Seq<u8>) -> Option<
    CallgrindStats,
>
    decreases entries.len(),
{
    if entries.len() == 0 {
        None
    } else if entries.last().0 == name {
        Some(entries.last().1)
    } else {
        find_stats(entries.drop_last(), name)
    }
}

/// The lines of the whole report for the registered names, given the new
/// and the prior run's parsed sections and the lines rendered so far. Names
/// are reported in registry order; a name without counters in the new run,
/// or counters that cannot be derived, is fatal.
pub open spec fn report_lines(
    names: Seq<Seq<u8>>,
    new: Seq<(Seq<u8>, CallgrindStats)>,
    old: Seq<(Seq<u8>, CallgrindStats)>,
    acc: Seq<Seq<u8>>,
) -> Result<Seq<Seq<u8>>, ReportError>
    decreases names.len(),
{
    if names.len() == 0 {
        Ok(acc)
    } else {
        match find_stats(new, names[0]) {
            None => Err(ReportError::MissingBenchmark),
            Some(s) => {
                let o = find_stats(old, names[0]);
                if !block_ok(s, o) {
                    Err(ReportError::InvalidCounters)
                } else {
                    report_lines(names.skip(1), new, old, acc + block_spec(names[0], s, o))
                }
            },
        }
    }
}

/// Looks up the counters recorded for `name`: the last matching entry.
pub fn stats_for(entries: &Vec<(Vec<u8>, CallgrindStats)>, name: &Vec<u8>) -> (r: Option<
    CallgrindStats,
>)
    ensures
        r == find_stats(entries_view(entries@), name@),
{
    let mut r: Option<CallgrindStats> = None;
    let mut k: usize = 0;
    proof {
        assert(entries_view(entries@).take(0) =~= Seq::<(Seq<u8>, CallgrindStats)>::empty());
    }
    while k < entries.len()
        invariant
            k <= entries@.len(),
            r == find_stats(entries_view(entries@).take(k as int), name@),
        decreases entries@.len() - k,
    {
        proof {
            assert(entries_view(entries@)[k as int] == (entries@[k as int].0@, entries@[
                k as int].1));
            assert(entries_view(entries@).take(k + 1).drop_last() =~= entries_view(
                entries@,
            ).take(k as int));
            assert(entries_view(entries@).take(k + 1).last() == entries_view(entries@)[
                k as int]);
        }
        if bytes_eq(&entries[k].0, name) {
            r = Some(entries[k].1);
        }
        k = k + 1;
    }
    proof {
        assert(entries_view(entries@).take(entries@.len() as int) =~= entries_view(entries@));
    }
    r
}

/// One label as a byte vector, selected by line position in a block.
fn label_vec(which: usize) -> (r: Vec<u8>)
    requires
        which < 5,
    ensures
        which == 0 ==> r@ == label_instructions(),
        which == 1 ==> r@ == label_l1(),
        which == 2 ==> r@ == label_l2(),
        which == 3 ==> r@ == label_ram(),
        which == 4 ==> r@ == label_cycles(),
{
    let mut r: Vec<u8> = Vec::new();
    r.push(32u8);
    r.push(32u8);
    if which == 0 {
        let a: [u8; 18] = [
            73u8,
            110u8,
            115u8,
            116u8,
            114u8,
            117u8,
            99u8,
            116u8,
            105u8,
            111u8,
            110u8,
            115u8,
            58u8,
            32u8,
            32u8,
            32u8,
            32u8,
            32u8,
        ];
        let mut t = vstd::slice::slice_to_vec(a.as_slice());
        r.append(&mut t);
        proof {
            assert(r@ =~= label_instructions());
        }
    } else if which == 1 {
        let a: [u8; 18] = [
            76u8,
            49u8,
            32u8,
            65u8,
            99u8,
            99u8,
            101u8,
            115u8,
            115u8,
            101u8,
            115u8,
            58u8,
            32u8,
            32u8,
            32u8,
            32u8,
            32u8,
            32u8,
        ];
        let mut t = vstd::slice::slice_to_vec(a.as_slice());
        r.append(&mut t);
        proof {
            assert(r@ =~= label_l1());
        }
    } else if which == 2 {
        let a: [u8; 18] = [
            76u8,
            50u8,
            32u8,
            65u8,
            99u8,
            99u8,
            101u8,
            115u8,
            115u8,
            101u8,
            115u8,
            58u8,
            32u8,
            32u8,
            32u8,
            32u8,
            32u8,
            32u8,
        ];
        let mut t = vstd::slice::slice_to_vec(a.as_slice());
        r.append(&mut t);
        proof {
            assert(r@ =~= label_l2());
        }
    } else if which == 3 {
        let a: [u8; 18] = [
            82u8,
            65u8,
            77u8,
            32u8,
            65u8,
            99u8,
            99u8,
            101u8,
            115u8,
            115u8,
            101u8,
            115u8,
            58u8,
            32u8,
            32u8,
            32u8,
            32u8,
            32u8,
        ];
        let mut t = vstd::slice::slice_to_vec(a.as_slice());
        r.append(&mut t);
        proof {
            assert(r@ =~= label_ram());
        }
    } else {
        let a: [u8; 18] = [
            69u8,
            115u8,
            116u8,
            105u8,
            109u8,
            97u8,
            116u8,
            101u8,
            100u8,
            32u8,
            67u8,
            121u8,
            99u8,
            108u8,
            101u8,
            115u8,
            58u8,
            32u8,
        ];
        let mut t = vstd::slice::slice_to_vec(a.as_slice());
        r.append(&mut t);
        proof {
            assert(r@ =~= label_cycles());
        }
    }
    r
}

/// Renders one counter line.
fn counter_line_exec(label: Vec<u8>, value: u64, delta: Option<Vec<u8>>) -> (r: Vec<u8>)
    ensures
        r@ == counter_line(
            label@,
            value,
            match delta {
                Some(d) => d@,
                None => Seq::<u8>::empty(),
            },
        ),
{
    let ghost label_view = label@;
    let mut r = label;
    let digits = u64_to_dec(value);
    let mut padded = pad_left_bytes(&digits, 15);
    r.append(&mut padded);
    match delta {
        Some(d) => {
            let mut d = d;
            let ghost d_view = d@;
            r.append(&mut d);
            proof {
                assert(r@ =~= counter_line(label_view, value, d_view));
            }
        },
        None => {
            proof {
                assert(r@ =~= counter_line(label_view, value, Seq::<u8>::empty()));
            }
        },
    }
    r
}

/// Renders one benchmark's report block.
pub fn format_benchmark_block(
    name: &Vec<u8>,
    stats: &CallgrindStats,
    old: Option<CallgrindStats>,
) -> (r: Vec<Vec<u8>>)
    requires
        block_ok(*stats, old),
    ensures
        crate::bytes::views(r@) == block_spec(name@, *stats, old),
{
    let mut r: Vec<Vec<u8>> = Vec::new();
    let mut name_line: Vec<u8> = Vec::new();
    let mut name_copy = name.clone();
    name_line.append(&mut name_copy);
    proof {
        assert(name_line@ =~= name@);
    }
    r.push(name_line);

    let summary = stats.summarize();
    let cycles = summary.cycles();
    let old_summary: Option<(CallgrindStats, u64, u64, u64, u64)> = match old {
        Some(o) => {
            let os = o.summarize();
            let oc = os.cycles();
            Some((o, os.l1_hits, os.l3_hits, os.ram_hits, oc))
        },
        None => None,
    };

    let d0: Option<Vec<u8>> = match &old_summary {
        Some(t) => Some(percentage_diff(stats.instruction_reads, t.0.instruction_reads)),
        None => None,
    };
    r.push(counter_line_exec(label_vec(0), stats.instruction_reads, d0));

    let d1: Option<Vec<u8>> = match &old_summary {
        Some(t) => Some(percentage_diff(summary.l1_hits, t.1)),
        None => None,
    };
    r.push(counter_line_exec(label_vec(1), summary.l1_hits, d1));

    let d2: Option<Vec<u8>> = match &old_summary {
        Some(t) => Some(percentage_diff(summary.l3_hits, t.2)),
        None => None,
    };
    r.push(counter_line_exec(label_vec(2), summary.l3_hits, d2));

    let d3: Option<Vec<u8>> = match &old_summary {
        Some(t) => Some(percentage_diff(summary.ram_hits, t.3)),
        None => None,
    };
    r.push(counter_line_exec(label_vec(3), summary.ram_hits, d3));

    let d4: Option<Vec<u8>> = match &old_summary {
        Some(t) => Some(percentage_diff(cycles, t.4)),
        None => None,
    };
    r.push(counter_line_exec(label_vec(4), cycles, d4));

    r.push(Vec::new());
    proof {
        assert(crate::bytes::views(r@) =~= block_spec(name@, *stats, old));
    }
    r
}

/// Whether a counter set and its optional prior can be rendered.
pub fn check_block_ok(stats: &CallgrindStats, old: &Option<CallgrindStats>) -> (r: bool)
    ensures
        r == block_ok(*stats, *old),
{
    if !stats.is_well_formed() {
        return false;
    }
    let summary = stats.summarize();
    if summary.checked_cycles().is_none() {
        return false;
    }
    match old {
        Some(o) => {
            if !o.is_well_formed() {
                return false;
            }
            let os = o.summarize();
            os.checked_cycles().is_some()
        },
        None => true,
    }
}

/// Renders the whole report: the blocks of every registered name, in
/// registry order, against the prior run's counters where they exist.
/// `Err` where a name has no counters in the new run or a counter set
/// cannot be derived; no partial report is returned.
#[verifier::loop_isolation(false)]
pub fn format_report(
    names: &Vec<Vec<u8>>,
    new: &Vec<(Vec<u8>, CallgrindStats)>,
    old: &Vec<(Vec<u8>, CallgrindStats)>,
) -> (r: Result<Vec<Vec<u8>>, ReportError>)
    ensures
        r matches Ok(v) ==> report_lines(
            crate::bytes::views(names@),
            entries_view(new@),
            entries_view(old@),
            Seq::empty(),
        ) == Ok::<_, ReportError>(crate::bytes::views(v@)),
        r matches Err(e) ==> report_lines(
            crate::bytes::views(names@),
            entries_view(new@),
            entries_view(old@),
            Seq::empty(),
        ) == Err::<Seq<Seq<u8>>, _>(e),
{
    let ghost all_names = crate::bytes::views(names@);
    let ghost newv = entries_view(new@);
    let ghost oldv = entries_view(old@);
    let mut out: Vec<Vec<u8>> = Vec::new();
    let mut i: usize = 0;
    proof {
        assert(all_names.skip(0) =~= all_names);
        assert(crate::bytes::views(out@) =~= Seq::<Seq<u8>>::empty());
    }
    while i < names.len()
        invariant
            i <= names@.len(),
            report_lines(all_names, newv, oldv, Seq::empty()) == report_lines(
                all_names.skip(i as int),
                newv,
                oldv,
                crate::bytes::views(out@),
            ),
        decreases names@.len() - i,
    {
        proof {
            assert(all_names[i as int] == names@[i as int]@);
            assert(all_names.skip(i as int)[0] == all_names[i as int]);
        }
        let name = &names[i];
        let stats = match stats_for(new, name) {
            Some(s) => s,
            None => {
                return Err(ReportError::MissingBenchmark);
            },
        };
        let old_stats = stats_for(old, name);
        if !check_block_ok(&stats, &old_stats) {
            return Err(ReportError::InvalidCounters);
        }
        let mut block = format_benchmark_block(name, &stats, old_stats);
        proof {
            assert(crate::bytes::views(out@ + block@) =~= crate::bytes::views(out@)
                + crate::bytes::views(block@));
            assert(all_names.skip(i as int).skip(1) =~= all_names.skip(i + 1));
        }
        out.append(&mut block);
        i = i + 1;
    }
    proof {
        assert(all_names.skip(names@.len() as int) =~= Seq::<Seq<u8>>::empty());
    }
    Ok(out)
}


/// A rerun with identical counters reports no change on every counter line:
/// each line of the block against a prior run with the same counters carries
/// the no-change marker.
pub proof fn lemma_identical_rerun_reports_no_change(name: Seq<u8>, s: CallgrindStats)
    ensures
        block_spec(name, s, Some(s))[1] == counter_line(
            label_instructions(),
            s.instruction_reads,
            crate::diff::no_change_marker(),
        ),
        block_spec(name, s, Some(s))[2] == counter_line(
            label_l1(),
            s.l1_hits_spec() as u64,
            crate::diff::no_change_marker(),
        ),
        block_spec(name, s, Some(s))[3] == counter_line(
            label_l2(),
            s.l3_hits_spec() as u64,
            crate::diff::no_change_marker(),
        ),
        block_spec(name, s, Some(s))[4] == counter_line(
            label_ram(),
            s.ram_hits_spec() as u64,
            crate::diff::no_change_marker(),
        ),
        block_spec(name, s, Some(s))[5] == counter_line(
            label_cycles(),
            derived_cycles(s) as u64,
            crate::diff::no_change_marker(),
        ),
{
    crate::diff::lemma_no_change_on_equal(s.instruction_reads);
    crate::diff::lemma_no_change_on_equal(s.l1_hits_spec() as u64);
    crate::diff::lemma_no_change_on_equal(s.l3_hits_spec() as u64);
    crate::diff::lemma_no_change_on_equal(s.ram_hits_spec() as u64);
    crate::diff::lemma_no_change_on_equal(derived_cycles(s) as u64);
}

} // verus!
