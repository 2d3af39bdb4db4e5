//! Parser for the simulator's textual report. The file declares the ordered
//! list of event names once in a header line; each benchmark's section is
//! introduced by a marker line holding the reserved name prefix and the
//! benchmark's identifier, followed by a calls line (ignored) and a data
//! line whose second and later fields align positionally with the header.
//!
//! A missing header before the first section, a truncated section, or an
//! unreadable number is a fatal parse error: the parser never substitutes a
//! default for a structurally missing part. Only event names absent from an
//! otherwise well-formed header default to zero, and event names the header
//! declares but this crate does not know are ignored.

use vstd::prelude::*;

use crate::bytes::dec_value;
use crate::bytes::has_prefix;
use crate::bytes::parse_u64_digits;
use crate::bytes::parses_as_u64;
use crate::bytes::split_whitespace_bytes;
use crate::bytes::split_ws;
use crate::bytes::strip_prefix_bytes;
use crate::bytes::bytes_eq;
use crate::bytes::views;
use crate::counters::CallgrindStats;

verus! {

/// Why a report failed to parse.
#[derive(Clone, Copy, Debug, PartialEq, Eq, Structural)]
pub enum ParseError {
    /// A benchmark section appeared before any header line.
    MissingEvents,
    /// The report ended before a section's calls and data lines.
    TruncatedSection,
    /// A data field aligned with an event name is not a decimal number.
    BadNumber,
    /// A whole-run report holds no summary line.
    MissingSummary,
}

/// The header marker `events: `.
pub open spec fn events_prefix() -> Seq<u8> {
    seq![101u8, 118u8, 101u8, 110u8, 116u8, 115u8, 58u8, 32u8]
}

/// The section marker `cfn=__iai_bench_`: the reserved wrapper name prefix
/// under which the simulator records each benchmark's entry point.
pub open spec fn bench_prefix() -> Seq<u8> {
    seq![99u8, 102u8, 110u8, 61u8, 95u8, 95u8, 105u8, 97u8, 105u8, 95u8, 98u8, 101u8, 110u8, 99u8, 104u8, 95u8]
}

/// Event name `Ir`: instruction reads.
pub open spec fn name_ir() -> Seq<u8> {
    seq![73u8, 114u8]
}

/// Event name `I1mr`: instruction L1 read misses.
pub open spec fn name_i1mr() -> Seq<u8> {
    seq![73u8, 49u8, 109u8, 114u8]
}

/// Event name `ILmr`: instruction last-level read misses.
pub open spec fn name_ilmr() -> Seq<u8> {
    seq![73u8, 76u8, 109u8, 114u8]
}

/// Event name `Dr`: data reads.
pub open spec fn name_dr() -> Seq<u8> {
    seq![68u8, 114u8]
}

/// Event name `D1mr`: data L1 read misses.
pub open spec fn name_d1mr() -> Seq<u8> {
    seq![68u8, 49u8, 109u8, 114u8]
}

/// Event name `DLmr`: data last-level read misses.
pub open spec fn name_dlmr() -> Seq<u8> {
    seq![68u8, 76u8, 109u8, 114u8]
}

/// Event name `Dw`: data writes.
pub open spec fn name_dw() -> Seq<u8> {
    seq![68u8, 119u8]
}

/// Event name `D1mw`: data L1 write misses.
pub open spec fn name_d1mw() -> Seq<u8> {
    seq![68u8, 49u8, 109u8, 119u8]
}

/// Event name `DLmw`: data last-level write misses.
pub open spec fn name_dlmw() -> Seq<u8> {
    seq![68u8, 76u8, 109u8, 119u8]
}

/// How many data fields align with event names: the data line's first field
/// is a position counter and is discarded, and the shorter of the two lists
/// bounds the pairing.
pub open spec fn zip_count(ev: Seq<Seq<u8>>, fields: Seq<Seq<u8>>) -> int {
    let nvals: int = if fields.len() >= 1 {
        fields.len() - 1
    } else {
        0
    };
    if ev.len() <= nvals {
        ev.len() as int
    } else {
        nvals
    }
}

/// The numbers of the data fields paired with the first `n` event names.
pub open spec fn zipped_values(fields: Seq<Seq<u8>>, n: int) -> Seq<u64> {
    Seq::new(
        if n >= 0 {
            n as nat
        } else {
            0
        },
        |k: int| dec_value(fields[k + 1]) as u64,
    )
}

/// The value paired with the last occurrence of `name` among the first `n`
/// events, or zero where the header does not declare `name`.
pub open spec fn last_value(ev: Seq<Seq<u8>>, vals: Seq<u64>, n: int, name: Seq<u8>) -> u64
    decreases n,
{
    if n <= 0 {
        0u64
    } else if ev[n - 1] == name {
        vals[n - 1]
    } else {
        last_value(ev, vals, n - 1, name)
    }
}

/// Some field paired with an event name fails to read as a number.
pub open spec fn has_bad_field(ev: Seq<Seq<u8>>, fields: Seq<Seq<u8>>) -> bool {
    exists|k: int| 0 <= k < zip_count(ev, fields) && !parses_as_u64(#[trigger] fields[k + 1])
}

/// The counters a well-formed section's data line denotes under the header
/// `ev`: each known event name takes the field paired with its last
/// occurrence, an undeclared one defaults to zero.
pub open spec fn stats_of(ev: Seq<Seq<u8>>, fields: Seq<Seq<u8>>) -> CallgrindStats {
    let n = zip_count(ev, fields);
    let vals = zipped_values(fields, n);
    CallgrindStats {
        instruction_reads: last_value(ev, vals, n, name_ir()),
        instruction_l1_misses: last_value(ev, vals, n, name_i1mr()),
        instruction_cache_misses: last_value(ev, vals, n, name_ilmr()),
        data_reads: last_value(ev, vals, n, name_dr()),
        data_l1_read_misses: last_value(ev, vals, n, name_d1mr()),
        data_cache_read_misses: last_value(ev, vals, n, name_dlmr()),
        data_writes: last_value(ev, vals, n, name_dw()),
        data_l1_write_misses: last_value(ev, vals, n, name_d1mw()),
        data_cache_write_misses: last_value(ev, vals, n, name_dlmw()),
    }
}

/// What parsing the remaining `lines` yields, given the header seen so far
/// and the sections already read. A header line replaces the header; a
/// section marker line consumes itself, the calls line and the data line
/// and appends one entry; every other line is skipped.
pub open spec fn parse_lines(
    lines: Seq<Seq<u8>>,
    events: Option<Seq<u8>>,
    acc: Seq<(Seq<u8>, CallgrindStats)>,
) -> Result<Seq<(Seq<u8>, CallgrindStats)>, ParseError>
    decreases lines.len(),
{
    if lines.len() == 0 {
        Ok(acc)
    } else if has_prefix(lines[0], events_prefix()) {
        parse_lines(lines.skip(1), Some(lines[0].skip(events_prefix().len() as int)), acc)
    } else if has_prefix(lines[0], bench_prefix()) {
        if events is None {
            Err(ParseError::MissingEvents)
        } else if lines.len() < 3 {
            Err(ParseError::TruncatedSection)
        } else {
            let ev = split_ws(events->Some_0);
            let fields = split_ws(lines[2]);
            if has_bad_field(ev, fields) {
                Err(ParseError::BadNumber)
            } else {
                parse_lines(
                    lines.skip(3),
                    events,
                    acc.push(
                        (lines[0].skip(bench_prefix().len() as int), stats_of(ev, fields)),
                    ),
                )
            }
        }
    } else {
        parse_lines(lines.skip(1), events, acc)
    }
}

/// The views of a sequence of parsed entries.
pub open spec fn entries_view(v: Seq<(Vec<u8>, CallgrindStats)>) -> Seq<
    (Seq<u8>, CallgrindStats),
> {
    v.map_values(|p: (Vec<u8>, CallgrindStats)| (p.0@, p.1))
}

/// The view of the header state.
pub open spec fn header_view(e: Option<Vec<u8>>) -> Option<Seq<u8>> {
    match e {
        Some(v) => Some(v@),
        None => None,
    }
}

/// The value paired with the last occurrence of `name` among the first `n`
/// event names, zero where it does not occur.
fn lookup_event(ev: &Vec<Vec<u8>>, vals: &Vec<u64>, n: usize, name: &Vec<u8>) -> (r: u64)
    requires
        n <= ev@.len(),
        n <= vals@.len(),
    ensures
        r == last_value(views(ev@), vals@, n as int, name@),
{
    let mut r: u64 = 0;
    let mut k: usize = 0;
    while k < n
        invariant
            k <= n <= ev@.len(),
            n <= vals@.len(),
            r == last_value(views(ev@), vals@, k as int, name@),
        decreases n - k,
    {
        if bytes_eq(&ev[k], name) {
            r = vals[k];
        }
        proof {
            assert(views(ev@)[k as int] == ev@[k as int]@);
        }
        k = k + 1;
    }
    r
}

/// The header marker as a byte vector.
fn events_prefix_vec() -> (r: Vec<u8>)
    ensures
        r@ == events_prefix(),
{
    let a: [u8; 8] = [101u8, 118u8, 101u8, 110u8, 116u8, 115u8, 58u8, 32u8];
    let r = vstd::slice::slice_to_vec(a.as_slice());
    proof {
        assert(r@ =~= events_prefix());
    }
    r
}

/// The section marker as a byte vector.
fn bench_prefix_vec() -> (r: Vec<u8>)
    ensures
        r@ == bench_prefix(),
{
    let a: [u8; 16] = [
        99u8,
        102u8,
        110u8,
        61u8,
        95u8,
        95u8,
        105u8,
        97u8,
        105u8,
        95u8,
        98u8,
        101u8,
        110u8,
        99u8,
        104u8,
        95u8,
    ];
    let r = vstd::slice::slice_to_vec(a.as_slice());
    proof {
        assert(r@ =~= bench_prefix());
    }
    r
}

/// One known event name as a byte vector, selected by position in the
/// counter struct's field order.
fn known_name_vec(which: usize) -> (r: Vec<u8>)
    requires
        which < 9,
    ensures
        which == 0 ==> r@ == name_ir(),
        which == 1 ==> r@ == name_i1mr(),
        which == 2 ==> r@ == name_ilmr(),
        which == 3 ==> r@ == name_dr(),
        which == 4 ==> r@ == name_d1mr(),
        which == 5 ==> r@ == name_dlmr(),
        which == 6 ==> r@ == name_dw(),
        which == 7 ==> r@ == name_d1mw(),
        which == 8 ==> r@ == name_dlmw(),
{
    let mut r: Vec<u8> = Vec::new();
    if which == 0 {
        r.push(73u8);
        r.push(114u8);
        proof {
            assert(r@ =~= name_ir());
        }
    } else if which == 1 {
        r.push(73u8);
        r.push(49u8);
        r.push(109u8);
        r.push(114u8);
        proof {
            assert(r@ =~= name_i1mr());
        }
    } else if which == 2 {
        r.push(73u8);
        r.push(76u8);
        r.push(109u8);
        r.push(114u8);
        proof {
            assert(r@ =~= name_ilmr());
        }
    } else if which == 3 {
        r.push(68u8);
        r.push(114u8);
        proof {
            assert(r@ =~= name_dr());
        }
    } else if which == 4 {
        r.push(68u8);
        r.push(49u8);
        r.push(109u8);
        r.push(114u8);
        proof {
            assert(r@ =~= name_d1mr());
        }
    } else if which == 5 {
        r.push(68u8);
        r.push(76u8);
        r.push(109u8);
        r.push(114u8);
        proof {
            assert(r@ =~= name_dlmr());
        }
    } else if which == 6 {
        r.push(68u8);
        r.push(119u8);
        proof {
            assert(r@ =~= name_dw());
        }
    } else if which == 7 {
        r.push(68u8);
        r.push(49u8);
        r.push(109u8);
        r.push(119u8);
        proof {
            assert(r@ =~= name_d1mw());
        }
    } else {
        r.push(68u8);
        r.push(76u8);
        r.push(109u8);
        r.push(119u8);
        proof {
            assert(r@ =~= name_dlmw());
        }
    }
    r
}

/// Parses a report, given as its lines. Yields the benchmark sections in
/// file order, each the identifier from its marker line and the counters
/// its data line denotes; or the first fatal flaw of the report.
#[verifier::loop_isolation(false)]
pub fn parse_callgrind_lines(lines: &Vec<Vec<u8>>) -> (r: Result<
    Vec<(Vec<u8>, CallgrindStats)>,
    ParseError,
>)
    ensures
        r matches Ok(v) ==> parse_lines(views(lines@), None, Seq::empty()) == Ok::<
            _,
            ParseError,
        >(entries_view(v@)),
        r matches Err(e) ==> parse_lines(views(lines@), None, Seq::empty()) == Err::<
            Seq<(Seq<u8>, CallgrindStats)>,
            _,
        >(e),
{
    let ghost full = views(lines@);
    let mut events: Option<Vec<u8>> = None;
    let mut acc: Vec<(Vec<u8>, CallgrindStats)> = Vec::new();
    let mut i: usize = 0;
    proof {
        assert(full.skip(0) =~= full);
        assert(entries_view(acc@) =~= Seq::<(Seq<u8>, CallgrindStats)>::empty());
    }
    let ep = events_prefix_vec();
    let bp = bench_prefix_vec();
    while i < lines.len()
        invariant
            i <= lines@.len(),
            full == views(lines@),
            ep@ == events_prefix(),
            bp@ == bench_prefix(),
            parse_lines(full, None, Seq::empty()) == parse_lines(
                full.skip(i as int),
                header_view(events),
                entries_view(acc@),
            ),
        decreases lines@.len() - i,
    {
        proof {
            assert(full[i as int] == lines@[i as int]@);
            assert(full.skip(i as int)[0] == full[i as int]);
        }
        let line = &lines[i];
        if let Some(rest) = strip_prefix_bytes(line, &ep) {
            proof {
                assert(full.skip(i as int).skip(1) =~= full.skip(i + 1));
            }
            events = Some(rest);
            i = i + 1;
        } else if let Some(name) = strip_prefix_bytes(line, &bp) {
            let header: &Vec<u8> = match &events {
                Some(h) => h,
                None => {
                    return Err(ParseError::MissingEvents);
                },
            };
            if lines.len() - i < 3 {
                return Err(ParseError::TruncatedSection);
            }
            let data = &lines[i + 2];
            proof {
                assert(full.skip(i as int)[2] == full[i + 2]);
                assert(full[i + 2] == lines@[i + 2]@);
            }
            let ev_tokens = split_whitespace_bytes(header);
            let fields = split_whitespace_bytes(data);
            let ghost evs = split_ws(header@);
            let ghost flds = split_ws(data@);
            let nvals: usize = if fields.len() >= 1 {
                fields.len() - 1
            } else {
                0
            };
            let count: usize = if ev_tokens.len() <= nvals {
                ev_tokens.len()
            } else {
                nvals
            };
            proof {
                assert(count == zip_count(evs, flds));
            }
            let mut vals: Vec<u64> = Vec::new();
            let mut k: usize = 0;
            while k < count
                invariant
                    k <= count,
                    count == zip_count(evs, flds),
                    count <= fields@.len(),
                    views(fields@) == flds,
                    vals@.len() == k,
                    forall|j: int| 0 <= j < k ==> parses_as_u64(#[trigger] flds[j + 1]),
                    forall|j: int|
                        0 <= j < k ==> vals@[j] == (dec_value(#[trigger] flds[j + 1]) as u64),
                decreases count - k,
            {
                proof {
                    assert(views(fields@)[k + 1] == fields@[k + 1]@);
                }
                match parse_u64_digits(&fields[k + 1]) {
                    Some(v) => {
                        vals.push(v);
                    },
                    None => {
                        proof {
                            assert(!parses_as_u64(flds[k + 1]));
                            assert(has_bad_field(evs, flds));
                            let lns = full.skip(i as int);
                            assert(lns[0] == full[i as int]);
                            assert(lns[2] == full[i + 2]);
                            assert(lns.len() >= 3);
                            assert(header_view(events) == Some(header@));
                            assert(parse_lines(lns, header_view(events), entries_view(acc@))
                                == Err::<Seq<(Seq<u8>, CallgrindStats)>, ParseError>(
                                ParseError::BadNumber,
                            ));
                        }
                        return Err(ParseError::BadNumber);
                    },
                }
                k = k + 1;
            }
            proof {
                assert(!has_bad_field(evs, flds)) by {
                    assert(forall|j: int|
                        0 <= j < zip_count(evs, flds) ==> parses_as_u64(#[trigger] flds[j + 1]));
                }
                assert(vals@ =~= zipped_values(flds, count as int));
            }
            let n0 = known_name_vec(0);
            let n1 = known_name_vec(1);
            let n2 = known_name_vec(2);
            let n3 = known_name_vec(3);
            let n4 = known_name_vec(4);
            let n5 = known_name_vec(5);
            let n6 = known_name_vec(6);
            let n7 = known_name_vec(7);
            let n8 = known_name_vec(8);
            let stats = CallgrindStats {
                instruction_reads: lookup_event(&ev_tokens, &vals, count, &n0),
                instruction_l1_misses: lookup_event(&ev_tokens, &vals, count, &n1),
                instruction_cache_misses: lookup_event(&ev_tokens, &vals, count, &n2),
                data_reads: lookup_event(&ev_tokens, &vals, count, &n3),
                data_l1_read_misses: lookup_event(&ev_tokens, &vals, count, &n4),
                data_cache_read_misses: lookup_event(&ev_tokens, &vals, count, &n5),
                data_writes: lookup_event(&ev_tokens, &vals, count, &n6),
                data_l1_write_misses: lookup_event(&ev_tokens, &vals, count, &n7),
                data_cache_write_misses: lookup_event(&ev_tokens, &vals, count, &n8),
            };
            proof {
                assert(stats == stats_of(evs, flds));
                assert(name@ == full[i as int].skip(bench_prefix().len() as int));
                assert(entries_view(acc@.push((name, stats))) =~= entries_view(acc@).push(
                    (name@, stats),
                ));
                assert(full.skip(i as int).skip(3) =~= full.skip(i + 3));
            }
            acc.push((name, stats));
            i = i + 3;
        } else {
            proof {
                assert(full.skip(i as int).skip(1) =~= full.skip(i + 1));
            }
            i = i + 1;
        }
    }
    proof {
        assert(full.skip(lines@.len() as int) =~= Seq::<Seq<u8>>::empty());
    }
    Ok(acc)
}

/// The whole-run marker `summary: ` of the simpler simulator's report: the
/// one line whose fields align positionally with the header's event names.
pub open spec fn summary_prefix() -> Seq<u8> {
    seq![115u8, 117u8, 109u8, 109u8, 97u8, 114u8, 121u8, 58u8, 32u8]
}

/// How many summary fields align with event names: here the fields align
/// from the first one, and the shorter list bounds the pairing.
pub open spec fn direct_count(ev: Seq<Seq<u8>>, fields: Seq<Seq<u8>>) -> int {
    if ev.len() <= fields.len() {
        ev.len() as int
    } else {
        fields.len() as int
    }
}

/// The numbers of the summary fields paired with the first `n` event names.
pub open spec fn direct_values(fields: Seq<Seq<u8>>, n: int) -> Seq<u64> {
    Seq::new(
        if n >= 0 {
            n as nat
        } else {
            0
        },
        |k: int| dec_value(fields[k]) as u64,
    )
}

/// Some summary field paired with an event name fails to read as a number.
pub open spec fn has_bad_direct_field(ev: Seq<Seq<u8>>, fields: Seq<Seq<u8>>) -> bool {
    exists|k: int| 0 <= k < direct_count(ev, fields) && !parses_as_u64(#[trigger] fields[k])
}

/// The counters a summary line denotes under the header `ev`.
pub open spec fn direct_stats_of(ev: Seq<Seq<u8>>, fields: Seq<Seq<u8>>) -> CallgrindStats {
    let n = direct_count(ev, fields);
    let vals = direct_values(fields, n);
    CallgrindStats {
        instruction_reads: last_value(ev, vals, n, name_ir()),
        instruction_l1_misses: last_value(ev, vals, n, name_i1mr()),
        instruction_cache_misses: last_value(ev, vals, n, name_ilmr()),
        data_reads: last_value(ev, vals, n, name_dr()),
        data_l1_read_misses: last_value(ev, vals, n, name_d1mr()),
        data_cache_read_misses: last_value(ev, vals, n, name_dlmr()),
        data_writes: last_value(ev, vals, n, name_dw()),
        data_l1_write_misses: last_value(ev, vals, n, name_d1mw()),
        data_cache_write_misses: last_value(ev, vals, n, name_dlmw()),
    }
}

/// What parsing a whole-run report yields, given the header seen so far:
/// the counters of the first summary line, read under the header declared
/// before it. The per-process backend measures one benchmark per run, so
/// the report carries one summary.
pub open spec fn parse_summary(lines: Seq<Seq<u8>>, events: Option<Seq<u8>>) -> Result<
    CallgrindStats,
    ParseError,
>
    decreases lines.len(),
{
    if lines.len() == 0 {
        Err(ParseError::MissingSummary)
    } else if has_prefix(lines[0], events_prefix()) {
        parse_summary(lines.skip(1), Some(lines[0].skip(events_prefix().len() as int)))
    } else if has_prefix(lines[0], summary_prefix()) {
        if events is None {
            Err(ParseError::MissingEvents)
        } else {
            let ev = split_ws(events->Some_0);
            let fields = split_ws(lines[0].skip(summary_prefix().len() as int));
            if has_bad_direct_field(ev, fields) {
                Err(ParseError::BadNumber)
            } else {
                Ok(direct_stats_of(ev, fields))
            }
        }
    } else {
        parse_summary(lines.skip(1), events)
    }
}

/// The whole-run marker as a byte vector.
fn summary_prefix_vec() -> (r: Vec<u8>)
    ensures
        r@ == summary_prefix(),
{
    let a: [u8; 9] = [115u8, 117u8, 109u8, 109u8, 97u8, 114u8, 121u8, 58u8, 32u8];
    let r = vstd::slice::slice_to_vec(a.as_slice());
    proof {
        assert(r@ =~= summary_prefix());
    }
    r
}

/// Parses a whole-run report of the simpler simulator, given as its lines.
/// Yields the counters of its summary line, or the first fatal flaw.
#[verifier::loop_isolation(false)]
pub fn parse_summary_lines(lines: &Vec<Vec<u8>>) -> (r: Result<CallgrindStats, ParseError>)
    ensures
        r == parse_summary(views(lines@), None),
{
    let ghost full = views(lines@);
    let mut events: Option<Vec<u8>> = None;
    let mut i: usize = 0;
    proof {
        assert(full.skip(0) =~= full);
    }
    let ep = events_prefix_vec();
    let sp = summary_prefix_vec();
    while i < lines.len()
        invariant
            i <= lines@.len(),
            parse_summary(full, None) == parse_summary(full.skip(i as int), header_view(events)),
        decreases lines@.len() - i,
    {
        proof {
            assert(full[i as int] == lines@[i as int]@);
            assert(full.skip(i as int)[0] == full[i as int]);
        }
        let line = &lines[i];
        if let Some(rest) = strip_prefix_bytes(line, &ep) {
            proof {
                assert(full.skip(i as int).skip(1) =~= full.skip(i + 1));
            }
            events = Some(rest);
            i = i + 1;
        } else if let Some(rest) = strip_prefix_bytes(line, &sp) {
            let header: &Vec<u8> = match &events {
                Some(h) => h,
                None => {
                    return Err(ParseError::MissingEvents);
                },
            };
            let ev_tokens = split_whitespace_bytes(header);
            let fields = split_whitespace_bytes(&rest);
            let ghost evs = split_ws(header@);
            let ghost flds = split_ws(rest@);
            let count: usize = if ev_tokens.len() <= fields.len() {
                ev_tokens.len()
            } else {
                fields.len()
            };
            proof {
                assert(count == direct_count(evs, flds));
            }
            let mut vals: Vec<u64> = Vec::new();
            let mut k: usize = 0;
            while k < count
                invariant
                    k <= count,
                    count == direct_count(evs, flds),
                    count <= fields@.len(),
                    views(fields@) == flds,
                    vals@.len() == k,
                    forall|j: int| 0 <= j < k ==> parses_as_u64(#[trigger] flds[j]),
                    forall|j: int|
                        0 <= j < k ==> vals@[j] == (dec_value(#[trigger] flds[j]) as u64),
                decreases count - k,
            {
                proof {
                    assert(views(fields@)[k as int] == fields@[k as int]@);
                }
                match parse_u64_digits(&fields[k]) {
                    Some(v) => {
                        vals.push(v);
                    },
                    None => {
                        proof {
                            assert(!parses_as_u64(flds[k as int]));
                            assert(has_bad_direct_field(evs, flds));
                        }
                        return Err(ParseError::BadNumber);
                    },
                }
                k = k + 1;
            }
            proof {
                assert(!has_bad_direct_field(evs, flds)) by {
                    assert(forall|j: int|
                        0 <= j < direct_count(evs, flds) ==> parses_as_u64(#[trigger] flds[j]));
                }
                assert(vals@ =~= direct_values(flds, count as int));
            }
            let n0 = known_name_vec(0);
            let n1 = known_name_vec(1);
            let n2 = known_name_vec(2);
            let n3 = known_name_vec(3);
            let n4 = known_name_vec(4);
            let n5 = known_name_vec(5);
            let n6 = known_name_vec(6);
            let n7 = known_name_vec(7);
            let n8 = known_name_vec(8);
            let stats = CallgrindStats {
                instruction_reads: lookup_event(&ev_tokens, &vals, count, &n0),
                instruction_l1_misses: lookup_event(&ev_tokens, &vals, count, &n1),
                instruction_cache_misses: lookup_event(&ev_tokens, &vals, count, &n2),
                data_reads: lookup_event(&ev_tokens, &vals, count, &n3),
                data_l1_read_misses: lookup_event(&ev_tokens, &vals, count, &n4),
                data_cache_read_misses: lookup_event(&ev_tokens, &vals, count, &n5),
                data_writes: lookup_event(&ev_tokens, &vals, count, &n6),
                data_l1_write_misses: lookup_event(&ev_tokens, &vals, count, &n7),
                data_cache_write_misses: lookup_event(&ev_tokens, &vals, count, &n8),
            };
            proof {
                assert(stats == direct_stats_of(evs, flds));
            }
            return Ok(stats);
        } else {
            proof {
                assert(full.skip(i as int).skip(1) =~= full.skip(i + 1));
            }
            i = i + 1;
        }
    }
    proof {
        assert(full.skip(lines@.len() as int) =~= Seq::<Seq<u8>>::empty());
    }
    Err(ParseError::MissingSummary)
}


/// The known event names in the counter struct's field order: the header of
/// a report that declares every known counter.
pub open spec fn known_header() -> Seq<Seq<u8>> {
    seq![
        name_ir(),
        name_i1mr(),
        name_ilmr(),
        name_dr(),
        name_d1mr(),
        name_dlmr(),
        name_dw(),
        name_d1mw(),
        name_dlmw(),
    ]
}

/// The counters as decimal tokens, in header order.
pub open spec fn counter_tokens(c: CallgrindStats) -> Seq<Seq<u8>> {
    seq![
        crate::bytes::dec_digits(c.instruction_reads as int),
        crate::bytes::dec_digits(c.instruction_l1_misses as int),
        crate::bytes::dec_digits(c.instruction_cache_misses as int),
        crate::bytes::dec_digits(c.data_reads as int),
        crate::bytes::dec_digits(c.data_l1_read_misses as int),
        crate::bytes::dec_digits(c.data_cache_read_misses as int),
        crate::bytes::dec_digits(c.data_writes as int),
        crate::bytes::dec_digits(c.data_l1_write_misses as int),
        crate::bytes::dec_digits(c.data_cache_write_misses as int),
    ]
}

/// A well-formed single-section report denoting the counters `c` under the
/// benchmark `name`: the header declaring the known event names, the
/// section marker line, a calls line, and the data line with its leading
/// position field.
pub open spec fn synth_report(name: Seq<u8>, c: CallgrindStats) -> Seq<Seq<u8>> {
    seq![
        events_prefix() + crate::bytes::join_spaces(known_header()),
        bench_prefix() + name,
        seq![99u8, 97u8, 108u8, 108u8, 115u8, 61u8, 49u8],
        crate::bytes::join_spaces(seq![seq![48u8]] + counter_tokens(c)),
    ]
}

/// A decimal token is a word.
proof fn lemma_dec_token_is_word(n: int)
    requires
        n >= 0,
    ensures
        crate::bytes::is_word(crate::bytes::dec_digits(n)),
        parses_as_u64(crate::bytes::dec_digits(n)) <==> n <= u64::MAX,
        dec_value(crate::bytes::dec_digits(n)) == n,
{
    crate::bytes::lemma_dec_round_trip(n);
    let t = crate::bytes::dec_digits(n);
    assert forall|k: int| 0 <= k < t.len() implies !crate::bytes::is_ws(t[k]) by {
        assert(crate::bytes::is_digit(t[k]));
    }
}

/// Each known event name is a word.
proof fn lemma_known_names_are_words()
    ensures
        forall|k: int| 0 <= k < known_header().len() ==> crate::bytes::is_word(
            #[trigger] known_header()[k],
        ),
{
    assert forall|k: int| 0 <= k < known_header().len() implies crate::bytes::is_word(
        known_header()[k],
    ) by {
        if k == 0 {
            assert(known_header()[0] == name_ir());
            assert(crate::bytes::is_word(name_ir()));
        }
        if k == 1 {
            assert(known_header()[1] == name_i1mr());
            assert(crate::bytes::is_word(name_i1mr()));
        }
        if k == 2 {
            assert(known_header()[2] == name_ilmr());
            assert(crate::bytes::is_word(name_ilmr()));
        }
        if k == 3 {
            assert(known_header()[3] == name_dr());
            assert(crate::bytes::is_word(name_dr()));
        }
        if k == 4 {
            assert(known_header()[4] == name_d1mr());
            assert(crate::bytes::is_word(name_d1mr()));
        }
        if k == 5 {
            assert(known_header()[5] == name_dlmr());
            assert(crate::bytes::is_word(name_dlmr()));
        }
        if k == 6 {
            assert(known_header()[6] == name_dw());
            assert(crate::bytes::is_word(name_dw()));
        }
        if k == 7 {
            assert(known_header()[7] == name_d1mw());
            assert(crate::bytes::is_word(name_d1mw()));
        }
        if k == 8 {
            assert(known_header()[8] == name_dlmw());
            assert(crate::bytes::is_word(name_dlmw()));
        }
    }
}

/// The nine known event names are pairwise distinct.
proof fn lemma_known_names_distinct()
    ensures
        name_ir() != name_i1mr(),
        name_ir() != name_ilmr(),
        name_ir() != name_dr(),
        name_ir() != name_d1mr(),
        name_ir() != name_dlmr(),
        name_ir() != name_dw(),
        name_ir() != name_d1mw(),
        name_ir() != name_dlmw(),
        name_i1mr() != name_ilmr(),
        name_i1mr() != name_dr(),
        name_i1mr() != name_d1mr(),
        name_i1mr() != name_dlmr(),
        name_i1mr() != name_dw(),
        name_i1mr() != name_d1mw(),
        name_i1mr() != name_dlmw(),
        name_ilmr() != name_dr(),
        name_ilmr() != name_d1mr(),
        name_ilmr() != name_dlmr(),
        name_ilmr() != name_dw(),
        name_ilmr() != name_d1mw(),
        name_ilmr() != name_dlmw(),
        name_dr() != name_d1mr(),
        name_dr() != name_dlmr(),
        name_dr() != name_dw(),
        name_dr() != name_d1mw(),
        name_dr() != name_dlmw(),
        name_d1mr() != name_dlmr(),
        name_d1mr() != name_dw(),
        name_d1mr() != name_d1mw(),
        name_d1mr() != name_dlmw(),
        name_dlmr() != name_dw(),
        name_dlmr() != name_d1mw(),
        name_dlmr() != name_dlmw(),
        name_dw() != name_d1mw(),
        name_dw() != name_dlmw(),
        name_d1mw() != name_dlmw(),
{
    assert(name_ir() != name_i1mr()) by {
        assert(name_ir().len() == 2 && name_i1mr().len() == 4);
    }
    assert(name_ir() != name_ilmr()) by {
        assert(name_ir().len() == 2 && name_ilmr().len() == 4);
    }
    assert(name_ir() != name_dr()) by {
        assert(name_ir()[0] == 73u8 && name_dr()[0] == 68u8);
    }
    assert(name_ir() != name_d1mr()) by {
        assert(name_ir().len() == 2 && name_d1mr().len() == 4);
    }
    assert(name_ir() != name_dlmr()) by {
        assert(name_ir().len() == 2 && name_dlmr().len() == 4);
    }
    assert(name_ir() != name_dw()) by {
        assert(name_ir()[0] == 73u8 && name_dw()[0] == 68u8);
    }
    assert(name_ir() != name_d1mw()) by {
        assert(name_ir().len() == 2 && name_d1mw().len() == 4);
    }
    assert(name_ir() != name_dlmw()) by {
        assert(name_ir().len() == 2 && name_dlmw().len() == 4);
    }
    assert(name_i1mr() != name_ilmr()) by {
        assert(name_i1mr()[1] == 49u8 && name_ilmr()[1] == 76u8);
    }
    assert(name_i1mr() != name_dr()) by {
        assert(name_i1mr().len() == 4 && name_dr().len() == 2);
    }
    assert(name_i1mr() != name_d1mr()) by {
        assert(name_i1mr()[0] == 73u8 && name_d1mr()[0] == 68u8);
    }
    assert(name_i1mr() != name_dlmr()) by {
        assert(name_i1mr()[0] == 73u8 && name_dlmr()[0] == 68u8);
    }
    assert(name_i1mr() != name_dw()) by {
        assert(name_i1mr().len() == 4 && name_dw().len() == 2);
    }
    assert(name_i1mr() != name_d1mw()) by {
        assert(name_i1mr()[0] == 73u8 && name_d1mw()[0] == 68u8);
    }
    assert(name_i1mr() != name_dlmw()) by {
        assert(name_i1mr()[0] == 73u8 && name_dlmw()[0] == 68u8);
    }
    assert(name_ilmr() != name_dr()) by {
        assert(name_ilmr().len() == 4 && name_dr().len() == 2);
    }
    assert(name_ilmr() != name_d1mr()) by {
        assert(name_ilmr()[0] == 73u8 && name_d1mr()[0] == 68u8);
    }
    assert(name_ilmr() != name_dlmr()) by {
        assert(name_ilmr()[0] == 73u8 && name_dlmr()[0] == 68u8);
    }
    assert(name_ilmr() != name_dw()) by {
        assert(name_ilmr().len() == 4 && name_dw().len() == 2);
    }
    assert(name_ilmr() != name_d1mw()) by {
        assert(name_ilmr()[0] == 73u8 && name_d1mw()[0] == 68u8);
    }
    assert(name_ilmr() != name_dlmw()) by {
        assert(name_ilmr()[0] == 73u8 && name_dlmw()[0] == 68u8);
    }
    assert(name_dr() != name_d1mr()) by {
        assert(name_dr().len() == 2 && name_d1mr().len() == 4);
    }
    assert(name_dr() != name_dlmr()) by {
        assert(name_dr().len() == 2 && name_dlmr().len() == 4);
    }
    assert(name_dr() != name_dw()) by {
        assert(name_dr()[1] == 114u8 && name_dw()[1] == 119u8);
    }
    assert(name_dr() != name_d1mw()) by {
        assert(name_dr().len() == 2 && name_d1mw().len() == 4);
    }
    assert(name_dr() != name_dlmw()) by {
        assert(name_dr().len() == 2 && name_dlmw().len() == 4);
    }
    assert(name_d1mr() != name_dlmr()) by {
        assert(name_d1mr()[1] == 49u8 && name_dlmr()[1] == 76u8);
    }
    assert(name_d1mr() != name_dw()) by {
        assert(name_d1mr().len() == 4 && name_dw().len() == 2);
    }
    assert(name_d1mr() != name_d1mw()) by {
        assert(name_d1mr()[3] == 114u8 && name_d1mw()[3] == 119u8);
    }
    assert(name_d1mr() != name_dlmw()) by {
        assert(name_d1mr()[1] == 49u8 && name_dlmw()[1] == 76u8);
    }
    assert(name_dlmr() != name_dw()) by {
        assert(name_dlmr().len() == 4 && name_dw().len() == 2);
    }
    assert(name_dlmr() != name_d1mw()) by {
        assert(name_dlmr()[1] == 76u8 && name_d1mw()[1] == 49u8);
    }
    assert(name_dlmr() != name_dlmw()) by {
        assert(name_dlmr()[3] == 114u8 && name_dlmw()[3] == 119u8);
    }
    assert(name_dw() != name_d1mw()) by {
        assert(name_dw().len() == 2 && name_d1mw().len() == 4);
    }
    assert(name_dw() != name_dlmw()) by {
        assert(name_dw().len() == 2 && name_dlmw().len() == 4);
    }
    assert(name_d1mw() != name_dlmw()) by {
        assert(name_d1mw()[1] == 49u8 && name_dlmw()[1] == 76u8);
    }
}

/// The last value paired with `name` among the first `n` events, where
/// `name` occurs at `idx` and nowhere later.
proof fn lemma_last_value_at(ev: Seq<Seq<u8>>, vals: Seq<u64>, n: int, name: Seq<u8>, idx: int)
    requires
        0 <= idx < n,
        ev[idx] == name,
        forall|j: int| idx < j < n ==> ev[j] != name,
    ensures
        last_value(ev, vals, n, name) == vals[idx],
    decreases n,
{
    if n - 1 > idx {
        lemma_last_value_at(ev, vals, n - 1, name, idx);
    }
}

/// Looking each known event name up in a header that declares the known
/// names in field order yields the value at that name's position.
proof fn lemma_lookup_known_names(ev: Seq<Seq<u8>>, vals: Seq<u64>)
    requires
        forall|k: int| 0 <= k < 9 ==> ev[k] == known_header()[k],
    ensures
        last_value(ev, vals, 9, name_ir()) == vals[0],
        last_value(ev, vals, 9, name_i1mr()) == vals[1],
        last_value(ev, vals, 9, name_ilmr()) == vals[2],
        last_value(ev, vals, 9, name_dr()) == vals[3],
        last_value(ev, vals, 9, name_d1mr()) == vals[4],
        last_value(ev, vals, 9, name_dlmr()) == vals[5],
        last_value(ev, vals, 9, name_dw()) == vals[6],
        last_value(ev, vals, 9, name_d1mw()) == vals[7],
        last_value(ev, vals, 9, name_dlmw()) == vals[8],
{
    lemma_known_names_distinct();
    assert forall|j: int| 0 < j < 9 implies ev[j] != name_ir() by {
            if j == 1 {
                assert(ev[1] == name_i1mr());
            }
            if j == 2 {
                assert(ev[2] == name_ilmr());
            }
            if j == 3 {
                assert(ev[3] == name_dr());
            }
            if j == 4 {
                assert(ev[4] == name_d1mr());
            }
            if j == 5 {
                assert(ev[5] == name_dlmr());
            }
            if j == 6 {
                assert(ev[6] == name_dw());
            }
            if j == 7 {
                assert(ev[7] == name_d1mw());
            }
            if j == 8 {
                assert(ev[8] == name_dlmw());
            }
    }
    assert(ev[0] == name_ir());
    lemma_last_value_at(ev, vals, 9, name_ir(), 0);
    assert forall|j: int| 1 < j < 9 implies ev[j] != name_i1mr() by {
            if j == 2 {
                assert(ev[2] == name_ilmr());
            }
            if j == 3 {
                assert(ev[3] == name_dr());
            }
            if j == 4 {
                assert(ev[4] == name_d1mr());
            }
            if j == 5 {
                assert(ev[5] == name_dlmr());
            }
            if j == 6 {
                assert(ev[6] == name_dw());
            }
            if j == 7 {
                assert(ev[7] == name_d1mw());
            }
            if j == 8 {
                assert(ev[8] == name_dlmw());
            }
    }
    assert(ev[1] == name_i1mr());
    lemma_last_value_at(ev, vals, 9, name_i1mr(), 1);
    assert forall|j: int| 2 < j < 9 implies ev[j] != name_ilmr() by {
            if j == 3 {
                assert(ev[3] == name_dr());
            }
            if j == 4 {
                assert(ev[4] == name_d1mr());
            }
            if j == 5 {
                assert(ev[5] == name_dlmr());
            }
            if j == 6 {
                assert(ev[6] == name_dw());
            }
            if j == 7 {
                assert(ev[7] == name_d1mw());
            }
            if j == 8 {
                assert(ev[8] == name_dlmw());
            }
    }
    assert(ev[2] == name_ilmr());
    lemma_last_value_at(ev, vals, 9, name_ilmr(), 2);
    assert forall|j: int| 3 < j < 9 implies ev[j] != name_dr() by {
            if j == 4 {
                assert(ev[4] == name_d1mr());
            }
            if j == 5 {
                assert(ev[5] == name_dlmr());
            }
            if j == 6 {
                assert(ev[6] == name_dw());
            }
            if j == 7 {
                assert(ev[7] == name_d1mw());
            }
            if j == 8 {
                assert(ev[8] == name_dlmw());
            }
    }
    assert(ev[3] == name_dr());
    lemma_last_value_at(ev, vals, 9, name_dr(), 3);
    assert forall|j: int| 4 < j < 9 implies ev[j] != name_d1mr() by {
            if j == 5 {
                assert(ev[5] == name_dlmr());
            }
            if j == 6 {
                assert(ev[6] == name_dw());
            }
            if j == 7 {
                assert(ev[7] == name_d1mw());
            }
            if j == 8 {
                assert(ev[8] == name_dlmw());
            }
    }
    assert(ev[4] == name_d1mr());
    lemma_last_value_at(ev, vals, 9, name_d1mr(), 4);
    assert forall|j: int| 5 < j < 9 implies ev[j] != name_dlmr() by {
            if j == 6 {
                assert(ev[6] == name_dw());
            }
            if j == 7 {
                assert(ev[7] == name_d1mw());
            }
            if j == 8 {
                assert(ev[8] == name_dlmw());
            }
    }
    assert(ev[5] == name_dlmr());
    lemma_last_value_at(ev, vals, 9, name_dlmr(), 5);
    assert forall|j: int| 6 < j < 9 implies ev[j] != name_dw() by {
            if j == 7 {
                assert(ev[7] == name_d1mw());
            }
            if j == 8 {
                assert(ev[8] == name_dlmw());
            }
    }
    assert(ev[6] == name_dw());
    lemma_last_value_at(ev, vals, 9, name_dw(), 6);
    assert forall|j: int| 7 < j < 9 implies ev[j] != name_d1mw() by {
            if j == 8 {
                assert(ev[8] == name_dlmw());
            }
    }
    assert(ev[7] == name_d1mw());
    lemma_last_value_at(ev, vals, 9, name_d1mw(), 7);
    assert forall|j: int| 8 < j < 9 implies ev[j] != name_dlmw() by {

    }
    assert(ev[8] == name_dlmw());
    lemma_last_value_at(ev, vals, 9, name_dlmw(), 8);
}

/// Parser round trip: a synthesized well-formed report that declares every
/// known event name and holds a benchmark's counters parses back to exactly
/// that benchmark and those counters.
pub proof fn lemma_parse_round_trip(name: Seq<u8>, c: CallgrindStats)
    ensures
        parse_lines(synth_report(name, c), None, Seq::empty()) == Ok::<
            Seq<(Seq<u8>, CallgrindStats)>,
            ParseError,
        >(seq![(name, c)]),
{
    let lines = synth_report(name, c);
    let header = crate::bytes::join_spaces(known_header());
    lemma_known_names_are_words();
    crate::bytes::lemma_split_ws_join(known_header());

    assert(has_prefix(lines[0], events_prefix())) by {
        assert((events_prefix() + header).take(8) =~= events_prefix());
    }
    assert(lines[0].skip(8) =~= header);

    let rest1 = lines.skip(1);
    assert(rest1.len() == 3);
    assert(rest1[0] == lines[1]);
    assert(rest1[2] == lines[3]);
    assert(has_prefix(rest1[0], bench_prefix())) by {
        assert((bench_prefix() + name).take(16) =~= bench_prefix());
    }
    assert(!has_prefix(rest1[0], events_prefix())) by {
        if has_prefix(rest1[0], events_prefix()) {
            assert(rest1[0].take(8)[0] == rest1[0][0]);
            assert(rest1[0][0] == bench_prefix()[0]);
        }
    }

    let toks = seq![seq![48u8]] + counter_tokens(c);
    assert(crate::bytes::is_word(seq![48u8]));
    lemma_dec_token_is_word(c.instruction_reads as int);
    lemma_dec_token_is_word(c.instruction_l1_misses as int);
    lemma_dec_token_is_word(c.instruction_cache_misses as int);
    lemma_dec_token_is_word(c.data_reads as int);
    lemma_dec_token_is_word(c.data_l1_read_misses as int);
    lemma_dec_token_is_word(c.data_cache_read_misses as int);
    lemma_dec_token_is_word(c.data_writes as int);
    lemma_dec_token_is_word(c.data_l1_write_misses as int);
    lemma_dec_token_is_word(c.data_cache_write_misses as int);
    assert forall|k: int| 0 <= k < toks.len() implies crate::bytes::is_word(
        #[trigger] toks[k],
    ) by {
        if k >= 1 {
            assert(toks[k] == counter_tokens(c)[k - 1]);
        }
    }
    crate::bytes::lemma_split_ws_join(toks);

    let ev = split_ws(header);
    let flds = split_ws(rest1[2]);
    assert(ev == known_header());
    assert(flds == toks);
    assert(ev.len() == 9);
    assert(flds.len() == 10);
    assert(zip_count(ev, flds) == 9);

    assert forall|k: int| 0 <= k < 9 implies parses_as_u64(#[trigger] flds[k + 1])
        && dec_value(flds[k + 1]) == counter_value(c, k) by {
        assert(flds[k + 1] == counter_tokens(c)[k]);
        if k == 0 {
            assert(counter_tokens(c)[0] == crate::bytes::dec_digits(c.instruction_reads as int));
        }
        if k == 1 {
            assert(counter_tokens(c)[1] == crate::bytes::dec_digits(c.instruction_l1_misses as int));
        }
        if k == 2 {
            assert(counter_tokens(c)[2] == crate::bytes::dec_digits(c.instruction_cache_misses as int));
        }
        if k == 3 {
            assert(counter_tokens(c)[3] == crate::bytes::dec_digits(c.data_reads as int));
        }
        if k == 4 {
            assert(counter_tokens(c)[4] == crate::bytes::dec_digits(c.data_l1_read_misses as int));
        }
        if k == 5 {
            assert(counter_tokens(c)[5] == crate::bytes::dec_digits(c.data_cache_read_misses as int));
        }
        if k == 6 {
            assert(counter_tokens(c)[6] == crate::bytes::dec_digits(c.data_writes as int));
        }
        if k == 7 {
            assert(counter_tokens(c)[7] == crate::bytes::dec_digits(c.data_l1_write_misses as int));
        }
        if k == 8 {
            assert(counter_tokens(c)[8] == crate::bytes::dec_digits(c.data_cache_write_misses as int));
        }
    }
    assert(!has_bad_field(ev, flds));

    let vals = zipped_values(flds, 9);
    assert forall|k: int| 0 <= k < 9 implies vals[k] == counter_value(c, k) as u64 by {
        assert(vals[k] == dec_value(flds[k + 1]) as u64);
    }
    lemma_lookup_known_names(ev, vals);
    assert(stats_of(ev, flds) =~= c);

    assert(rest1[0].skip(16) =~= name);
    assert(rest1.skip(3) =~= Seq::<Seq<u8>>::empty());
    assert(Seq::<(Seq<u8>, CallgrindStats)>::empty().push((rest1[0].skip(16), stats_of(ev, flds)))
        =~= seq![(name, c)]);
    assert(parse_lines(rest1.skip(3), Some(header), seq![(name, c)]) == Ok::<
        Seq<(Seq<u8>, CallgrindStats)>,
        ParseError,
    >(seq![(name, c)]));
    assert(parse_lines(rest1, Some(header), Seq::empty()) == parse_lines(
        rest1.skip(3),
        Some(header),
        seq![(name, c)],
    ));
    assert(parse_lines(lines, None, Seq::empty()) == parse_lines(
        rest1,
        Some(header),
        Seq::empty(),
    ));
}

/// A counter of `c` by its position in the header order.
pub open spec fn counter_value(c: CallgrindStats, k: int) -> u64 {
    if k == 0 {
        c.instruction_reads
    } else     if k == 1 {
        c.instruction_l1_misses
    } else     if k == 2 {
        c.instruction_cache_misses
    } else     if k == 3 {
        c.data_reads
    } else     if k == 4 {
        c.data_l1_read_misses
    } else     if k == 5 {
        c.data_cache_read_misses
    } else     if k == 6 {
        c.data_writes
    } else     if k == 7 {
        c.data_l1_write_misses
    } else {
        c.data_cache_write_misses
    }
}


/// A report like `synth_report` whose header declares one more event name
/// beyond the known ones, with its own data column.
pub open spec fn synth_report_extended(
    name: Seq<u8>,
    c: CallgrindStats,
    extra: Seq<u8>,
    extra_value: u64,
) -> Seq<Seq<u8>> {
    seq![
        events_prefix() + crate::bytes::join_spaces(known_header() + seq![extra]),
        bench_prefix() + name,
        seq![99u8, 97u8, 108u8, 108u8, 115u8, 61u8, 49u8],
        crate::bytes::join_spaces(
            seq![seq![48u8]] + counter_tokens(c) + seq![
                crate::bytes::dec_digits(extra_value as int),
            ],
        ),
    ]
}

/// An event name the header declares beyond the known ones is ignored: the
/// extra column leaves every known counter unaffected.
pub proof fn lemma_unknown_event_ignored(
    name: Seq<u8>,
    c: CallgrindStats,
    extra: Seq<u8>,
    extra_value: u64,
)
    requires
        crate::bytes::is_word(extra),
        forall|k: int| 0 <= k < known_header().len() ==> extra != #[trigger] known_header()[k],
    ensures
        parse_lines(synth_report_extended(name, c, extra, extra_value), None, Seq::empty())
            == Ok::<Seq<(Seq<u8>, CallgrindStats)>, ParseError>(seq![(name, c)]),
{
    let lines = synth_report_extended(name, c, extra, extra_value);
    let ev_toks = known_header() + seq![extra];
    let header = crate::bytes::join_spaces(ev_toks);
    lemma_known_names_are_words();
    assert forall|k: int| 0 <= k < ev_toks.len() implies crate::bytes::is_word(
        #[trigger] ev_toks[k],
    ) by {
        if k < 9 {
            assert(ev_toks[k] == known_header()[k]);
        }
    }
    crate::bytes::lemma_split_ws_join(ev_toks);

    assert(has_prefix(lines[0], events_prefix())) by {
        assert((events_prefix() + header).take(8) =~= events_prefix());
    }
    assert(lines[0].skip(8) =~= header);

    let rest1 = lines.skip(1);
    assert(rest1.len() == 3);
    assert(rest1[0] == lines[1]);
    assert(rest1[2] == lines[3]);
    assert(has_prefix(rest1[0], bench_prefix())) by {
        assert((bench_prefix() + name).take(16) =~= bench_prefix());
    }
    assert(!has_prefix(rest1[0], events_prefix())) by {
        if has_prefix(rest1[0], events_prefix()) {
            assert(rest1[0].take(8)[0] == rest1[0][0]);
            assert(rest1[0][0] == bench_prefix()[0]);
        }
    }

    let toks = seq![seq![48u8]] + counter_tokens(c) + seq![
        crate::bytes::dec_digits(extra_value as int),
    ];
    lemma_dec_token_is_word(c.instruction_reads as int);
    lemma_dec_token_is_word(c.instruction_l1_misses as int);
    lemma_dec_token_is_word(c.instruction_cache_misses as int);
    lemma_dec_token_is_word(c.data_reads as int);
    lemma_dec_token_is_word(c.data_l1_read_misses as int);
    lemma_dec_token_is_word(c.data_cache_read_misses as int);
    lemma_dec_token_is_word(c.data_writes as int);
    lemma_dec_token_is_word(c.data_l1_write_misses as int);
    lemma_dec_token_is_word(c.data_cache_write_misses as int);
    lemma_dec_token_is_word(extra_value as int);
    assert(crate::bytes::is_word(seq![48u8]));
    assert forall|k: int| 0 <= k < toks.len() implies crate::bytes::is_word(
        #[trigger] toks[k],
    ) by {
        if 1 <= k < 10 {
            assert(toks[k] == counter_tokens(c)[k - 1]);
        }
        if k == 10 {
            assert(toks[10] == crate::bytes::dec_digits(extra_value as int));
        }
    }
    crate::bytes::lemma_split_ws_join(toks);

    let ev = split_ws(header);
    let flds = split_ws(rest1[2]);
    assert(ev == ev_toks);
    assert(flds == toks);
    assert(ev.len() == 10);
    assert(flds.len() == 11);
    assert(zip_count(ev, flds) == 10);

    assert forall|k: int| 0 <= k < 10 implies parses_as_u64(#[trigger] flds[k + 1])
        && (k < 9 ==> dec_value(flds[k + 1]) == counter_value(c, k)) by {
        if k < 9 {
            assert(flds[k + 1] == counter_tokens(c)[k]);
            if k == 0 {
                assert(counter_tokens(c)[0] == crate::bytes::dec_digits(c.instruction_reads as int));
            }
            if k == 1 {
                assert(counter_tokens(c)[1] == crate::bytes::dec_digits(c.instruction_l1_misses as int));
            }
            if k == 2 {
                assert(counter_tokens(c)[2] == crate::bytes::dec_digits(c.instruction_cache_misses as int));
            }
            if k == 3 {
                assert(counter_tokens(c)[3] == crate::bytes::dec_digits(c.data_reads as int));
            }
            if k == 4 {
                assert(counter_tokens(c)[4] == crate::bytes::dec_digits(c.data_l1_read_misses as int));
            }
            if k == 5 {
                assert(counter_tokens(c)[5] == crate::bytes::dec_digits(c.data_cache_read_misses as int));
            }
            if k == 6 {
                assert(counter_tokens(c)[6] == crate::bytes::dec_digits(c.data_writes as int));
            }
            if k == 7 {
                assert(counter_tokens(c)[7] == crate::bytes::dec_digits(c.data_l1_write_misses as int));
            }
            if k == 8 {
                assert(counter_tokens(c)[8] == crate::bytes::dec_digits(c.data_cache_write_misses as int));
            }
        } else {
            assert(flds[10] == crate::bytes::dec_digits(extra_value as int));
        }
    }
    assert(!has_bad_field(ev, flds));

    let vals = zipped_values(flds, 10);
    assert forall|k: int| 0 <= k < 9 implies vals[k] == counter_value(c, k) as u64 by {
        assert(vals[k] == dec_value(flds[k + 1]) as u64);
    }
    assert forall|k: int| 0 <= k < 9 implies ev[k] == #[trigger] known_header()[k] by {
        assert(ev[k] == ev_toks[k]);
    }
    lemma_lookup_known_names(ev, vals);
    assert(ev[9] == extra);
    assert(last_value(ev, vals, 10, name_ir()) == last_value(ev, vals, 9, name_ir())) by {
        assert(extra != known_header()[0]);
        assert(known_header()[0] == name_ir());
    }
    assert(last_value(ev, vals, 10, name_i1mr()) == last_value(ev, vals, 9, name_i1mr())) by {
        assert(extra != known_header()[1]);
        assert(known_header()[1] == name_i1mr());
    }
    assert(last_value(ev, vals, 10, name_ilmr()) == last_value(ev, vals, 9, name_ilmr())) by {
        assert(extra != known_header()[2]);
        assert(known_header()[2] == name_ilmr());
    }
    assert(last_value(ev, vals, 10, name_dr()) == last_value(ev, vals, 9, name_dr())) by {
        assert(extra != known_header()[3]);
        assert(known_header()[3] == name_dr());
    }
    assert(last_value(ev, vals, 10, name_d1mr()) == last_value(ev, vals, 9, name_d1mr())) by {
        assert(extra != known_header()[4]);
        assert(known_header()[4] == name_d1mr());
    }
    assert(last_value(ev, vals, 10, name_dlmr()) == last_value(ev, vals, 9, name_dlmr())) by {
        assert(extra != known_header()[5]);
        assert(known_header()[5] == name_dlmr());
    }
    assert(last_value(ev, vals, 10, name_dw()) == last_value(ev, vals, 9, name_dw())) by {
        assert(extra != known_header()[6]);
        assert(known_header()[6] == name_dw());
    }
    assert(last_value(ev, vals, 10, name_d1mw()) == last_value(ev, vals, 9, name_d1mw())) by {
        assert(extra != known_header()[7]);
        assert(known_header()[7] == name_d1mw());
    }
    assert(last_value(ev, vals, 10, name_dlmw()) == last_value(ev, vals, 9, name_dlmw())) by {
        assert(extra != known_header()[8]);
        assert(known_header()[8] == name_dlmw());
    }
    assert(stats_of(ev, flds) =~= c);

    assert(rest1[0].skip(16) =~= name);
    assert(rest1.skip(3) =~= Seq::<Seq<u8>>::empty());
    assert(Seq::<(Seq<u8>, CallgrindStats)>::empty().push((rest1[0].skip(16), stats_of(ev, flds)))
        =~= seq![(name, c)]);
    assert(parse_lines(rest1.skip(3), Some(header), seq![(name, c)]) == Ok::<
        Seq<(Seq<u8>, CallgrindStats)>,
        ParseError,
    >(seq![(name, c)]));
    assert(parse_lines(rest1, Some(header), Seq::empty()) == parse_lines(
        rest1.skip(3),
        Some(header),
        seq![(name, c)],
    ));
    assert(parse_lines(lines, None, Seq::empty()) == parse_lines(
        rest1,
        Some(header),
        Seq::empty(),
    ));
}

} // verus!
