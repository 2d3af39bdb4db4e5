use iai::counters::CallgrindStats;
use iai::parser::parse_callgrind_lines;
use iai::parser::ParseError;

fn lines(text: &[&str]) -> Vec<Vec<u8>> {
    text.iter().map(|s| s.as_bytes().to_vec()).collect()
}

fn stats(
    ir: u64,
    i1mr: u64,
    ilmr: u64,
    dr: u64,
    d1mr: u64,
    dlmr: u64,
    dw: u64,
    d1mw: u64,
    dlmw: u64,
) -> CallgrindStats {
    CallgrindStats {
        instruction_reads: ir,
        instruction_l1_misses: i1mr,
        instruction_cache_misses: ilmr,
        data_reads: dr,
        data_l1_read_misses: d1mr,
        data_cache_read_misses: dlmr,
        data_writes: dw,
        data_l1_write_misses: d1mw,
        data_cache_write_misses: dlmw,
    }
}

#[test]
fn round_trip_of_a_synthesized_report() {
    let input = lines(&[
        "events: Ir I1mr ILmr Dr D1mr DLmr Dw D1mw DLmw",
        "cfn=__iai_bench_alpha",
        "calls=1 0",
        "0 900 10 4 500 6 2 300 3 1",
    ]);
    let parsed = parse_callgrind_lines(&input).unwrap();
    assert_eq!(parsed.len(), 1);
    assert_eq!(parsed[0].0, b"alpha".to_vec());
    assert_eq!(parsed[0].1, stats(900, 10, 4, 500, 6, 2, 300, 3, 1));
}

#[test]
fn unknown_event_names_are_ignored() {
    let input = lines(&[
        "events: Ir Bogus Dr",
        "cfn=__iai_bench_alpha",
        "calls=1 0",
        "0 10 99 20",
    ]);
    let parsed = parse_callgrind_lines(&input).unwrap();
    assert_eq!(parsed[0].1, stats(10, 0, 0, 20, 0, 0, 0, 0, 0));
}

#[test]
fn counters_absent_from_the_header_default_to_zero() {
    let input = lines(&["events: Ir", "cfn=__iai_bench_b", "calls=1 0", "0 5"]);
    let parsed = parse_callgrind_lines(&input).unwrap();
    assert_eq!(parsed[0].1, stats(5, 0, 0, 0, 0, 0, 0, 0, 0));
}

#[test]
fn short_data_lines_leave_trailing_counters_zero() {
    let input = lines(&[
        "events: Ir I1mr ILmr Dr D1mr DLmr Dw D1mw DLmw",
        "cfn=__iai_bench_c",
        "calls=1 0",
        "0 7 8",
    ]);
    let parsed = parse_callgrind_lines(&input).unwrap();
    assert_eq!(parsed[0].1, stats(7, 8, 0, 0, 0, 0, 0, 0, 0));
}

#[test]
fn later_duplicate_event_name_wins() {
    let input = lines(&["events: Ir Ir", "cfn=__iai_bench_d", "calls=1 0", "0 1 2"]);
    let parsed = parse_callgrind_lines(&input).unwrap();
    assert_eq!(parsed[0].1.instruction_reads, 2);
}

#[test]
fn a_later_header_replaces_the_earlier_one() {
    let input = lines(&[
        "events: Dr",
        "events: Ir",
        "cfn=__iai_bench_e",
        "calls=1 0",
        "0 6",
    ]);
    let parsed = parse_callgrind_lines(&input).unwrap();
    assert_eq!(parsed[0].1, stats(6, 0, 0, 0, 0, 0, 0, 0, 0));
}

#[test]
fn unrelated_lines_are_skipped() {
    let input = lines(&[
        "version: 1",
        "events: Ir",
        "fn=main",
        "cfn=__iai_bench_f",
        "calls=1 0",
        "0 3",
        "totals: 99",
    ]);
    let parsed = parse_callgrind_lines(&input).unwrap();
    assert_eq!(parsed.len(), 1);
    assert_eq!(parsed[0].1.instruction_reads, 3);
}

#[test]
fn two_sections_parse_in_file_order() {
    let input = lines(&[
        "events: Ir",
        "cfn=__iai_bench_first",
        "calls=1 0",
        "0 1",
        "cfn=__iai_bench_second",
        "calls=1 0",
        "0 2",
    ]);
    let parsed = parse_callgrind_lines(&input).unwrap();
    assert_eq!(parsed.len(), 2);
    assert_eq!(parsed[0].0, b"first".to_vec());
    assert_eq!(parsed[0].1.instruction_reads, 1);
    assert_eq!(parsed[1].0, b"second".to_vec());
    assert_eq!(parsed[1].1.instruction_reads, 2);
}

#[test]
fn an_empty_report_has_no_sections() {
    let parsed = parse_callgrind_lines(&Vec::new()).unwrap();
    assert!(parsed.is_empty());
}

#[test]
fn section_before_header_is_fatal() {
    let input = lines(&["cfn=__iai_bench_g", "calls=1 0", "0 1"]);
    assert_eq!(parse_callgrind_lines(&input), Err(ParseError::MissingEvents));
}

#[test]
fn truncated_section_is_fatal() {
    let input = lines(&["events: Ir", "cfn=__iai_bench_h", "calls=1 0"]);
    assert_eq!(
        parse_callgrind_lines(&input),
        Err(ParseError::TruncatedSection)
    );
}

#[test]
fn unreadable_number_is_fatal() {
    let input = lines(&["events: Ir", "cfn=__iai_bench_i", "calls=1 0", "0 12x4"]);
    assert_eq!(parse_callgrind_lines(&input), Err(ParseError::BadNumber));
}

#[test]
fn number_past_the_counter_width_is_fatal() {
    let input = lines(&[
        "events: Ir",
        "cfn=__iai_bench_j",
        "calls=1 0",
        "0 18446744073709551616",
    ]);
    assert_eq!(parse_callgrind_lines(&input), Err(ParseError::BadNumber));
}

#[test]
fn extra_fields_beyond_the_header_are_ignored() {
    // Only fields aligned with event names are read; what follows them need
    // not be numeric.
    let input = lines(&["events: Ir", "cfn=__iai_bench_k", "calls=1 0", "0 4 junk"]);
    let parsed = parse_callgrind_lines(&input).unwrap();
    assert_eq!(parsed[0].1.instruction_reads, 4);
}
