use iai::counters::CallgrindStats;
use iai::parser::parse_callgrind_lines;
use iai::report::format_report;
use iai::report::stats_for;
use iai::report::ReportError;
use iai::slots::ReportSlots;

fn lines(text: &[&str]) -> Vec<Vec<u8>> {
    text.iter().map(|s| s.as_bytes().to_vec()).collect()
}

fn to_strings(lines: Vec<Vec<u8>>) -> Vec<String> {
    lines
        .into_iter()
        .map(|l| String::from_utf8(l).unwrap())
        .collect()
}

fn report_file(ir: u64) -> Vec<Vec<u8>> {
    let data = format!("0 {} 10 4 500 6 2 300 3 1", ir);
    lines(&[
        "events: Ir I1mr ILmr Dr D1mr DLmr Dw D1mw DLmw",
        "cfn=__iai_bench_noop",
        "calls=1 0",
        &data,
    ])
}

#[test]
fn first_run_has_no_delta_annotations() {
    let names = vec![b"noop".to_vec()];
    let new = parse_callgrind_lines(&report_file(900)).unwrap();
    let old = Vec::new();
    let out = to_strings(format_report(&names, &new, &old).unwrap());
    assert_eq!(
        out,
        vec![
            "noop".to_string(),
            format!("  Instructions:     {:>15}", 900),
            format!("  L1 Accesses:      {:>15}", 1681),
            format!("  L2 Accesses:      {:>15}", 12),
            format!("  RAM Accesses:     {:>15}", 7),
            format!("  Estimated Cycles: {:>15}", 1681 + 5 * 12 + 35 * 7),
            String::new(),
        ]
    );
}

#[test]
fn identical_reruns_report_no_change_on_every_line() {
    let names = vec![b"noop".to_vec()];
    let new = parse_callgrind_lines(&report_file(900)).unwrap();
    let old = parse_callgrind_lines(&report_file(900)).unwrap();
    let out = to_strings(format_report(&names, &new, &old).unwrap());
    assert_eq!(out[0], "noop");
    for line in &out[1..6] {
        assert!(
            line.ends_with(" (No change)"),
            "expected a no-change marker: {line:?}"
        );
    }
}

#[test]
fn doing_more_work_shows_a_positive_instruction_delta() {
    let names = vec![b"noop".to_vec()];
    let old = parse_callgrind_lines(&report_file(900)).unwrap();
    let new = parse_callgrind_lines(&report_file(990)).unwrap();
    let out = to_strings(format_report(&names, &new, &old).unwrap());
    assert_eq!(
        out[1],
        format!("  Instructions:     {:>15} (+10.00000%)", 990)
    );
}

#[test]
fn missing_benchmark_is_fatal() {
    let names = vec![b"absent".to_vec()];
    let new = parse_callgrind_lines(&report_file(900)).unwrap();
    let old = Vec::new();
    assert_eq!(
        format_report(&names, &new, &old),
        Err(ReportError::MissingBenchmark)
    );
}

#[test]
fn underivable_counters_are_fatal() {
    // More last-level misses than L1 misses: the tier derivation would
    // underflow, so the report is refused rather than rendered wrongly.
    let names = vec![b"bad".to_vec()];
    let new = vec![(
        b"bad".to_vec(),
        CallgrindStats {
            instruction_reads: 10,
            instruction_l1_misses: 1,
            instruction_cache_misses: 5,
            data_reads: 0,
            data_l1_read_misses: 0,
            data_cache_read_misses: 0,
            data_writes: 0,
            data_l1_write_misses: 0,
            data_cache_write_misses: 0,
        },
    )];
    let old = Vec::new();
    assert_eq!(
        format_report(&names, &new, &old),
        Err(ReportError::InvalidCounters)
    );
}

#[test]
fn lookup_takes_the_last_entry_under_a_name() {
    let a = parse_callgrind_lines(&report_file(1)).unwrap()[0].1;
    let b = parse_callgrind_lines(&report_file(2)).unwrap()[0].1;
    let entries = vec![(b"x".to_vec(), a), (b"x".to_vec(), b)];
    assert_eq!(stats_for(&entries, &b"x".to_vec()), Some(b));
    assert_eq!(stats_for(&entries, &b"y".to_vec()), None);
}

#[test]
fn rotation_keeps_one_generation_of_history() {
    let mut slots = ReportSlots::empty();

    // First run: rotate (nothing to keep), then store.
    slots.rotate();
    slots.store(b"first run".to_vec());
    assert_eq!(slots.primary, Some(b"first run".to_vec()));
    assert_eq!(slots.old, None);

    // Second run: the first run's report moves to the old slot.
    slots.rotate();
    slots.store(b"second run".to_vec());
    assert_eq!(slots.primary, Some(b"second run".to_vec()));
    assert_eq!(slots.old, Some(b"first run".to_vec()));

    // A third run prunes the first run's report: single-generation history.
    slots.rotate();
    slots.store(b"third run".to_vec());
    assert_eq!(slots.primary, Some(b"third run".to_vec()));
    assert_eq!(slots.old, Some(b"second run".to_vec()));
}

#[test]
fn rotation_without_a_primary_report_changes_nothing() {
    let mut slots = ReportSlots::empty();
    slots.rotate();
    assert_eq!(slots.primary, None);
    assert_eq!(slots.old, None);
}
