use iai::command::build_cachegrind_command;
use iai::command::parse_selector;
use iai::command::MeasuredSelector;
use iai::command::SimulatorLaunch;
use iai::counters::CallgrindStats;
use iai::parser::parse_summary_lines;
use iai::parser::ParseError;

fn lines(text: &[&str]) -> Vec<Vec<u8>> {
    text.iter().map(|s| s.as_bytes().to_vec()).collect()
}

#[test]
fn summary_line_round_trip() {
    let input = lines(&[
        "events: Ir I1mr ILmr Dr D1mr DLmr Dw D1mw DLmw",
        "summary: 900 10 4 500 6 2 300 3 1",
    ]);
    let parsed = parse_summary_lines(&input).unwrap();
    assert_eq!(
        parsed,
        CallgrindStats {
            instruction_reads: 900,
            instruction_l1_misses: 10,
            instruction_cache_misses: 4,
            data_reads: 500,
            data_l1_read_misses: 6,
            data_cache_read_misses: 2,
            data_writes: 300,
            data_l1_write_misses: 3,
            data_cache_write_misses: 1,
        }
    );
}

#[test]
fn summary_unknown_events_are_ignored() {
    let input = lines(&["events: Ir Bogus Dw", "summary: 7 99 8"]);
    let parsed = parse_summary_lines(&input).unwrap();
    assert_eq!(parsed.instruction_reads, 7);
    assert_eq!(parsed.data_writes, 8);
    assert_eq!(parsed.data_reads, 0);
}

#[test]
fn missing_summary_line_is_fatal() {
    let input = lines(&["events: Ir", "totals: 3"]);
    assert_eq!(parse_summary_lines(&input), Err(ParseError::MissingSummary));
}

#[test]
fn summary_before_header_is_fatal() {
    let input = lines(&["summary: 3", "events: Ir"]);
    assert_eq!(parse_summary_lines(&input), Err(ParseError::MissingEvents));
}

#[test]
fn unreadable_summary_number_is_fatal() {
    let input = lines(&["events: Ir", "summary: 3x"]);
    assert_eq!(parse_summary_lines(&input), Err(ParseError::BadNumber));
}

#[test]
fn calibration_subtraction_on_parsed_summaries() {
    let baseline =
        parse_summary_lines(&lines(&["events: Ir Dr Dw", "summary: 100 50 30"])).unwrap();
    let measured =
        parse_summary_lines(&lines(&["events: Ir Dr Dw", "summary: 150 40 90"])).unwrap();
    let net = measured.subtract(&baseline);
    assert_eq!(net.instruction_reads, 50);
    // The baseline exceeded the measurement here; the counter floors at zero.
    assert_eq!(net.data_reads, 0);
    assert_eq!(net.data_writes, 60);
}

#[test]
fn selector_protocol_round_trip() {
    assert_eq!(parse_selector(None), Some(MeasuredSelector::WholeRegistry));
    assert_eq!(
        parse_selector(Some(&b"-1".to_vec())),
        Some(MeasuredSelector::CalibrationRun)
    );
    assert_eq!(
        parse_selector(Some(&b"5".to_vec())),
        Some(MeasuredSelector::Single(5))
    );
    assert_eq!(parse_selector(Some(&b"five".to_vec())), None);
    assert_eq!(parse_selector(Some(&b"".to_vec())), None);
}

#[test]
fn cachegrind_command_carries_the_selector_index() {
    let out_file = b"target/iai/cachegrind.out.alpha".to_vec();
    let executable = b"/path/to/bench".to_vec();
    let argv = build_cachegrind_command(
        &SimulatorLaunch::Plain,
        &out_file,
        &executable,
        &MeasuredSelector::Single(3),
    );
    let argv: Vec<String> = argv
        .into_iter()
        .map(|a| String::from_utf8(a).unwrap())
        .collect();
    assert_eq!(
        argv,
        vec![
            "valgrind",
            "--tool=cachegrind",
            "--I1=32768,8,64",
            "--D1=32768,8,64",
            "--LL=8388608,16,64",
            "--cache-sim=yes",
            "--cachegrind-out-file=target/iai/cachegrind.out.alpha",
            "/path/to/bench",
            "--iai-run",
            "3",
        ]
        .into_iter()
        .map(String::from)
        .collect::<Vec<_>>()
    );
}

#[test]
fn calibration_command_carries_the_sentinel() {
    let out_file = b"out".to_vec();
    let executable = b"bench".to_vec();
    let argv = build_cachegrind_command(
        &SimulatorLaunch::Plain,
        &out_file,
        &executable,
        &MeasuredSelector::CalibrationRun,
    );
    let last = String::from_utf8(argv.last().unwrap().clone()).unwrap();
    assert_eq!(last, "-1");
}
