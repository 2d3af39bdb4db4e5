use iai::counters::CallgrindStats;
use iai::counters::CallgrindSummary;

fn stats(
    ir: u64,
    i1mr: u64,
    ilmr: u64,
    dr: u64,
    d1mr: u64,
    dlmr: u64,
    dw: u64,
    d1mw: u64,
    dlmw: u64,
) -> CallgrindStats {
    CallgrindStats {
        instruction_reads: ir,
        instruction_l1_misses: i1mr,
        instruction_cache_misses: ilmr,
        data_reads: dr,
        data_l1_read_misses: d1mr,
        data_cache_read_misses: dlmr,
        data_writes: dw,
        data_l1_write_misses: d1mw,
        data_cache_write_misses: dlmw,
    }
}

#[test]
fn summarize_exact_values() {
    let c = stats(100, 10, 4, 50, 6, 2, 30, 3, 1);
    assert!(c.is_well_formed());
    let s = c.summarize();
    assert_eq!(s.ram_hits, 7);
    assert_eq!(s.l3_hits, 12);
    assert_eq!(s.l1_hits, 161);
    assert_eq!(s.cycles(), 161 + 5 * 12 + 35 * 7);
}

#[test]
fn conservation_of_references() {
    let c = stats(1234, 60, 11, 567, 40, 9, 89, 20, 3);
    assert!(c.is_well_formed());
    let s = c.summarize();
    assert_eq!(
        s.l1_hits + s.l3_hits + s.ram_hits,
        c.instruction_reads + c.data_reads + c.data_writes
    );
}

#[test]
fn conservation_on_zero_counters() {
    let c = stats(0, 0, 0, 0, 0, 0, 0, 0, 0);
    assert!(c.is_well_formed());
    let s = c.summarize();
    assert_eq!(s.l1_hits + s.l3_hits + s.ram_hits, 0);
}

#[test]
fn ram_accesses_sums_last_level_misses() {
    let c = stats(100, 10, 4, 50, 6, 2, 30, 3, 1);
    assert_eq!(c.ram_accesses(), 7);
}

#[test]
fn subtract_baseline_from_itself_is_zero() {
    let c = stats(100, 10, 4, 50, 6, 2, 30, 3, 1);
    let z = c.subtract(&c);
    assert_eq!(z, stats(0, 0, 0, 0, 0, 0, 0, 0, 0));
}

#[test]
fn double_subtraction_saturates_at_zero() {
    let a = stats(5, 5, 5, 5, 5, 5, 5, 5, 5);
    let b = stats(3, 4, 5, 6, 3, 4, 5, 6, 3);
    let once = a.subtract(&b);
    assert_eq!(once, stats(2, 1, 0, 0, 2, 1, 0, 0, 2));
    let twice = once.subtract(&b);
    assert_eq!(twice, stats(0, 0, 0, 0, 0, 0, 0, 0, 0));
}

#[test]
fn ill_formed_counters_are_detected() {
    // More last-level misses than L1 misses cannot come from a real run.
    let c = stats(100, 2, 4, 50, 6, 2, 30, 3, 1);
    assert!(!c.is_well_formed());
    // A total reference count past the counter width is rejected too.
    let c = stats(u64::MAX, 0, 0, u64::MAX, 0, 0, 0, 0, 0);
    assert!(!c.is_well_formed());
}

#[test]
fn checked_cycles_detects_overflow() {
    let s = CallgrindSummary { l1_hits: 1, l3_hits: 1, ram_hits: 1 };
    assert_eq!(s.checked_cycles(), Some(41));
    let s = CallgrindSummary { l1_hits: u64::MAX, l3_hits: u64::MAX, ram_hits: u64::MAX };
    assert_eq!(s.checked_cycles(), None);
}
