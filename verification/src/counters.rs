//! Raw event counters produced by one simulator run, and the statistics
//! derived from them: cache-hit tiers and an estimated cycle count.

use vstd::prelude::*;

verus! {

/// The fixed set of event counters read from the simulator's report for one
/// benchmark. A counter absent from the report defaults to zero.
#[derive(Clone, Copy, Debug, PartialEq, Eq, Structural)]
#[verifier::ext_equal]
pub struct CallgrindStats {
    pub instruction_reads: u64,
    pub instruction_l1_misses: u64,
    pub instruction_cache_misses: u64,
    pub data_reads: u64,
    pub data_l1_read_misses: u64,
    pub data_cache_read_misses: u64,
    pub data_writes: u64,
    pub data_l1_write_misses: u64,
    pub data_cache_write_misses: u64,
}

/// Memory references satisfied at each tier of the hierarchy.
#[derive(Clone, Copy, Debug, PartialEq, Eq, Structural)]
pub struct CallgrindSummary {
    pub l1_hits: u64,
    pub l3_hits: u64,
    pub ram_hits: u64,
}

/// Saturating subtraction: never below zero.
pub open spec fn sat_sub(a: int, b: int) -> int {
    if a >= b {
        a - b
    } else {
        0
    }
}

impl CallgrindStats {
    /// Total memory references: instruction reads plus data reads plus data
    /// writes.
    pub open spec fn total_refs(self) -> int {
        self.instruction_reads + self.data_reads + self.data_writes
    }

    /// References that escalated all the way to RAM: last-level misses of
    /// every category.
    pub open spec fn ram_hits_spec(self) -> int {
        self.instruction_cache_misses + self.data_cache_read_misses
            + self.data_cache_write_misses
    }

    /// References that left L1: first-level misses of every category.
    pub open spec fn l3_accesses(self) -> int {
        self.instruction_l1_misses + self.data_l1_read_misses + self.data_l1_write_misses
    }

    /// References satisfied by the last-level cache.
    pub open spec fn l3_hits_spec(self) -> int {
        self.l3_accesses() - self.ram_hits_spec()
    }

    /// References satisfied by L1.
    pub open spec fn l1_hits_spec(self) -> int {
        self.total_refs() - self.l3_accesses()
    }

    /// A counter set is well formed when, in each category, every last-level
    /// miss is also a first-level miss and every first-level miss is also an
    /// access, and the total reference count fits the counter width. The
    /// simulator's counters satisfy this by construction.
    pub open spec fn well_formed(self) -> bool {
        &&& self.instruction_cache_misses <= self.instruction_l1_misses
        &&& self.instruction_l1_misses <= self.instruction_reads
        &&& self.data_cache_read_misses <= self.data_l1_read_misses
        &&& self.data_l1_read_misses <= self.data_reads
        &&& self.data_cache_write_misses <= self.data_l1_write_misses
        &&& self.data_l1_write_misses <= self.data_writes
        &&& self.total_refs() <= u64::MAX
    }

    /// The counter-wise saturating difference, used to remove a calibration
    /// baseline from a measurement.
    pub open spec fn subtract_spec(self, baseline: CallgrindStats) -> CallgrindStats {
        CallgrindStats {
            instruction_reads: sat_sub(
                self.instruction_reads as int,
                baseline.instruction_reads as int,
            ) as u64,
            instruction_l1_misses: sat_sub(
                self.instruction_l1_misses as int,
                baseline.instruction_l1_misses as int,
            ) as u64,
            instruction_cache_misses: sat_sub(
                self.instruction_cache_misses as int,
                baseline.instruction_cache_misses as int,
            ) as u64,
            data_reads: sat_sub(self.data_reads as int, baseline.data_reads as int) as u64,
            data_l1_read_misses: sat_sub(
                self.data_l1_read_misses as int,
                baseline.data_l1_read_misses as int,
            ) as u64,
            data_cache_read_misses: sat_sub(
                self.data_cache_read_misses as int,
                baseline.data_cache_read_misses as int,
            ) as u64,
            data_writes: sat_sub(self.data_writes as int, baseline.data_writes as int) as u64,
            data_l1_write_misses: sat_sub(
                self.data_l1_write_misses as int,
                baseline.data_l1_write_misses as int,
            ) as u64,
            data_cache_write_misses: sat_sub(
                self.data_cache_write_misses as int,
                baseline.data_cache_write_misses as int,
            ) as u64,
        }
    }

    /// A counter set with every counter zero.
    pub open spec fn zero() -> CallgrindStats {
        CallgrindStats {
            instruction_reads: 0u64,
            instruction_l1_misses: 0u64,
            instruction_cache_misses: 0u64,
            data_reads: 0u64,
            data_l1_read_misses: 0u64,
            data_cache_read_misses: 0u64,
            data_writes: 0u64,
            data_l1_write_misses: 0u64,
            data_cache_write_misses: 0u64,
        }
    }

    /// References that went to RAM: the sum of the last-level misses.
    pub fn ram_accesses(&self) -> (r: u64)
        requires
            self.ram_hits_spec() <= u64::MAX,
        ensures
            r == self.ram_hits_spec(),
    {
        self.instruction_cache_misses + self.data_cache_read_misses
            + self.data_cache_write_misses
    }

    /// Derives the tier summary. Each reference is counted at exactly one
    /// tier, so the three tiers together conserve the total reference count.
    pub fn summarize(&self) -> (s: CallgrindSummary)
        requires
            self.well_formed(),
        ensures
            s.l1_hits == self.l1_hits_spec(),
            s.l3_hits == self.l3_hits_spec(),
            s.ram_hits == self.ram_hits_spec(),
            s.l1_hits + s.l3_hits + s.ram_hits == self.total_refs(),
    {
        let ram_hits = self.ram_accesses();
        let l3_accesses = self.instruction_l1_misses + self.data_l1_read_misses
            + self.data_l1_write_misses;
        let l3_hits = l3_accesses - ram_hits;

        let total_memory_rw = self.instruction_reads + self.data_reads + self.data_writes;
        let l1_hits = total_memory_rw - (ram_hits + l3_hits);

        CallgrindSummary { l1_hits, l3_hits, ram_hits }
    }

    /// Whether this counter set satisfies `well_formed`, so that an
    /// unverified caller can test the precondition of `summarize` before
    /// calling it.
    pub fn is_well_formed(&self) -> (b: bool)
        ensures
            b == self.well_formed(),
    {
        self.instruction_cache_misses <= self.instruction_l1_misses
            && self.instruction_l1_misses <= self.instruction_reads
            && self.data_cache_read_misses <= self.data_l1_read_misses
            && self.data_l1_read_misses <= self.data_reads
            && self.data_cache_write_misses <= self.data_l1_write_misses
            && self.data_l1_write_misses <= self.data_writes
            && (self.instruction_reads as u128) + (self.data_reads as u128)
                + (self.data_writes as u128) <= u64::MAX as u128
    }

    /// Removes a calibration baseline counter by counter, saturating at
    /// zero; a measurement never goes negative however large the baseline.
    pub fn subtract(&self, baseline: &CallgrindStats) -> (r: CallgrindStats)
        ensures
            r == self.subtract_spec(*baseline),
    {
        CallgrindStats {
            instruction_reads: saturating_sub_u64(
                self.instruction_reads,
                baseline.instruction_reads,
            ),
            instruction_l1_misses: saturating_sub_u64(
                self.instruction_l1_misses,
                baseline.instruction_l1_misses,
            ),
            instruction_cache_misses: saturating_sub_u64(
                self.instruction_cache_misses,
                baseline.instruction_cache_misses,
            ),
            data_reads: saturating_sub_u64(self.data_reads, baseline.data_reads),
            data_l1_read_misses: saturating_sub_u64(
                self.data_l1_read_misses,
                baseline.data_l1_read_misses,
            ),
            data_cache_read_misses: saturating_sub_u64(
                self.data_cache_read_misses,
                baseline.data_cache_read_misses,
            ),
            data_writes: saturating_sub_u64(self.data_writes, baseline.data_writes),
            data_l1_write_misses: saturating_sub_u64(
                self.data_l1_write_misses,
                baseline.data_l1_write_misses,
            ),
            data_cache_write_misses: saturating_sub_u64(
                self.data_cache_write_misses,
                baseline.data_cache_write_misses,
            ),
        }
    }
}

/// `a - b`, floored at zero.
pub fn saturating_sub_u64(a: u64, b: u64) -> (r: u64)
    ensures
        r == sat_sub(a as int, b as int),
{
    if a >= b {
        a - b
    } else {
        0
    }
}

impl CallgrindSummary {
    /// The estimated cycle count: one cycle per L1 hit, five per last-level
    /// hit, thirty-five per RAM hit. Fixed published weights; changing them
    /// would break comparability with prior reports.
    pub open spec fn cycles_spec(self) -> int {
        self.l1_hits + 5 * self.l3_hits + 35 * self.ram_hits
    }

    /// The estimated cycle count of this summary.
    pub fn cycles(&self) -> (r: u64)
        requires
            self.cycles_spec() <= u64::MAX,
        ensures
            r == self.cycles_spec(),
    {
        self.l1_hits + 5 * self.l3_hits + 35 * self.ram_hits
    }

    /// The estimated cycle count, or `None` where the weighted sum does not
    /// fit the counter width, so that an unverified caller can test before
    /// calling `cycles`.
    pub fn checked_cycles(&self) -> (r: Option<u64>)
        ensures
            self.cycles_spec() <= u64::MAX ==> r == Some(self.cycles_spec() as u64),
            self.cycles_spec() > u64::MAX ==> r is None,
    {
        let wide: u128 = (self.l1_hits as u128) + 5 * (self.l3_hits as u128) + 35 * (
        self.ram_hits as u128);
        if wide <= u64::MAX as u128 {
            Some(wide as u64)
        } else {
            None
        }
    }
}

/// Conservation of memory references: for every well-formed counter set the
/// derived tier hits partition the total, `l1 + l3 + ram == instruction
/// reads + data reads + data writes`.
pub proof fn lemma_tier_conservation(c: CallgrindStats)
    requires
        c.well_formed(),
    ensures
        c.l1_hits_spec() + c.l3_hits_spec() + c.ram_hits_spec() == c.total_refs(),
{
}

/// Calibration is idempotent at the origin: subtracting a counter set from
/// itself yields the all-zero counter set.
pub proof fn lemma_self_subtract_is_zero(c: CallgrindStats)
    ensures
        c.subtract_spec(c) == CallgrindStats::zero(),
{
}

/// Subtracting a baseline twice in sequence never underflows: every counter
/// of the result is the twice-saturated difference, which floors at zero
/// even where the baseline exceeds what is left after the first
/// subtraction.
pub proof fn lemma_double_subtract_saturates(c: CallgrindStats, baseline: CallgrindStats)
    ensures
        c.subtract_spec(baseline).subtract_spec(baseline).instruction_reads == sat_sub(
            sat_sub(c.instruction_reads as int, baseline.instruction_reads as int),
            baseline.instruction_reads as int,
        ),
        c.subtract_spec(baseline).subtract_spec(baseline).instruction_l1_misses == sat_sub(
            sat_sub(c.instruction_l1_misses as int, baseline.instruction_l1_misses as int),
            baseline.instruction_l1_misses as int,
        ),
        c.subtract_spec(baseline).subtract_spec(baseline).instruction_cache_misses == sat_sub(
            sat_sub(c.instruction_cache_misses as int, baseline.instruction_cache_misses as int),
            baseline.instruction_cache_misses as int,
        ),
        c.subtract_spec(baseline).subtract_spec(baseline).data_reads == sat_sub(
            sat_sub(c.data_reads as int, baseline.data_reads as int),
            baseline.data_reads as int,
        ),
        c.subtract_spec(baseline).subtract_spec(baseline).data_l1_read_misses == sat_sub(
            sat_sub(c.data_l1_read_misses as int, baseline.data_l1_read_misses as int),
            baseline.data_l1_read_misses as int,
        ),
        c.subtract_spec(baseline).subtract_spec(baseline).data_cache_read_misses == sat_sub(
            sat_sub(c.data_cache_read_misses as int, baseline.data_cache_read_misses as int),
            baseline.data_cache_read_misses as int,
        ),
        c.subtract_spec(baseline).subtract_spec(baseline).data_writes == sat_sub(
            sat_sub(c.data_writes as int, baseline.data_writes as int),
            baseline.data_writes as int,
        ),
        c.subtract_spec(baseline).subtract_spec(baseline).data_l1_write_misses == sat_sub(
            sat_sub(c.data_l1_write_misses as int, baseline.data_l1_write_misses as int),
            baseline.data_l1_write_misses as int,
        ),
        c.subtract_spec(baseline).subtract_spec(baseline).data_cache_write_misses == sat_sub(
            sat_sub(c.data_cache_write_misses as int, baseline.data_cache_write_misses as int),
            baseline.data_cache_write_misses as int,
        ),
{
}

} // verus!
