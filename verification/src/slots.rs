//! The persisted report slots: a primary slot holding the latest run's
//! report and an old slot holding the one before it, a single generation of
//! history. Before a new run the primary is rotated into the old slot, so a
//! crash mid-run never corrupts the comparison baseline; the new report then
//! overwrites the primary.

use vstd::prelude::*;

verus! {

/// The contents of the two report slots, as the directory on disk holds
/// them; a slot is `None` where no file exists.
pub struct ReportSlots {
    pub primary: Option<Vec<u8>>,
    pub old: Option<Vec<u8>>,
}

/// The mathematical state of the two slots.
pub struct SlotsView {
    pub primary: Option<Seq<u8>>,
    pub old: Option<Seq<u8>>,
}

/// The view of one slot.
pub open spec fn slot_view(s: Option<Vec<u8>>) -> Option<Seq<u8>> {
    match s {
        Some(v) => Some(v@),
        None => None,
    }
}

impl View for ReportSlots {
    type V = SlotsView;

    open spec fn view(&self) -> SlotsView {
        SlotsView { primary: slot_view(self.primary), old: slot_view(self.old) }
    }
}

/// Rotation copies the primary report into the old slot and leaves the
/// primary in place; with no primary report both slots are unchanged.
pub open spec fn rotate_spec(v: SlotsView) -> SlotsView {
    SlotsView {
        primary: v.primary,
        old: if v.primary is Some {
            v.primary
        } else {
            v.old
        },
    }
}

/// Storing a new report overwrites the primary slot and leaves the old slot
/// alone.
pub open spec fn store_spec(v: SlotsView, content: Seq<u8>) -> SlotsView {
    SlotsView { primary: Some(content), old: v.old }
}

impl ReportSlots {
    /// Slots of a directory with no prior report.
    pub fn empty() -> (s: ReportSlots)
        ensures
            s@.primary is None,
            s@.old is None,
    {
        ReportSlots { primary: None, old: None }
    }

    /// Rotates the primary report into the old slot. Must happen before a
    /// new run's report is stored.
    pub fn rotate(&mut self)
        ensures
            final (self)@ == rotate_spec(old(self)@),
    {
        let copy: Option<Vec<u8>> = match &self.primary {
            Some(p) => {
                let c = p.clone();
                proof {
                    assert(c@ =~= p@);
                }
                Some(c)
            },
            None => None,
        };
        if copy.is_some() {
            self.old = copy;
        }
    }

    /// Stores a new run's report in the primary slot.
    pub fn store(&mut self, content: Vec<u8>)
        ensures
            final (self)@ == store_spec(old(self)@, content@),
    {
        self.primary = Some(content);
    }
}

/// Rotation correctness: whatever the slots held before, after two
/// consecutive runs, each rotating and then storing its report, the old
/// slot holds the first run's report and the primary slot the second's.
pub proof fn lemma_rotation_two_runs(v: SlotsView, first: Seq<u8>, second: Seq<u8>)
    ensures
        store_spec(rotate_spec(store_spec(rotate_spec(v), first)), second) == (SlotsView {
            primary: Some(second),
            old: Some(first),
        }),
{
}

} // verus!
