//! Applying a gear document's selected virtues: resolving the `[Virtues]`
//! slots against the virtue data and adding the picked virtues' stats to the
//! document's innate stats.
use vstd::prelude::*;

use crate::gearstats::{opt_text, GearDoc};
use crate::stat::{in_i64_range, Stat};
use crate::virtues::{
    picks_total, resolved_slot, selection_fits, selection_walk, slot_views, ResolvedVirtues, SelectionFault, VirtueStats,
    VirtuesDb, VirtuesError,
};

verus! {

/// What resolving the selection `sel` against `db` gives: the fault, or the
/// canonical names and the summed stats of the picked virtues.
pub open spec fn resolution_is(
    db: Map<Seq<char>, (Seq<char>, VirtueStats)>,
    sel: Seq<Option<Seq<char>>>,
    r: Result<ResolvedVirtues, VirtuesError>,
) -> bool {
    match selection_walk(db, sel, 5) {
        Err(SelectionFault::Unknown(name)) => (r matches Err(VirtuesError::UnknownSelectedVirtue { entered_name })
            && entered_name@ == name),
        Err(SelectionFault::Duplicate(name)) => (r matches Err(VirtuesError::DuplicateSelectedVirtue { virtue_name })
            && virtue_name@ == name),
        Ok(picks) => (r matches Ok(rv) && slot_views(rv.slots@) == Seq::new(5, |i: int| resolved_slot(db, sel[i]))
            && (forall|s: Stat| #[trigger] rv.tracked_stats.value(s) == picks_total(db, picks, s, false)) && (forall|
            s: Stat,
        | #[trigger] rv.base_stats.value(s) == picks_total(db, picks, s, true))),
    }
}

/// Whether adding the stats of the virtues a document selects keeps each of
/// its innate tracked and Base stats an `i64`.
pub open spec fn virtues_add_fit(db: Map<Seq<char>, (Seq<char>, VirtueStats)>, doc: GearDoc) -> bool {
    match selection_walk(db, slot_views(doc.selected_virtues.slots@), 5) {
        Ok(picks) => forall|s: Stat|
            #![trigger doc.innate_stats.value(s)]
            #![trigger doc.innate_base_stats.value(s)]
            in_i64_range(doc.innate_stats.value(s) + picks_total(db, picks, s, false)) && in_i64_range(
                doc.innate_base_stats.value(s) + picks_total(db, picks, s, true),
            ),
        Err(_) => true,
    }
}

/// `new` is `old` with the resolved virtues `rv` applied: their tracked
/// stats added to the innate stats, their Base stats to the innate Base
/// stats, and each slot holding its virtue's canonical name.
pub open spec fn virtues_applied(old: GearDoc, new: GearDoc, rv: ResolvedVirtues) -> bool {
    &&& forall|s: Stat| #[trigger] new.innate_stats.value(s) == old.innate_stats.value(s) + rv.tracked_stats.value(s)
    &&& forall|s: Stat| #[trigger] new.innate_base_stats.value(s) == old.innate_base_stats.value(s) + rv.base_stats.value(s)
    &&& slot_views(new.selected_virtues.slots@) == slot_views(rv.slots@)
    &&& new.character == old.character
    &&& new.class == old.class
    &&& new.items == old.items
    &&& new.skipped == old.skipped
}

fn copy_slot(o: &Option<String>) -> (r: Option<String>)
    ensures
        opt_text(r) == opt_text(*o),
{
    match o {
        Some(x) => Some(x.clone()),
        None => None,
    }
}

fn copy_slots(slots: &[Option<String>; 5]) -> (r: [Option<String>; 5])
    ensures
        slot_views(r@) == slot_views(slots@),
{
    let r = [
        copy_slot(&slots[0]),
        copy_slot(&slots[1]),
        copy_slot(&slots[2]),
        copy_slot(&slots[3]),
        copy_slot(&slots[4]),
    ];
    assert forall|k: int| 0 <= k < 5 implies #[trigger] slot_views(r@)[k] == slot_views(slots@)[k] by {
        assert(slot_views(r@)[k] == opt_text(r@[k]));
        assert(slot_views(slots@)[k] == opt_text(slots@[k]));
    }
    assert(slot_views(r@) =~= slot_views(slots@));
    r
}

impl VirtuesDb {
    /// Resolves the virtues a gear document selects and applies them: their
    /// tracked stats are added to `innate_stats`, their Base stats to
    /// `innate_base_stats`, and each slot takes the virtue's name as written
    /// in the data. On an error the document is left as it was.
    pub fn apply_selected_virtues(&self, doc: &mut GearDoc) -> (r: Result<ResolvedVirtues, VirtuesError>)
        requires
            selection_fits(self@, slot_views(old(doc).selected_virtues.slots@)),
            virtues_add_fit(self@, *old(doc)),
        ensures
            resolution_is(self@, slot_views(old(doc).selected_virtues.slots@), r),
            r matches Ok(rv) ==> virtues_applied(*old(doc), *final(doc), rv),
            r is Err ==> *final(doc) == *old(doc),
    {
        let resolved = match self.resolve_selected(&doc.selected_virtues) {
            Ok(rv) => rv,
            Err(e) => return Err(e),
        };
        doc.innate_stats.add_all(&resolved.tracked_stats);
        doc.innate_base_stats.add_all(&resolved.base_stats);
        doc.selected_virtues.slots = copy_slots(&resolved.slots);
        Ok(resolved)
    }

    /// Whether `apply_selected_virtues` may run on `doc`: resolving its
    /// selection, and adding the totals to its innate stats, stays within
    /// `i64`.
    pub fn virtues_fit_doc(&self, doc: &GearDoc) -> (r: bool)
        ensures
            r == (selection_fits(self@, slot_views(doc.selected_virtues.slots@)) && virtues_add_fit(self@, *doc)),
    {
        if !self.selection_fits_exec(&doc.selected_virtues) {
            return false;
        }
        match self.resolve_selected(&doc.selected_virtues) {
            Ok(rv) => doc.innate_stats.sum_fits(&rv.tracked_stats) && doc.innate_base_stats.sum_fits(&rv.base_stats),
            Err(_) => true,
        }
    }
}


} // verus!
