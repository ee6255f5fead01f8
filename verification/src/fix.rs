//! The repair run: scanning a user's entities, collecting the ones whose
//! file reference the platform no longer resolves, and discarding them.
//!
//! A repair is deliberately not one transaction: the slow, cancellable
//! validation calls live with the caller, which walks the user's entities
//! page by page through [`crate::search::list_entities`] in last-added
//! order, asks its media platform about each reference, and feeds the
//! verdicts into a [`FixRun`]. The run classifies failures — a
//! reference-invalid verdict is collected, anything else aborts the caller's
//! loop — and at the end deletes every broken entity in one short
//! transaction per entity, through [`crate::entities::remove_file_id`].

use vstd::prelude::*;

use crate::entities::remove_file_id_m;
use crate::store::{Store, StoreModel};
use crate::text::{contains_sub, str_contains};

verus! {

/// How long after a repair the next one is advisory-blocked, in epoch
/// milliseconds: ten minutes.
pub const FIX_COOLDOWN_MS: i64 = 600000;

/// Is a repair started now still inside the cooldown window that the last
/// one opened? Advisory rate-limiting, not mutual exclusion: a concurrent
/// run is wasteful, never unsafe.
pub fn fix_cooldown_active(last_fixed_time: i64, now: i64) -> (r: bool)
    requires
        now >= 0,
        last_fixed_time >= 0,
    ensures
        r == (last_fixed_time > now - FIX_COOLDOWN_MS),
{
    last_fixed_time > now - FIX_COOLDOWN_MS
}

/// Does this platform error message mean the file reference itself is
/// invalid — the one class of validation failure a repair collects instead
/// of aborting on?
pub fn is_invalid_reference_error(msg: &str) -> (r: bool)
    ensures
        r == contains_sub(msg@, "wrong file_id"@),
{
    str_contains(msg, "wrong file_id")
}

/// The store after discarding each broken file reference in turn.
pub open spec fn apply_removals(m: StoreModel, files: Seq<Seq<char>>) -> StoreModel
    decreases files.len(),
{
    if files.len() == 0 {
        m
    } else {
        remove_file_id_m(apply_removals(m, files.drop_last()), files.last())
    }
}

/// One repair run in progress: the file references found broken so far.
pub struct FixRun {
    pub broken: Vec<String>,
}

impl FixRun {
    /// Start a repair run with nothing collected.
    pub fn new() -> (r: FixRun)
        ensures
            r.broken@.len() == 0,
    {
        FixRun { broken: Vec::new() }
    }

    /// Collect one broken file reference.
    pub fn record_invalid(&mut self, file_id: String)
        ensures
            final(self).broken@ == old(self).broken@.push(file_id),
    {
        self.broken.push(file_id);
    }

    /// How many references the run has collected.
    pub fn collected(&self) -> (r: usize)
        ensures
            r == self.broken@.len(),
    {
        self.broken.len()
    }

    /// Finish the run: discard every collected entity — its record, every
    /// user's associations to it and usage of it — one entity at a time,
    /// and report how many were repaired.
    #[verifier::loop_isolation(false)]
    pub fn finish(self, store: &mut Store) -> (count: i32)
        requires
            old(store)@.wf(),
            self.broken@.len() <= i32::MAX,
        ensures
            final(store)@.wf(),
            final(store)@ == apply_removals(
                old(store)@,
                self.broken@.map_values(|s: String| s@),
            ),
            count as int == self.broken@.len(),
    {
        let ghost fv = self.broken@.map_values(|s: String| s@);
        let n = self.broken.len();
        for i in 0..n
            invariant
                n == self.broken@.len(),
                store@.wf(),
                store@ == apply_removals(old(store)@, fv.take(i as int)),
        {
            proof {
                crate::seq_util::lemma_take_push(fv, i as int);
                assert(fv.take(i + 1).drop_last() =~= fv.take(i as int));
            }
            crate::entities::remove_file_id(store, self.broken[i].clone());
        }
        proof {
            crate::seq_util::lemma_take_full(fv);
        }
        n as i32
    }
}

} // verus!
