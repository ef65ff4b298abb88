//! fitgen — builds structured workout files in the binary `.fit` container
//! format: a checksum-protected fixed header, a sequence of variable-length
//! records, and a trailing checksum over the whole record payload.

use vstd::prelude::*;

pub mod crc;
pub mod fit_writer;

verus! {

/// A single named interval of a workout: how long it lasts and the low and
/// high bounds of its target intensity range.
#[derive(Debug, Clone)]
pub struct WorkoutStep {
    pub duration_secs: u32,
    pub target_power_low: u16,
    pub target_power_high: u16,
    pub name: String,
}

/// A workout: a title and its steps in playback order.
#[derive(Debug, Clone)]
pub struct Workout {
    pub title: String,
    pub steps: Vec<WorkoutStep>,
}

impl Workout {
    /// A workout with the given title and no steps yet.
    pub fn new(title: &str) -> (w: Workout)
        ensures
            w.title@ == title@,
            w.steps@.len() == 0,
    {
        Workout { title: title.to_owned(), steps: Vec::new() }
    }

    /// Appends one step to the end of the playback order; everything already
    /// in the workout stays as it was.
    pub fn add_step(
        &mut self,
        name: &str,
        duration_secs: u32,
        target_power_low: u16,
        target_power_high: u16,
    )
        ensures
            final(self).title == old(self).title,
            final(self).steps@.len() == old(self).steps@.len() + 1,
            forall|i: int|
                0 <= i < old(self).steps@.len() ==> final(self).steps@[i] == old(self).steps@[i],
            final(self).steps@.last().name@ == name@,
            final(self).steps@.last().duration_secs == duration_secs,
            final(self).steps@.last().target_power_low == target_power_low,
            final(self).steps@.last().target_power_high == target_power_high,
    {
        self.steps.push(
            WorkoutStep {
                duration_secs: duration_secs,
                target_power_low: target_power_low,
                target_power_high: target_power_high,
                name: name.to_owned(),
            },
        );
    }
}

} // verus!
