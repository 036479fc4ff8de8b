// Passive roll trigger: counts ordinary channel messages; when the count
// reaches the configured threshold it resets and a low-probability draw
// decides whether to post an unprompted quote. Threshold and chance are
// configuration, not constants of the logic.

use vstd::prelude::*;

use crate::select::draw_below;

verus! {

/// Messages to count before a roll is attempted, unless configured.
pub const DEFAULT_ROLL_THRESHOLD: u64 = 15;

/// Chance of a roll firing once the threshold is reached, in percent.
pub const DEFAULT_ROLL_CHANCE_PERCENT: u64 = 1;

/// The trigger's state: a single shared counter with its configuration.
pub struct RollTrigger {
    pub counter: u64,
    pub threshold: u64,
    pub chance_percent: u64,
}

/// The counter stays below the threshold, which is at least one; the
/// chance is a percentage.
pub open spec fn trigger_wf(t: RollTrigger) -> bool {
    &&& t.threshold >= 1
    &&& t.chance_percent <= 100
    &&& t.counter < t.threshold
}

impl RollTrigger {
    /// A fresh trigger with the given configuration and nothing counted.
    pub fn new(threshold: u64, chance_percent: u64) -> (t: RollTrigger)
        requires
            threshold >= 1,
            chance_percent <= 100,
        ensures
            trigger_wf(t),
            t.counter == 0,
            t.threshold == threshold,
            t.chance_percent == chance_percent,
    {
        RollTrigger { counter: 0, threshold, chance_percent }
    }

    /// Counts one ordinary message. At the threshold the counter resets and
    /// a percent draw decides whether to post; below it nothing fires. With
    /// a zero chance a roll never fires, with a full chance it fires on
    /// every reset.
    pub fn observe_message(&mut self) -> (fire: bool)
        requires
            trigger_wf(*old(self)),
        ensures
            trigger_wf(*final(self)),
            final(self).threshold == old(self).threshold,
            final(self).chance_percent == old(self).chance_percent,
            final(self).counter == if old(self).counter + 1 >= old(self).threshold {
                0u64
            } else {
                (old(self).counter + 1) as u64
            },
            fire ==> old(self).counter + 1 >= old(self).threshold,
            old(self).chance_percent == 0 ==> !fire,
            old(self).chance_percent == 100 && old(self).counter + 1 >= old(self).threshold
                ==> fire,
    {
        self.counter += 1;
        if self.counter >= self.threshold {
            self.counter = 0;
            let draw = draw_below(100) as u64;
            draw < self.chance_percent
        } else {
            false
        }
    }
}

} // verus!
