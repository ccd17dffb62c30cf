//! The alert policy: when the tone sounds.

use vstd::prelude::*;

verus! {

/// Seconds between two reminders once the countdown has passed zero.
pub const REMINDER_PERIOD: i32 = 300;

/// `n` is a reminder mark: past zero, and a whole number of periods.
pub open spec fn is_reminder_mark(n: int) -> bool {
    n < 0 && n % (REMINDER_PERIOD as int) == 0
}

/// The decision of the policy for one tick that took the counter from
/// `previous` to `current`: whether the tone sounds, and whether it has now
/// sounded for the mark that `current` is on.
///
/// The tone sounds on the step from a value that is not negative to -1. It
/// sounds on a reminder mark unless it has sounded for that mark already.
/// Off such a mark the memory is cleared.
pub open spec fn alert(previous: int, current: int, played: bool) -> (bool, bool) {
    if current == -1 && previous >= 0 {
        (true, true)
    } else if is_reminder_mark(current) {
        (!played, true)
    } else {
        (false, false)
    }
}

/// Decides for one tick whether the tone sounds; the second part is the
/// memory to hand in at the next tick.
pub fn should_play(
    previous_remaining: i32,
    current_remaining: i32,
    already_played_for_bucket: bool,
) -> (decision: (bool, bool))
    ensures
        decision == alert(
            previous_remaining as int,
            current_remaining as int,
            already_played_for_bucket,
        ),
{
    if current_remaining == -1 && previous_remaining >= 0 {
        (true, true)
    } else if current_remaining < 0 && current_remaining % REMINDER_PERIOD == 0 {
        (!already_played_for_bucket, true)
    } else {
        (false, false)
    }
}

/// While the counter is not negative the tone stays silent.
pub proof fn lemma_silent_before_zero(previous: int, current: int, played: bool)
    requires
        current >= 0,
    ensures
        !alert(previous, current, played).0,
        !alert(previous, current, played).1,
{
}

/// On one mark the tone sounds once: a second decision on the same mark, with
/// the memory of the first, is silent.
pub proof fn lemma_once_per_mark(previous: int, current: int, played: bool)
    requires
        is_reminder_mark(current),
    ensures
        !alert(current, current, alert(previous, current, played).1).0,
{
}

} // verus!
