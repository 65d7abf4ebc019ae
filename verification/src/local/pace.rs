//! How a search keeps time: what each reading of its clock decides.
use vstd::prelude::*;

use crate::local::astar::SearchSlice;

verus! {

/// What a reading of the clock is taken for.
pub enum Occasion {
    /// Before the next entry is taken off the frontier.
    Turn,
    /// Before the node that was taken is expanded.
    Expansion,
    /// After the search was answered.
    Answer,
}

/// A reading of the clock, and the work done when it was taken.
pub struct Check {
    pub occasion: Occasion,
    pub shown: u128,
    pub work: nat,
}

/// How a call of a search ends.
pub enum Ending {
    /// With a path, or with the knowledge that there is none.
    Answered,
    /// With its slice used up.
    Paused,
    /// With a cumulative budget used up.
    Spent,
}

/// Whether a slice is used up, by `done` expansions or by the time shown.
pub open spec fn slice_over(slice: SearchSlice, done: int, shown: u128) -> bool {
    done >= slice.max_expansions || (slice.time_budget matches Some(budget) && shown >= budget)
}

/// Whether a call that had `left` nanoseconds and had done `base` expansions
/// when it started goes on after a reading.
pub open spec fn goes_on(check: Check, left: int, base: nat, slice: SearchSlice) -> bool {
    &&& check.shown < left
    &&& match check.occasion {
        Occasion::Turn => !slice_over(slice, check.work - base, check.shown),
        Occasion::Expansion => true,
        Occasion::Answer => false,
    }
}

/// Whether one reading may come right after another: an entry is dropped, a node
/// is taken or the search is answered after a turn's reading, and the next turn
/// follows an expansion.
pub open spec fn succeeds(check: Check, next: Check) -> bool {
    match check.occasion {
        Occasion::Turn => next.work == check.work,
        Occasion::Expansion => next.occasion is Turn && next.work == check.work + 1,
        Occasion::Answer => false,
    }
}

/// Whether readings are taken from the start of a call on and every one of them
/// lets it go on.
pub open spec fn keeps_pace(
    checks: Seq<Check>,
    left: int,
    base: nat,
    slice: SearchSlice,
) -> bool {
    &&& checks.len() > 0 ==> checks[0].occasion is Turn && checks[0].work == base
    &&& forall|i: int|
        0 <= i < checks.len() ==> #[trigger] goes_on(checks[i], left, base, slice)
    &&& forall|i: int, j: int|
        0 <= i < checks.len() && j == i + 1 && j < checks.len() ==> succeeds(
            #[trigger] checks[i],
            #[trigger] checks[j],
        )
}

/// The work done once the last of `checks` let a call go on.
pub open spec fn work_since(checks: Seq<Check>, base: nat) -> nat {
    if checks.len() == 0 {
        base
    } else if checks.last().occasion is Expansion {
        checks.last().work + 1
    } else {
        checks.last().work
    }
}

/// Whether a call ends as it does because of its last reading, with `work` done
/// in all: a reading before a turn ends it when a time limit or the slice is used
/// up, a reading before an expansion when a budget is.
pub open spec fn ends_with(
    last: Check,
    left: int,
    base: nat,
    slice: SearchSlice,
    ending: Ending,
    work: nat,
) -> bool {
    match ending {
        Ending::Answered => last.occasion is Answer && work == last.work,
        Ending::Paused => last.occasion is Turn && last.shown < left && slice_over(
            slice,
            last.work - base,
            last.shown,
        ) && work == last.work,
        Ending::Spent => match last.occasion {
            Occasion::Turn => last.shown >= left && work == last.work,
            Occasion::Expansion => last.work <= work <= last.work + 1 && (last.shown >= left
                ==> work == last.work),
            Occasion::Answer => false,
        },
    }
}

/// Whether a call goes on after every reading but its last, and ends with that.
pub open spec fn paced(
    checks: Seq<Check>,
    left: int,
    base: nat,
    slice: SearchSlice,
    ending: Ending,
    work: nat,
) -> bool {
    &&& checks.len() > 0
    &&& keeps_pace(checks.drop_last(), left, base, slice)
    &&& checks.len() == 1 ==> checks[0].occasion is Turn && checks[0].work == base
    &&& checks.len() > 1 ==> succeeds(checks[checks.len() - 2], checks.last())
    &&& ends_with(checks.last(), left, base, slice, ending, work)
}

/// What the clock showed at each of `checks`.
pub open spec fn shown(checks: Seq<Check>) -> Seq<u128> {
    Seq::new(checks.len(), |i: int| checks[i].shown)
}

/// Whether a log only grew.
pub open spec fn extends(log: Seq<u128>, log_after: Seq<u128>) -> bool {
    log.len() <= log_after.len() && forall|i: int|
        0 <= i < log.len() ==> #[trigger] log_after[i] == log[i]
}

/// The readings of a clock since its log was `log`.
pub open spec fn since(log: Seq<u128>, log_after: Seq<u128>) -> Seq<u128> {
    log_after.skip(log.len() as int)
}

/// Whether the readings of a call explain how it ends and how much work it did.
pub open spec fn explained(
    readings: Seq<u128>,
    left: int,
    base: nat,
    slice: SearchSlice,
    ending: Ending,
    work: nat,
) -> bool {
    exists|checks: Seq<Check>| #[trigger]
        paced(checks, left, base, slice, ending, work) && shown(checks) == readings
}

/// One more reading lets a call go on.
pub proof fn lemma_pace_kept(
    checks: Seq<Check>,
    left: int,
    base: nat,
    slice: SearchSlice,
    next: Check,
)
    requires
        keeps_pace(checks, left, base, slice),
        goes_on(next, left, base, slice),
        next.work == work_since(checks, base),
        checks.len() == 0 || checks.last().occasion is Expansion ==> next.occasion is Turn,
    ensures
        keeps_pace(checks.push(next), left, base, slice),
        shown(checks.push(next)) == shown(checks).push(next.shown),
{
    let more = checks.push(next);
    assert forall|i: int| 0 <= i < more.len() implies #[trigger] goes_on(
        more[i],
        left,
        base,
        slice,
    ) by {
        if i < checks.len() {
            assert(goes_on(checks[i], left, base, slice));
        }
    }
    assert forall|i: int, j: int|
        0 <= i < more.len() && j == i + 1 && j < more.len() implies succeeds(
        #[trigger] more[i],
        #[trigger] more[j],
    ) by {
        if j < checks.len() {
            assert(succeeds(checks[i], checks[j]));
        } else {
            assert(goes_on(checks[i], left, base, slice));
        }
    }
    assert(shown(more) =~= shown(checks).push(next.shown));
}

/// The last reading ends a call.
pub proof fn lemma_pace_ended(
    checks: Seq<Check>,
    left: int,
    base: nat,
    slice: SearchSlice,
    last: Check,
    ending: Ending,
    work: nat,
)
    requires
        keeps_pace(checks, left, base, slice),
        last.work == work_since(checks, base),
        checks.len() == 0 || checks.last().occasion is Expansion ==> last.occasion is Turn,
        ends_with(last, left, base, slice, ending, work),
    ensures
        paced(checks.push(last), left, base, slice, ending, work),
        shown(checks.push(last)) == shown(checks).push(last.shown),
        explained(shown(checks).push(last.shown), left, base, slice, ending, work),
{
    let all = checks.push(last);
    assert(all.drop_last() =~= checks);
    if checks.len() > 0 {
        assert(goes_on(checks[checks.len() - 1], left, base, slice));
    }
    assert(shown(all) =~= shown(checks).push(last.shown));
    assert(paced(all, left, base, slice, ending, work));
}

/// A call without time left, or with a slice of no duration, ends with its first
/// reading, before any work.
pub proof fn calls_without_time_do_no_work(
    readings: Seq<u128>,
    left: int,
    base: nat,
    slice: SearchSlice,
    ending: Ending,
    work: nat,
)
    requires
        explained(readings, left, base, slice, ending, work),
        left <= readings[0] || slice_over(slice, 0, readings[0]),
    ensures
        readings.len() == 1,
        work == base,
        if left <= readings[0] {
            ending is Spent
        } else {
            ending is Paused
        },
{
    let checks = choose|checks: Seq<Check>| #[trigger]
        paced(checks, left, base, slice, ending, work) && shown(checks) == readings;
    assert(shown(checks)[0] == checks[0].shown);
    if checks.len() > 1 {
        assert(checks.drop_last()[0] == checks[0]);
        assert(goes_on(checks.drop_last()[0], left, base, slice));
    }
}

/// A reading past the limit is the last one that a call takes, and the call ends
/// with its budget spent unless it had its answer before.
pub proof fn late_readings_end_a_call(
    readings: Seq<u128>,
    left: int,
    base: nat,
    slice: SearchSlice,
    ending: Ending,
    work: nat,
    i: int,
)
    requires
        explained(readings, left, base, slice, ending, work),
        0 <= i < readings.len(),
        readings[i] >= left,
    ensures
        i == readings.len() - 1,
        !(ending is Paused),
{
    let checks = choose|checks: Seq<Check>| #[trigger]
        paced(checks, left, base, slice, ending, work) && shown(checks) == readings;
    assert(shown(checks)[i] == checks[i].shown);
    if i < checks.len() - 1 {
        assert(checks.drop_last()[i] == checks[i]);
        assert(goes_on(checks.drop_last()[i], left, base, slice));
    }
}

/// An answer comes within the limit: the last reading before it is, and so are
/// all the others.
pub proof fn answers_come_in_time(
    readings: Seq<u128>,
    left: int,
    base: nat,
    slice: SearchSlice,
    work: nat,
    i: int,
)
    requires
        explained(readings, left, base, slice, Ending::Answered, work),
        0 <= i < readings.len() - 1,
    ensures
        readings[i] < left,
        readings.len() >= 2 * (work - base) + 2,
{
    let checks = choose|checks: Seq<Check>| #[trigger]
        paced(checks, left, base, slice, Ending::Answered, work) && shown(checks) == readings;
    assert(shown(checks)[i] == checks[i].shown);
    assert(checks.drop_last()[i] == checks[i]);
    assert(goes_on(checks.drop_last()[i], left, base, slice));
    lemma_two_readings_each(checks.drop_last(), left, base, slice);
}

/// Each expansion takes two readings.
proof fn lemma_two_readings_each(
    checks: Seq<Check>,
    left: int,
    base: nat,
    slice: SearchSlice,
)
    requires
        keeps_pace(checks, left, base, slice),
    ensures
        base <= work_since(checks, base),
        checks.len() >= 2 * (work_since(checks, base) - base) + (if checks.len() > 0
            && checks.last().occasion is Turn {
            1int
        } else {
            0int
        }),
        checks.len() > 0 && checks.last().occasion is Expansion ==> checks.len() >= 2,
    decreases checks.len(),
{
    if checks.len() > 0 {
        let before = checks.drop_last();
        let n = checks.len() - 1;
        assert(goes_on(checks[n], left, base, slice));
        assert forall|i: int| 0 <= i < before.len() implies #[trigger] goes_on(
            before[i],
            left,
            base,
            slice,
        ) by {
            assert(goes_on(checks[i], left, base, slice));
        }
        assert forall|i: int, j: int|
            0 <= i < before.len() && j == i + 1 && j < before.len() implies succeeds(
            #[trigger] before[i],
            #[trigger] before[j],
        ) by {
            assert(succeeds(checks[i], checks[j]));
        }
        lemma_two_readings_each(before, left, base, slice);
        if n > 0 {
            assert(succeeds(checks[n - 1], checks[n]));
        }
    }
}

} // verus!
