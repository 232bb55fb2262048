//! What the animal can be relied on to do: it stays on the screen, nods off
//! under a still cursor, wakes for a moving one and runs over to it.

use vstd::prelude::*;

use crate::chase::{
    brisk, covers_pace, distance_squared, longer_leg, one_is_positive, one_squared, shorter_leg, step_closes_in,
    step_keeps_pace, step_never_overshoots, step_stops_only_at_the_point,
};
use crate::double::{Double, den_is_positive, divided_by_one, larger_divisors_count_less};
use crate::neko::{
    AKUBI_TIME, AWAKE_TIME, JARE_TIME, KAKI_TIME, Mind, SPRITE_SIZE, STOP_TIME, TOGI_TIME, Config,
    confined, goal, newborn, timeout_of, went_beyond,
};
use crate::state::{State, Wall, frame_names};

verus! {

/// The animal after one tick for each of `cursors`, in order.
pub open spec fn after(mind: Mind, cursors: Seq<(int, int)>) -> Mind
    decreases cursors.len(),
{
    if cursors.len() == 0 {
        mind
    } else {
        after(mind, cursors.drop_last()).ticked(cursors.last())
    }
}

/// The animal after `n` ticks with the cursor at `cursor` all along.
pub open spec fn still(mind: Mind, cursor: (int, int), n: nat) -> Mind
    decreases n,
{
    if n == 0 {
        mind
    } else {
        still(mind, cursor, (n - 1) as nat).ticked(cursor)
    }
}

/// Waiting twice is waiting once for longer.
pub proof fn waits_add_up(mind: Mind, cursor: (int, int), a: nat, b: nat)
    ensures
        still(mind, cursor, a + b) == still(still(mind, cursor, a), cursor, b),
    decreases b,
{
    if b > 0 {
        waits_add_up(mind, cursor, a, (b - 1) as nat);
        assert((a + b - 1) as nat == a + (b - 1) as nat);
    }
}

/// Born on a screen that is large enough for it, the animal is on the screen.
pub proof fn starts_on_the_screen(config: Config, bounds: (int, int))
    requires
        bounds.0 >= SPRITE_SIZE,
        bounds.1 >= SPRITE_SIZE,
    ensures
        newborn(config, bounds).on_screen(),
{
}

/// A tick does not take the animal off the screen, wherever the cursor is.
pub proof fn a_tick_keeps_it_on_the_screen(mind: Mind, cursor: (int, int))
    requires
        mind.on_screen(),
    ensures
        mind.ticked(cursor).on_screen(),
        mind.ticked(cursor).bounds == mind.bounds,
        mind.ticked(cursor).config == mind.config,
{
}

/// Wherever the cursor goes, the animal never leaves the screen.
pub proof fn it_never_leaves_the_screen(mind: Mind, cursors: Seq<(int, int)>)
    requires
        mind.on_screen(),
    ensures
        after(mind, cursors).on_screen(),
        after(mind, cursors).bounds == mind.bounds,
    decreases cursors.len(),
{
    if cursors.len() > 0 {
        it_never_leaves_the_screen(mind, cursors.drop_last());
        a_tick_keeps_it_on_the_screen(after(mind, cursors.drop_last()), cursors.last());
    }
}

/// Resizing the screen leaves the animal on it, and moves it no further than it
/// has to.
pub proof fn resizing_pulls_it_back_in(mind: Mind, bounds: (int, int))
    ensures
        (Mind { bounds, at: confined(bounds, mind.at), ..mind }).on_screen(),
        (Mind { bounds, ..mind }).on_screen() ==> confined(bounds, mind.at) == mind.at,
{
}

/// Whether a state is one the animal takes up when there is nothing to chase.
pub open spec fn at_rest(state: State) -> bool {
    match state {
        State::Awake | State::Move(_) => false,
        _ => true,
    }
}

/// Any cursor movement beyond the deadzone wakes an animal at rest, where it is.
pub proof fn movement_wakes_it(mind: Mind, cursor: (int, int))
    requires
        at_rest(mind.state),
        mind.notices(cursor),
    ensures
        mind.ticked(cursor).state == State::Awake,
        mind.ticked(cursor).at == mind.at,
{
}

/// Whether every cursor position in the sequence is within the deadzone of the
/// one before it.
pub open spec fn only_jitters(mind: Mind, cursors: Seq<(int, int)>) -> bool {
    forall|i: int|
        0 <= i < cursors.len() ==> !went_beyond(
            mind.config.idle_space as int,
            if i == 0 {
                mind.mouse
            } else {
                cursors[i - 1]
            },
            #[trigger] cursors[i],
        )
}

/// Jitter inside the deadzone does not wake a sleeping animal, however long it
/// goes on.
pub proof fn jitter_does_not_wake_it(mind: Mind, cursors: Seq<(int, int)>)
    requires
        mind.state == State::Sleep,
        only_jitters(mind, cursors),
    ensures
        after(mind, cursors).state == State::Sleep,
        after(mind, cursors).at == mind.at,
        after(mind, cursors).config == mind.config,
        after(mind, cursors).mouse == (if cursors.len() == 0 { mind.mouse } else { cursors.last() }),
    decreases cursors.len(),
{
    if cursors.len() > 0 {
        let before = cursors.drop_last();
        assert forall|i: int| 0 <= i < before.len() implies !went_beyond(
            mind.config.idle_space as int,
            if i == 0 {
                mind.mouse
            } else {
                before[i - 1]
            },
            #[trigger] before[i],
        ) by {
            assert(before[i] == cursors[i]);
        }
        jitter_does_not_wake_it(mind, before);
        let last = cursors.len() - 1;
        assert(cursors[last] == cursors.last());
    }
}

/// Where the idle chain goes from a state: how long that state lasts, and what
/// comes after it.
pub open spec fn next_pose(mind: Mind, cursor: (int, int)) -> (u32, State) {
    match mind.state {
        State::Stop => (
            STOP_TIME,
            match mind.wall_against(mind.step_to(cursor)) {
                None => State::Jare,
                Some(wall) => State::Scratch(wall),
            },
        ),
        State::Jare => (JARE_TIME, State::Kaki),
        State::Kaki => (KAKI_TIME, State::Akubi),
        State::Scratch(_) => (TOGI_TIME, State::Kaki),
        _ => (AKUBI_TIME, State::Sleep),
    }
}

/// Whether the animal has just taken up a resting state under a cursor that is
/// where it was.
pub open spec fn settles(mind: Mind, cursor: (int, int)) -> bool {
    &&& at_rest(mind.state)
    &&& mind.ticks == 0
    &&& mind.counts == 0
    &&& mind.mouse == cursor
    &&& mind.config.idle_space >= 0
}

/// The counters `n` ticks after they started over.
pub open spec fn counting(mind: Mind, n: nat) -> Mind {
    Mind {
        ticks: n as int % 0x1_0000_0000,
        counts: if n / 2 < u32::MAX { n as int / 2 } else { u32::MAX as int },
        ..mind
    }
}

/// One more tick on the counters.
proof fn counting_goes_on(mind: Mind, n: nat)
    ensures
        counting(mind, n).counted() == counting(mind, n + 1),
{
}

/// A timeout is at least one count, so that no state goes unseen, and no longer than
/// the counter can count.
pub proof fn timeouts_are_counted(sleepiness: Double, base: u32)
    ensures
        1 <= timeout_of(sleepiness, base) <= u32::MAX,
{
}

/// A resting state other than `Sleep` holds for twice its timeout in ticks, and
/// then gives way to the next pose.
proof fn a_pose_lasts(mind: Mind, cursor: (int, int), n: nat)
    requires
        settles(mind, cursor),
        mind.state != State::Sleep,
        n <= 2 * timeout_of(mind.config.sleepiness, next_pose(mind, cursor).0),
    ensures
        n < 2 * timeout_of(mind.config.sleepiness, next_pose(mind, cursor).0) ==> still(
            mind,
            cursor,
            n,
        ) == counting(mind, n),
        n == 2 * timeout_of(mind.config.sleepiness, next_pose(mind, cursor).0) ==> still(
            mind,
            cursor,
            n,
        ) == mind.entering(next_pose(mind, cursor).1),
    decreases n,
{
    timeouts_are_counted(mind.config.sleepiness, next_pose(mind, cursor).0);
    if n == 0 {
        assert(counting(mind, 0) == mind);
    } else {
        let m = (n - 1) as nat;
        a_pose_lasts(mind, cursor, m);
        counting_goes_on(mind, m);
        let now = counting(mind, m);
        assert(now.step_to(cursor) == mind.step_to(cursor));
        assert(!now.notices(cursor));
        assert(Mind { mouse: cursor, ..now.counted() } == counting(mind, n));
        assert(counting(mind, n).entering(next_pose(mind, cursor).1) == mind.entering(
            next_pose(mind, cursor).1,
        ));
    }
}

/// How many ticks it takes a just stopped animal to fall asleep.
pub open spec fn bedtime(sleepiness: Double) -> nat {
    (2 * (timeout_of(sleepiness, STOP_TIME) + timeout_of(sleepiness, JARE_TIME) + timeout_of(
        sleepiness,
        KAKI_TIME,
    ) + timeout_of(sleepiness, AKUBI_TIME))) as nat
}

/// Under a still cursor the animal walks the whole idle chain, in place: it
/// washes, or scratches the wall that it wants to get past, then scratches
/// itself, yawns and falls asleep.
pub proof fn a_still_cursor_sends_it_to_sleep(mind: Mind, cursor: (int, int))
    requires
        mind.state == State::Stop,
        settles(mind, cursor),
    ensures
        ({
            let sleepiness = mind.config.sleepiness;
            let washing = (2 * timeout_of(sleepiness, STOP_TIME)) as nat;
            let scratching = washing + (2 * timeout_of(sleepiness, JARE_TIME)) as nat;
            let yawning = scratching + (2 * timeout_of(sleepiness, KAKI_TIME)) as nat;
            &&& still(mind, cursor, washing) == mind.entering(next_pose(mind, cursor).1)
            &&& still(mind, cursor, scratching) == mind.entering(State::Kaki)
            &&& still(mind, cursor, yawning) == mind.entering(State::Akubi)
            &&& still(mind, cursor, bedtime(sleepiness)) == mind.entering(State::Sleep)
        }),
{
    let sleepiness = mind.config.sleepiness;
    timeouts_are_counted(sleepiness, STOP_TIME);
    timeouts_are_counted(sleepiness, JARE_TIME);
    timeouts_are_counted(sleepiness, KAKI_TIME);
    timeouts_are_counted(sleepiness, AKUBI_TIME);
    let a = (2 * timeout_of(sleepiness, STOP_TIME)) as nat;
    let b = (2 * timeout_of(sleepiness, JARE_TIME)) as nat;
    let c = (2 * timeout_of(sleepiness, KAKI_TIME)) as nat;
    let d = (2 * timeout_of(sleepiness, AKUBI_TIME)) as nat;
    a_pose_lasts(mind, cursor, a);
    let second = mind.entering(next_pose(mind, cursor).1);
    a_pose_lasts(second, cursor, b);
    waits_add_up(mind, cursor, a, b);
    let third = mind.entering(State::Kaki);
    assert(second.entering(State::Kaki) == third);
    a_pose_lasts(third, cursor, c);
    waits_add_up(mind, cursor, a + b, c);
    let fourth = mind.entering(State::Akubi);
    assert(third.entering(State::Akubi) == fourth);
    a_pose_lasts(fourth, cursor, d);
    waits_add_up(mind, cursor, a + b + c, d);
    assert(fourth.entering(State::Sleep) == mind.entering(State::Sleep));
}

/// It stays asleep for as long as nothing moves, breathing at a quarter of the
/// animation rate.
pub proof fn it_sleeps_on(mind: Mind, cursor: (int, int), n: nat)
    requires
        settles(mind, cursor),
        mind.state == State::Sleep,
    ensures
        still(mind, cursor, n) == counting(mind, n),
        still(mind, cursor, n).state == State::Sleep,
        still(mind, cursor, n).at == mind.at,
        still(mind, cursor, n).frame_name() == (if n / 4 % 2 == 0 {
            frame_names(State::Sleep).0
        } else {
            frame_names(State::Sleep).1
        }),
    decreases n,
{
    if n == 0 {
        assert(counting(mind, 0) == mind);
    } else {
        let m = (n - 1) as nat;
        it_sleeps_on(mind, cursor, m);
        counting_goes_on(mind, m);
        assert(!counting(mind, m).notices(cursor));
        assert(Mind { mouse: cursor, ..counting(mind, m).counted() } == counting(mind, n));
    }
    assert((n as int % 0x1_0000_0000) / 4 % 2 == n as int / 4 % 2) by (nonlinear_arith);
}

/// The sleepier the animal, the sooner a state times out.
pub proof fn sleepier_is_sooner(less: Double, more: Double, base: u32)
    requires
        !less.is_nan(),
        !more.is_nan(),
        less.at_most(more),
    ensures
        timeout_of(more, base) <= timeout_of(less, base),
{
    timeouts_are_counted(more, base);
    if less.num() > 0 {
        den_is_positive(less);
        den_is_positive(more);
        assert(more.num() > 0) by (nonlinear_arith)
            requires
                less.num() * more.den() <= more.num() * less.den(),
                less.num() > 0,
                less.den() >= 1,
                more.den() >= 1,
        ;
        larger_divisors_count_less(base, less, more);
    }
}

/// With the wall scratching turned off the animal never takes it up, and turned
/// on it scratches the edge that stops it from going where it wants to.
pub proof fn it_scratches_the_wall_in_its_way(mind: Mind, cursor: (int, int), wall: Wall)
    requires
        mind.ticked(cursor).state == State::Scratch(wall),
    ensures
        mind.state == State::Scratch(wall) || {
            &&& mind.state == State::Stop
            &&& mind.config.scratch_walls
            &&& mind.wall_against(mind.step_to(cursor)) == Some(wall)
        },
{
}

/// Whether the paws are on the cursor and the animal has stopped.
pub open spec fn has_arrived(mind: Mind, cursor: (int, int)) -> bool {
    mind.state == State::Stop && mind.at == goal(cursor)
}

/// Whether the animal can put its paws on the cursor without leaving the screen.
pub open spec fn reachable(mind: Mind, cursor: (int, int)) -> bool {
    confined(mind.bounds, goal(cursor)) == goal(cursor)
}

/// The square of the distance from the paws to the cursor.
pub open spec fn remaining(mind: Mind, cursor: (int, int)) -> int {
    distance_squared(goal(cursor).0 - mind.at.0, goal(cursor).1 - mind.at.1)
}

/// Running under a still cursor within reach, the animal either arrives with a
/// tick or is running still and strictly closer.
pub proof fn every_run_closes_in(mind: Mind, cursor: (int, int))
    requires
        mind.state is Move,
        mind.on_screen(),
        reachable(mind, cursor),
        brisk(mind.config.speed),
    ensures
        has_arrived(mind.ticked(cursor), cursor) || {
            &&& mind.ticked(cursor).state is Move
            &&& remaining(mind.ticked(cursor), cursor) < remaining(mind, cursor)
        },
{
    let speed = mind.config.speed;
    let (dx, dy) = (goal(cursor).0 - mind.at.0, goal(cursor).1 - mind.at.1);
    let step = mind.step_to(cursor);
    step_never_overshoots(speed, dx, dy);
    step_stops_only_at_the_point(speed, dx, dy);
    let aim = (mind.at.0 + step.0, mind.at.1 + step.1);
    assert(confined(mind.bounds, aim) == aim);
    if dx != 0 || dy != 0 {
        step_closes_in(speed, dx, dy);
    }
}

/// Whatever the cursor is behind, a run under a still cursor comes to an end: the
/// animal keeps getting closer until it stops.
pub proof fn every_run_comes_to_an_end(mind: Mind, cursor: (int, int)) -> (n: nat)
    requires
        mind.state is Move,
        mind.on_screen(),
        mind.config.speed.num() >= 0,
    ensures
        still(mind, cursor, n).state == State::Stop,
        n <= remaining(mind, cursor) + 1,
    decreases remaining(mind, cursor),
{
    let (dx, dy) = (goal(cursor).0 - mind.at.0, goal(cursor).1 - mind.at.1);
    let step = mind.step_to(cursor);
    step_never_overshoots(mind.config.speed, dx, dy);
    a_tick_keeps_it_on_the_screen(mind, cursor);
    let next = mind.ticked(cursor);
    assert(still(mind, cursor, 0) == mind);
    assert(still(mind, cursor, 1) == next);
    assert(remaining(mind, cursor) >= 0) by (nonlinear_arith)
        requires
            remaining(mind, cursor) == dx * dx + dy * dy,
    ;
    if next.state == State::Stop {
        1
    } else {
        let (across, down) = (next.at.0 - mind.at.0, next.at.1 - mind.at.1);
        let aim = (mind.at.0 + step.0, mind.at.1 + step.1);
        assert(next.at == confined(mind.bounds, aim));
        assert(across != 0 || down != 0);
        shorter_leg(dx, across);
        shorter_leg(dy, down);
        let (ex, ey) = (dx - across, dy - down);
        assert(remaining(next, cursor) >= 0) by (nonlinear_arith)
            requires
                remaining(next, cursor) == ex * ex + ey * ey,
        ;
        let rest = every_run_comes_to_an_end(next, cursor);
        waits_add_up(mind, cursor, 1, rest);
        1 + rest
    }
}

/// A startled animal stays put for as long as the startle lasts, and then turns
/// to the cursor.
proof fn a_startle_lasts(mind: Mind, cursor: (int, int), n: nat)
    requires
        mind.state == State::Awake,
        mind.ticks == 0,
        mind.counts == 0,
        mind.mouse == cursor,
        n <= 2 * timeout_of(mind.config.sleepiness, AWAKE_TIME),
    ensures
        n < 2 * timeout_of(mind.config.sleepiness, AWAKE_TIME) ==> still(mind, cursor, n)
            == counting(mind, n),
        n == 2 * timeout_of(mind.config.sleepiness, AWAKE_TIME) ==> still(mind, cursor, n)
            == counting(mind, n).facing(mind.step_to(cursor)),
    decreases n,
{
    timeouts_are_counted(mind.config.sleepiness, AWAKE_TIME);
    if n == 0 {
        assert(counting(mind, 0) == mind);
    } else {
        let m = (n - 1) as nat;
        a_startle_lasts(mind, cursor, m);
        counting_goes_on(mind, m);
        assert(counting(mind, m).step_to(cursor) == mind.step_to(cursor));
        assert(Mind { mouse: cursor, ..counting(mind, m).counted() } == counting(mind, n));
    }
}

/// The longer leg of the way that is left from the paws to the cursor.
pub open spec fn way_left(mind: Mind, cursor: (int, int)) -> int {
    longer_leg(goal(cursor).0 - mind.at.0, goal(cursor).1 - mind.at.1)
}

/// How many ticks a run takes at most if every one of them covers `pace` pixels of
/// the longer leg: one for each, and one to come to a halt.
pub open spec fn run_time(mind: Mind, cursor: (int, int), pace: int) -> int {
    (way_left(mind, cursor) + pace - 1) / pace + 1
}

/// A leg that is shorter by the pace takes one tick less.
proof fn one_tick_less(before: int, now: int, pace: int)
    requires
        pace >= 1,
        0 <= now <= before - pace || (now == 0 && before > 0),
    ensures
        (now + pace - 1) / pace + 1 <= (before + pace - 1) / pace,
{
    assert((now + pace - 1) / pace + 1 <= (before + pace - 1) / pace) by (nonlinear_arith)
        requires
            pace >= 1,
            0 <= now <= before - pace || (now == 0 && before > 0),
    {
        let q = (now + pace - 1) / pace;
        assert(q * pace <= now + pace - 1);
        if now == 0 {
            assert(q == 0);
        }
        assert((q + 1) * pace <= before + pace - 1);
    }
}

/// A speed that covers a pace is brisk.
proof fn pace_is_brisk(mind: Mind, pace: int)
    requires
        covers_pace(mind.config.speed, pace),
    ensures
        brisk(mind.config.speed),
{
    let one = one_squared(mind.config.speed);
    one_is_positive(mind.config.speed);
    assert(2 * (pace * pace) * one >= 2 * one) by (nonlinear_arith)
        requires
            pace >= 1,
            one > 0,
    ;
}

/// Under a cursor that stays where it is and can be reached, an animal runs for a
/// time in proportion to the way, and stops only with its paws on the cursor.
pub proof fn a_run_takes_as_long_as_the_way(mind: Mind, cursor: (int, int), pace: int) -> (n: nat)
    requires
        mind.state is Move,
        mind.on_screen(),
        reachable(mind, cursor),
        covers_pace(mind.config.speed, pace),
    ensures
        has_arrived(still(mind, cursor, n), cursor),
        n <= run_time(mind, cursor, pace),
        forall|k: nat| k < n ==> #[trigger] still(mind, cursor, k).state is Move,
    decreases way_left(mind, cursor),
{
    pace_is_brisk(mind, pace);
    every_run_closes_in(mind, cursor);
    a_tick_keeps_it_on_the_screen(mind, cursor);
    let speed = mind.config.speed;
    let (dx, dy) = (goal(cursor).0 - mind.at.0, goal(cursor).1 - mind.at.1);
    let step = mind.step_to(cursor);
    let next = mind.ticked(cursor);
    assert(still(mind, cursor, 0) == mind);
    assert(still(mind, cursor, 1) == next);
    step_never_overshoots(speed, dx, dy);
    step_stops_only_at_the_point(speed, dx, dy);
    step_keeps_pace(speed, dx, dy, pace);
    if has_arrived(next, cursor) {
        assert((way_left(mind, cursor) + pace - 1) / pace >= 0) by (nonlinear_arith)
            requires
                way_left(mind, cursor) >= 0,
                pace >= 1,
        ;
        1
    } else {
        let aim = (mind.at.0 + step.0, mind.at.1 + step.1);
        assert(next.at == aim);
        assert(way_left(mind, cursor) > 0);
        one_tick_less(way_left(mind, cursor), way_left(next, cursor), pace);
        let rest = a_run_takes_as_long_as_the_way(next, cursor, pace);
        waits_add_up(mind, cursor, 1, rest);
        assert forall|k: nat| k < 1 + rest implies (#[trigger] still(mind, cursor, k)).state is Move by {
            if k > 0 {
                let j = (k - 1) as nat;
                waits_add_up(mind, cursor, 1, j);
                assert(still(next, cursor, j).state is Move);
            }
        }
        1 + rest
    }
}

/// How many ticks a startle lasts.
pub open spec fn startle(sleepiness: Double) -> nat {
    (2 * timeout_of(sleepiness, AWAKE_TIME)) as nat
}

/// A woken animal is startled, where it is, for its while.
proof fn startled_meanwhile(mind: Mind, cursor: (int, int), k: nat)
    requires
        at_rest(mind.state),
        mind.notices(cursor),
        0 < k <= startle(mind.config.sleepiness),
    ensures
        still(mind, cursor, k).state == State::Awake,
{
    movement_wakes_it(mind, cursor);
    timeouts_are_counted(mind.config.sleepiness, AWAKE_TIME);
    let woken = mind.ticked(cursor);
    let j = (k - 1) as nat;
    assert(still(mind, cursor, 0) == mind);
    assert(still(mind, cursor, 1) == woken);
    waits_add_up(mind, cursor, 1, j);
    assert(1 + j == k);
    a_startle_lasts(woken, cursor, j);
}

/// After its startle a woken animal runs, unless it has its paws on the cursor
/// already.
proof fn turned_after_the_startle(mind: Mind, cursor: (int, int))
    requires
        at_rest(mind.state),
        mind.notices(cursor),
        brisk(mind.config.speed),
    ensures
        ({
            let turned = still(mind, cursor, 1 + startle(mind.config.sleepiness));
            &&& turned.at == mind.at
            &&& turned.bounds == mind.bounds
            &&& turned.config == mind.config
            &&& has_arrived(turned, cursor) || turned.state is Move
        }),
{
    movement_wakes_it(mind, cursor);
    timeouts_are_counted(mind.config.sleepiness, AWAKE_TIME);
    let woken = mind.ticked(cursor);
    assert(still(mind, cursor, 0) == mind);
    assert(still(mind, cursor, 1) == woken);
    a_startle_lasts(woken, cursor, startle(mind.config.sleepiness));
    waits_add_up(mind, cursor, 1, startle(mind.config.sleepiness));
    let (dx, dy) = (goal(cursor).0 - mind.at.0, goal(cursor).1 - mind.at.1);
    step_stops_only_at_the_point(mind.config.speed, dx, dy);
}

/// Moving the cursor wakes a resting animal, and it runs over: it is startled for
/// its while, runs for a time in proportion to the way, and does not stop before
/// its paws are on the cursor.
pub proof fn it_runs_over_in_time(mind: Mind, cursor: (int, int), pace: int) -> (n: nat)
    requires
        at_rest(mind.state),
        mind.notices(cursor),
        mind.on_screen(),
        reachable(mind, cursor),
        covers_pace(mind.config.speed, pace),
    ensures
        still(mind, cursor, 1).state == State::Awake,
        has_arrived(still(mind, cursor, n), cursor),
        1 < n <= 1 + startle(mind.config.sleepiness) + run_time(mind, cursor, pace),
        forall|k: nat| 0 < k < n ==> is_running_over(#[trigger] still(mind, cursor, k).state),
{
    let startled = startle(mind.config.sleepiness);
    let turned = still(mind, cursor, 1 + startled);
    pace_is_brisk(mind, pace);
    timeouts_are_counted(mind.config.sleepiness, AWAKE_TIME);
    turned_after_the_startle(mind, cursor);
    startled_meanwhile(mind, cursor, 1);
    assert((way_left(mind, cursor) + pace - 1) / pace >= 0) by (nonlinear_arith)
        requires
            way_left(mind, cursor) >= 0,
            pace >= 1,
    ;
    let run: nat = if has_arrived(turned, cursor) {
        assert(still(turned, cursor, 0) == turned);
        0
    } else {
        a_run_takes_as_long_as_the_way(turned, cursor, pace)
    };
    waits_add_up(mind, cursor, 1 + startled, run);
    let n = 1 + startled + run;
    assert forall|k: nat| 0 < k < n implies is_running_over(
        #[trigger] still(mind, cursor, k).state,
    ) by {
        if k <= startled {
            startled_meanwhile(mind, cursor, k);
        } else {
            let j = (k - 1 - startled) as nat;
            waits_add_up(mind, cursor, 1 + startled, j);
            assert(1 + startled + j == k);
            assert(still(turned, cursor, j).state is Move);
        }
    }
    n
}

/// Whether a state is one on the way to the cursor.
pub open spec fn is_running_over(state: State) -> bool {
    state == State::Awake || state is Move
}

/// Moving the cursor wakes a resting animal with any brisk speed, and it runs over:
/// if the cursor then stays put and can be reached, the animal ends up stopped with
/// its paws on it, after no more ticks than the way has pixels and those that it is
/// startled for.
pub proof fn it_runs_over_to_the_cursor(mind: Mind, cursor: (int, int)) -> (n: nat)
    requires
        at_rest(mind.state),
        mind.notices(cursor),
        mind.on_screen(),
        reachable(mind, cursor),
        brisk(mind.config.speed),
    ensures
        has_arrived(still(mind, cursor, n), cursor),
        1 < n <= 2 + startle(mind.config.sleepiness) + way_left(mind, cursor),
{
    assert(2 * (1int * 1int) * one_squared(mind.config.speed) == 2 * one_squared(mind.config.speed));
    it_runs_over_in_time(mind, cursor, 1)
}

/// A newborn animal with the usual speed, sleepiness and deadzone on a screen of
/// 1000 x 800 gets to any cursor it can reach within a hundred ticks, and stops no
/// sooner.
pub proof fn a_hundred_ticks_are_enough(config: Config, cursor: (int, int)) -> (n: nat)
    requires
        config.speed.is_whole(13),
        config.sleepiness.is_whole(1),
        config.idle_space == 6,
        SPRITE_SIZE / 2 <= cursor.0 <= 1000 - SPRITE_SIZE / 2,
        SPRITE_SIZE <= cursor.1 <= 800,
        newborn(config, (1000, 800)).notices(cursor),
    ensures
        ({
            let mind = newborn(config, (1000, 800));
            &&& still(mind, cursor, 1).state == State::Awake
            &&& 1 < n <= 100
            &&& has_arrived(still(mind, cursor, n), cursor)
            &&& forall|k: nat| 0 < k < n ==> #[trigger] still(mind, cursor, k).state != State::Stop
        }),
{
    let mind = newborn(config, (1000, 800));
    let speed = config.speed;
    one_is_positive(speed);
    assert(speed.num() >= 0 && speed.num() * speed.num() == 169 * one_squared(speed)) by (nonlinear_arith)
        requires
            speed.num() == 13 * speed.den(),
            one_squared(speed) == speed.den() * speed.den(),
            speed.den() >= 1,
    ;
    assert(2 * (9int * 9int) * one_squared(speed) == 162 * one_squared(speed)) by (nonlinear_arith);
    divided_by_one(AWAKE_TIME, config.sleepiness);
    assert(way_left(mind, cursor) <= 484);
    let n = it_runs_over_in_time(mind, cursor, 9);
    assert forall|k: nat| 0 < k < n implies #[trigger] still(mind, cursor, k).state != State::Stop by {
        assert(is_running_over(still(mind, cursor, k).state));
    }
    n
}

/// Whether an animal is on the screen and its counters are what counters can be.
pub open spec fn sound(mind: Mind) -> bool {
    &&& mind.on_screen()
    &&& 0 <= mind.ticks < 0x1_0000_0000
    &&& 0 <= mind.counts <= u32::MAX
}

/// An animal stays sound, and only its own doing changes.
pub proof fn waiting_keeps_it_sound(mind: Mind, cursor: (int, int), n: nat)
    requires
        sound(mind),
    ensures
        sound(still(mind, cursor, n)),
        still(mind, cursor, n).config == mind.config,
        still(mind, cursor, n).bounds == mind.bounds,
        still(mind, cursor, n).mouse == (if n == 0 { mind.mouse } else { cursor }),
    decreases n,
{
    if n > 0 {
        waiting_keeps_it_sound(mind, cursor, (n - 1) as nat);
        a_tick_keeps_it_on_the_screen(still(mind, cursor, (n - 1) as nat), cursor);
    }
}

/// How many ticks a timer still needs at most.
spec fn ticks_left(mind: Mind, base: u32) -> int {
    let counts = timeout_of(mind.config.sleepiness, base) - mind.counts;
    if counts <= 0 {
        0
    } else {
        2 * counts + (if mind.ticks % 2 == 0 {
            1int
        } else {
            0int
        })
    }
}

/// Under a still cursor every resting state but `Sleep` gives way to the next
/// pose, however long it has lasted already.
proof fn every_pose_ends(mind: Mind, cursor: (int, int)) -> (n: nat)
    requires
        sound(mind),
        at_rest(mind.state),
        mind.state != State::Sleep,
        mind.mouse == cursor,
        mind.config.idle_space >= 0,
    ensures
        still(mind, cursor, n).state == next_pose(mind, cursor).1,
    decreases ticks_left(mind, next_pose(mind, cursor).0),
{
    timeouts_are_counted(mind.config.sleepiness, next_pose(mind, cursor).0);
    let next = mind.ticked(cursor);
    assert(!mind.notices(cursor));
    assert(still(mind, cursor, 0) == mind);
    assert(still(mind, cursor, 1) == next);
    if mind.counted().timed_out(next_pose(mind, cursor).0) {
        1
    } else {
        a_tick_keeps_it_on_the_screen(mind, cursor);
        assert(next.step_to(cursor) == mind.step_to(cursor));
        let rest = every_pose_ends(next, cursor);
        waits_add_up(mind, cursor, 1, rest);
        1 + rest
    }
}

/// A startled animal turns to the cursor in the end.
proof fn every_startle_ends(mind: Mind, cursor: (int, int)) -> (n: nat)
    requires
        sound(mind),
        mind.state == State::Awake,
    ensures
        still(mind, cursor, n).state == State::Stop || still(mind, cursor, n).state is Move,
    decreases ticks_left(mind, AWAKE_TIME),
{
    timeouts_are_counted(mind.config.sleepiness, AWAKE_TIME);
    let next = mind.ticked(cursor);
    assert(still(mind, cursor, 0) == mind);
    assert(still(mind, cursor, 1) == next);
    if mind.counted().timed_out(AWAKE_TIME) {
        1
    } else {
        a_tick_keeps_it_on_the_screen(mind, cursor);
        let rest = every_startle_ends(next, cursor);
        waits_add_up(mind, cursor, 1, rest);
        1 + rest
    }
}

/// How far a state is from sleep.
spec fn wakefulness(state: State) -> int {
    match state {
        State::Sleep => 0,
        State::Akubi => 1,
        State::Kaki => 2,
        State::Jare | State::Scratch(_) => 3,
        State::Stop => 4,
        State::Move(_) => 5,
        State::Awake => 6,
    }
}

/// Once the cursor is where it was, one thing leads to another, and all of them to
/// sleep.
proof fn all_roads_lead_to_sleep(mind: Mind, cursor: (int, int)) -> (n: nat)
    requires
        sound(mind),
        mind.mouse == cursor,
        mind.config.idle_space >= 0,
        mind.config.speed.num() >= 0,
    ensures
        still(mind, cursor, n).state == State::Sleep,
    decreases wakefulness(mind.state),
{
    assert(still(mind, cursor, 0) == mind);
    if mind.state == State::Sleep {
        0
    } else {
        let first: nat = if mind.state == State::Awake {
            every_startle_ends(mind, cursor)
        } else if mind.state is Move {
            every_run_comes_to_an_end(mind, cursor)
        } else {
            every_pose_ends(mind, cursor)
        };
        waiting_keeps_it_sound(mind, cursor, first);
        let rest = all_roads_lead_to_sleep(still(mind, cursor, first), cursor);
        waits_add_up(mind, cursor, first, rest);
        first + rest
    }
}

/// Whatever the animal is doing, a cursor that stays where it is sends it to sleep
/// in the end.
pub proof fn every_animal_falls_asleep(mind: Mind, cursor: (int, int)) -> (n: nat)
    requires
        sound(mind),
        mind.config.idle_space >= 0,
        mind.config.speed.num() >= 0,
    ensures
        still(mind, cursor, n).state == State::Sleep,
{
    assert(still(mind, cursor, 0) == mind);
    assert(still(mind, cursor, 1) == mind.ticked(cursor));
    waiting_keeps_it_sound(mind, cursor, 1);
    let rest = all_roads_lead_to_sleep(mind.ticked(cursor), cursor);
    waits_add_up(mind, cursor, 1, rest);
    1 + rest
}

/// A running animal stops for one of two reasons only: its paws are on the
/// cursor, or an edge of the screen is in its way and it cannot get any closer.
pub proof fn it_stops_for_a_reason(mind: Mind, cursor: (int, int))
    requires
        mind.state is Move,
        brisk(mind.config.speed),
        mind.ticked(cursor).state == State::Stop,
    ensures
        mind.at == goal(cursor) || {
            let step = mind.step_to(cursor);
            let aim = (mind.at.0 + step.0, mind.at.1 + step.1);
            &&& confined(mind.bounds, aim) != aim
            &&& mind.ticked(cursor).at == mind.at
        },
{
    let (dx, dy) = (goal(cursor).0 - mind.at.0, goal(cursor).1 - mind.at.1);
    step_stops_only_at_the_point(mind.config.speed, dx, dy);
}

/// Put to sleep outright, it is asleep where it stands, doing it again changes
/// nothing, and it still wakes the usual way.
pub proof fn sleeping_on_command(mind: Mind, cursor: (int, int))
    ensures
        mind.asleep().state == State::Sleep,
        mind.asleep().at == mind.at,
        mind.asleep().asleep() == mind.asleep(),
        mind.asleep().ticked(cursor).state == (if mind.notices(cursor) {
            State::Awake
        } else {
            State::Sleep
        }),
{
}

} // verus!
