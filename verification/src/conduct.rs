//! What one tick does to the animal, told in pixels, ticks and counts alone.

use vstd::prelude::*;

use crate::chase::{brisk, step_never_overshoots, step_stops_only_at_the_point, step_towards};
use crate::double::{Double, counts_are_nearest};
use crate::neko::{Config, Mind, confined, newborn, timeout_of};
use crate::state::{
    Direction, State, Wall, along, direction_is_the_closest, direction_of, frame_names, length_squared,
};

verus! {

/// A cursor that goes further than the deadzone along either axis wakes an animal at
/// rest, and nothing else does. Awake or not, it stays where it is.
pub proof fn only_movement_wakes_it(mind: Mind, cursor: (int, int))
    requires
        mind.state !is Awake,
        mind.state !is Move,
    ensures
        ({
            let next = mind.ticked(cursor);
            let space = mind.config.idle_space;
            let moved = cursor.0 > mind.mouse.0 + space || cursor.0 < mind.mouse.0 - space || cursor.1
                > mind.mouse.1 + space || cursor.1 < mind.mouse.1 - space;
            &&& moved ==> next.state == State::Awake && next.ticks == 0 && next.counts == 0
            &&& !moved ==> next.state !is Awake && next.state !is Move
            &&& next.at == mind.at
        }),
{
}

/// A tick remembers the cursor and nothing else that it is told, and leaves the screen
/// and the tunables as they are.
pub proof fn a_tick_remembers_the_cursor(mind: Mind, cursor: (int, int))
    ensures
        mind.ticked(cursor).mouse == cursor,
        mind.ticked(cursor).bounds == mind.bounds,
        mind.ticked(cursor).config == mind.config,
{
}

/// The pose that comes after each pose, while the cursor stays within the deadzone,
/// and when it comes: two ticks make a count, and a pose lasts for its counts.
pub proof fn poses_follow_each_other(mind: Mind, cursor: (int, int))
    requires
        mind.state !is Awake,
        mind.state !is Move,
        0 <= mind.ticks <= 0xffff_ffff,
        0 <= mind.counts <= 0xffff_ffff,
        -mind.config.idle_space <= cursor.0 - mind.mouse.0 <= mind.config.idle_space,
        -mind.config.idle_space <= cursor.1 - mind.mouse.1 <= mind.config.idle_space,
    ensures
        ({
            let next = mind.ticked(cursor);
            let ticks = if mind.ticks == 0xffff_ffff { 0 } else { mind.ticks + 1 };
            let counts = if mind.ticks % 2 == 1 && mind.counts < 0xffff_ffff {
                mind.counts + 1
            } else {
                mind.counts
            };
            let usual: u32 = match mind.state {
                State::Stop | State::Kaki => 4,
                State::Jare | State::Scratch(_) => 10,
                _ => 6,
            };
            if mind.state != State::Sleep && counts >= timeout_of(mind.config.sleepiness, usual) {
                &&& next.ticks == 0
                &&& next.counts == 0
                &&& match mind.state {
                    State::Stop => next.state == State::Jare || next.state is Scratch,
                    State::Jare => next.state == State::Kaki,
                    State::Kaki => next.state == State::Akubi,
                    State::Akubi => next.state == State::Sleep,
                    State::Scratch(_) => next.state == State::Kaki,
                    _ => false,
                }
            } else {
                &&& next.state == mind.state
                &&& next.ticks == ticks
                &&& next.counts == counts
            }
        }),
{
}

/// A stopped animal that takes to scratching stands at that very edge of the screen
/// and wants to get past it. One that is not at an edge it wants past, or that is told
/// not to scratch, takes to washing.
pub proof fn it_scratches_the_edge_it_wants_past(mind: Mind, cursor: (int, int))
    requires
        mind.state == State::Stop,
    ensures
        ({
            let next = mind.ticked(cursor);
            let step = mind.step_to(cursor);
            let left = mind.at.0 <= 0 && step.0 < 0;
            let right = mind.at.0 >= mind.bounds.0 - 32 && step.0 > 0;
            let top = mind.at.1 <= 0 && step.1 < 0;
            let bottom = mind.at.1 >= mind.bounds.1 - 32 && step.1 > 0;
            &&& next.state == State::Scratch(Wall::Left) ==> left
            &&& next.state == State::Scratch(Wall::Right) ==> right
            &&& next.state == State::Scratch(Wall::Up) ==> top && !left && !right
            &&& next.state == State::Scratch(Wall::Down) ==> bottom && !left && !right
            &&& next.state is Scratch ==> mind.config.scratch_walls
            &&& next.state == State::Jare ==> !mind.config.scratch_walls || !(left || right || top
                || bottom)
        }),
{
}

/// A startled animal stays where it is for three counts. Then it runs if there is
/// anywhere to go, and stops if there is not.
pub proof fn a_startle_ends_in_a_run(mind: Mind, cursor: (int, int))
    requires
        mind.state == State::Awake,
        0 <= mind.ticks <= 0xffff_ffff,
        0 <= mind.counts <= 0xffff_ffff,
    ensures
        ({
            let next = mind.ticked(cursor);
            let ticks = if mind.ticks == 0xffff_ffff { 0 } else { mind.ticks + 1 };
            let counts = if mind.ticks % 2 == 1 && mind.counts < 0xffff_ffff {
                mind.counts + 1
            } else {
                mind.counts
            };
            let step = mind.step_to(cursor);
            &&& next.at == mind.at
            &&& if counts < timeout_of(mind.config.sleepiness, 3) {
                next.state == State::Awake && next.ticks == ticks && next.counts == counts
            } else if step == (0int, 0int) {
                next.state == State::Stop && next.ticks == 0 && next.counts == 0
            } else {
                next.state is Move && next.ticks == 0 && next.counts == 0
            }
        }),
{
    let step = mind.step_to(cursor);
    if step != (0int, 0int) {
        headings_are_closest(step.0, step.1, 1, 0);
    }
}

/// The heading of a step makes a smaller angle with it than any other of the eight
/// ways one can go on a grid: `(x, y)` is one of those, and if it is not the heading,
/// the heading is closer. A step that goes nowhere has no heading.
pub proof fn headings_are_closest(across: int, down: int, x: int, y: int)
    requires
        -1 <= x <= 1,
        -1 <= y <= 1,
        x != 0 || y != 0,
    ensures
        direction_of(across, down) is None <==> across == 0 && down == 0,
        direction_of(across, down) matches Some(direction) ==> ({
            let (u, v): (int, int) = match direction {
                Direction::Up => (0, -1),
                Direction::Down => (0, 1),
                Direction::Left => (-1, 0),
                Direction::Right => (1, 0),
                Direction::UpLeft => (-1, -1),
                Direction::UpRight => (1, -1),
                Direction::DownLeft => (-1, 1),
                Direction::DownRight => (1, 1),
            };
            let along = across * u + down * v;
            let other = across * x + down * y;
            &&& along > 0
            &&& (x, y) != (u, v) ==> other <= 0 || along * along * (x * x + y * y) > other * other * (u
                * u + v * v)
        }),
{
    if across != 0 || down != 0 {
        let direction = direction_of(across, down)->0;
        let ways = if x == 0 && y < 0 {
            Direction::Up
        } else if x == 0 {
            Direction::Down
        } else if x < 0 && y == 0 {
            Direction::Left
        } else if y == 0 {
            Direction::Right
        } else if x < 0 && y < 0 {
            Direction::UpLeft
        } else if y < 0 {
            Direction::UpRight
        } else if x < 0 {
            Direction::DownLeft
        } else {
            Direction::DownRight
        };
        assert(across * 0 == 0 && across * 1 == across && across * -1 == -across);
        assert(down * 0 == 0 && down * 1 == down && down * -1 == -down);
        assert(x == -1 || x == 0 || x == 1);
        assert(y == -1 || y == 0 || y == 1);
        assert(across * x + down * y == along(ways, across, down));
        assert(x * x + y * y == length_squared(ways)) by (nonlinear_arith)
            requires
                x == -1 || x == 0 || x == 1,
                y == -1 || y == 0 || y == 1,
                x != 0 || y != 0,
                length_squared(ways) == (if x == 0 || y == 0 { 1int } else { 2int }),
        ;
        if direction != ways {
            direction_is_the_closest(across, down, ways);
        } else {
            let elsewhere = if direction == Direction::Up { Direction::Down } else { Direction::Up };
            direction_is_the_closest(across, down, elsewhere);
        }
    }
}

/// A running animal goes where its step takes it, as far as the screen goes along
/// each axis, and looks the way it steps. It stops when there is no step to take, or
/// when the edges of the screen leave nothing of it.
pub proof fn it_runs_the_way_it_looks(mind: Mind, cursor: (int, int))
    requires
        mind.state is Move,
    ensures
        ({
            let next = mind.ticked(cursor);
            let step = mind.step_to(cursor);
            let (x, y) = (mind.at.0 + step.0, mind.at.1 + step.1);
            // A screen that is too small for the sprite leaves it only its corner.
            let (right, bottom) = (
                if mind.bounds.0 < 32 { 0 } else { mind.bounds.0 - 32 },
                if mind.bounds.1 < 32 { 0 } else { mind.bounds.1 - 32 },
            );
            let held = !(0 <= x <= right && 0 <= y <= bottom);
            &&& next.at.0 == (if x < 0 { 0 } else if x > right { right } else { x })
            &&& next.at.1 == (if y < 0 { 0 } else if y > bottom { bottom } else { y })
            &&& next.state == State::Stop <==> step == (0int, 0int) || (held && next.at == mind.at)
            &&& next.state != State::Stop ==> next.state is Move && Some(next.state->Move_0)
                == direction_of(step.0, step.1)
        }),
{
}

/// What a running or startled animal looks like after a tick: whatever way it looks,
/// no other way is closer to the step that it takes or is about to take.
pub proof fn no_other_way_is_closer(mind: Mind, cursor: (int, int), x: int, y: int)
    requires
        mind.state is Move || mind.state is Awake,
        -1 <= x <= 1,
        -1 <= y <= 1,
        x != 0 || y != 0,
    ensures
        mind.ticked(cursor).state matches State::Move(direction) ==> ({
            let step = mind.step_to(cursor);
            let (u, v): (int, int) = match direction {
                Direction::Up => (0, -1),
                Direction::Down => (0, 1),
                Direction::Left => (-1, 0),
                Direction::Right => (1, 0),
                Direction::UpLeft => (-1, -1),
                Direction::UpRight => (1, -1),
                Direction::DownLeft => (-1, 1),
                Direction::DownRight => (1, 1),
            };
            let along = step.0 * u + step.1 * v;
            let other = step.0 * x + step.1 * y;
            &&& along > 0
            &&& (x, y) != (u, v) ==> other <= 0 || along * along * (x * x + y * y) > other * other * (u
                * u + v * v)
        }),
{
    let step = mind.step_to(cursor);
    headings_are_closest(step.0, step.1, x, y);
}

/// Running, the counters start over when the animal turns or stops, and go on
/// otherwise.
pub proof fn a_turn_starts_the_frames_over(mind: Mind, cursor: (int, int))
    requires
        mind.state is Move,
        0 <= mind.ticks <= 0xffff_ffff,
        0 <= mind.counts <= 0xffff_ffff,
    ensures
        ({
            let next = mind.ticked(cursor);
            if next.state == mind.state {
                &&& next.ticks == (if mind.ticks == 0xffff_ffff { 0 } else { mind.ticks + 1 })
                &&& next.counts == (if mind.ticks % 2 == 1 && mind.counts < 0xffff_ffff {
                    mind.counts + 1
                } else {
                    mind.counts
                })
            } else {
                next.ticks == 0 && next.counts == 0
            }
        }),
{
}

/// It steps to put the middle of its bottom edge on the cursor: along each axis
/// towards that, and never past it.
pub proof fn it_aims_with_its_paws(mind: Mind, cursor: (int, int))
    requires
        mind.config.speed.num() >= 0,
    ensures
        ({
            let step = mind.step_to(cursor);
            let (dx, dy) = (cursor.0 - (mind.at.0 + 16), cursor.1 - (mind.at.1 + 32));
            &&& 0 <= step.0 <= dx || dx <= step.0 <= 0
            &&& 0 <= step.1 <= dy || dy <= step.1 <= 0
            &&& brisk(mind.config.speed) ==> (step == (0int, 0int) <==> dx == 0 && dy == 0)
            &&& step == step_towards(mind.config.speed, dx, dy)
        }),
{
    let (dx, dy) = (cursor.0 - (mind.at.0 + 16), cursor.1 - (mind.at.1 + 32));
    step_never_overshoots(mind.config.speed, dx, dy);
    if brisk(mind.config.speed) {
        step_stops_only_at_the_point(mind.config.speed, dx, dy);
    }
}

/// Every state but `Sleep` shows its two frames in turn, a tick each, starting with
/// the first. `Sleep` takes four ticks for each.
pub proof fn frames_take_turns(mind: Mind)
    requires
        mind.ticks >= 0,
    ensures
        mind.state != State::Sleep ==> mind.frame_name() == (if mind.ticks % 2 == 0 {
            frame_names(mind.state).0
        } else {
            frame_names(mind.state).1
        }),
        mind.state == State::Sleep ==> mind.frame_name() == (if mind.ticks % 8 < 4 {
            frame_names(mind.state).0
        } else {
            frame_names(mind.state).1
        }),
{
}

/// Two ticks in a row in one state show both of its frames, but for `Sleep`.
pub proof fn a_tick_changes_the_frame(mind: Mind, cursor: (int, int))
    requires
        mind.state != State::Sleep,
        0 <= mind.ticks < 0xffff_ffff,
        mind.ticked(cursor).state == mind.state,
    ensures
        ({
            let (one, two) = (mind.frame_name(), mind.ticked(cursor).frame_name());
            let names = frame_names(mind.state);
            (one == names.0 && two == names.1) || (one == names.1 && two == names.0)
        }),
        mind.ticked(cursor).ticks == mind.ticks + 1,
{
}

/// What each pose is drawn with: the frames of a run or of scratching an edge are
/// numbered, one and two, in that order, and told apart by where they go.
pub proof fn poses_are_drawn_as_what_they_are()
    ensures
        frame_names(State::Stop) == ("mati2"@, "mati2"@),
        frame_names(State::Jare) == ("jare2"@, "mati2"@),
        frame_names(State::Kaki) == ("kaki1"@, "kaki2"@),
        frame_names(State::Akubi) == ("mati3"@, "mati3"@),
        frame_names(State::Sleep) == ("sleep1"@, "sleep2"@),
        frame_names(State::Awake) == ("awake"@, "awake"@),
        frame_names(State::Move(Direction::Up)) == ("up1"@, "up2"@),
        frame_names(State::Move(Direction::Down)) == ("down1"@, "down2"@),
        frame_names(State::Move(Direction::Left)) == ("left1"@, "left2"@),
        frame_names(State::Move(Direction::Right)) == ("right1"@, "right2"@),
        frame_names(State::Move(Direction::UpLeft)) == ("upleft1"@, "upleft2"@),
        frame_names(State::Move(Direction::UpRight)) == ("upright1"@, "upright2"@),
        frame_names(State::Move(Direction::DownLeft)) == ("dwleft1"@, "dwleft2"@),
        frame_names(State::Move(Direction::DownRight)) == ("dwright1"@, "dwright2"@),
        frame_names(State::Scratch(Wall::Up)) == ("utogi1"@, "utogi2"@),
        frame_names(State::Scratch(Wall::Down)) == ("dtogi1"@, "dtogi2"@),
        frame_names(State::Scratch(Wall::Left)) == ("ltogi1"@, "ltogi2"@),
        frame_names(State::Scratch(Wall::Right)) == ("rtogi1"@, "rtogi2"@),
{
}

/// Born, the animal stands in the middle of the screen, to the pixel, at the start of
/// its stop and with the cursor where it is.
pub proof fn it_is_born_in_the_middle(config: Config, bounds: (int, int))
    ensures
        ({
            let mind = newborn(config, bounds);
            &&& -1 <= 2 * (mind.at.0 + 16) - bounds.0 <= 1
            &&& -1 <= 2 * (mind.at.1 + 16) - bounds.1 <= 1
            &&& bounds.0 >= 0 ==> 2 * (mind.at.0 + 16) <= bounds.0
            &&& bounds.1 >= 0 ==> 2 * (mind.at.1 + 16) <= bounds.1
            &&& bounds.0 <= 0 ==> 2 * (mind.at.0 + 16) >= bounds.0
            &&& bounds.1 <= 0 ==> 2 * (mind.at.1 + 16) >= bounds.1
            &&& mind.bounds == bounds
            &&& mind.config == config
            &&& mind.mouse == mind.at
            &&& mind.state == State::Stop
            &&& mind.ticks == 0
            &&& mind.counts == 0
        }),
{
}

/// Put to sleep, it sleeps where it is; only an animal that was up starts to breathe
/// anew.
pub proof fn it_falls_asleep_where_it_is(mind: Mind)
    ensures
        ({
            let next = mind.asleep();
            &&& next.state == State::Sleep
            &&& next.at == mind.at
            &&& next.mouse == mind.mouse
            &&& next.bounds == mind.bounds
            &&& next.config == mind.config
            &&& mind.state == State::Sleep ==> next.ticks == mind.ticks && next.counts == mind.counts
            &&& mind.state != State::Sleep ==> next.ticks == 0 && next.counts == 0
        }),
{
}

/// Pulled back onto a screen, an animal is moved along each axis no further than it takes
/// for all of its sprite to be there. On a screen that is too small for that, it is in the
/// corner.
pub proof fn it_is_pulled_back_no_further_than_it_takes(bounds: (int, int), at: (int, int))
    ensures
        ({
            let there = confined(bounds, at);
            let (right, bottom) = (
                if bounds.0 < 32 { 0 } else { bounds.0 - 32 },
                if bounds.1 < 32 { 0 } else { bounds.1 - 32 },
            );
            &&& at.0 < 0 ==> there.0 == 0
            &&& at.0 > right ==> there.0 == right
            &&& 0 <= at.0 <= right ==> there.0 == at.0
            &&& at.1 < 0 ==> there.1 == 0
            &&& at.1 > bottom ==> there.1 == bottom
            &&& 0 <= at.1 <= bottom ==> there.1 == at.1
        }),
{
}

/// A state that usually lasts `base` counts lasts as many as the nearest to that over the
/// sleepiness, but at least one. An animal that is not sleepy, or less than that, waits for
/// as long as can be counted, and one whose sleepiness is no number does not wait.
pub proof fn a_state_lasts_for_its_share(sleepiness: Double, base: u32)
    ensures
        ({
            let counts = timeout_of(sleepiness, base);
            let (n, d) = (sleepiness.num(), sleepiness.den());
            &&& 1 <= counts <= 0xffff_ffff
            &&& sleepiness.is_nan() ==> counts == 1
            &&& !sleepiness.is_nan() && n <= 0 ==> counts == 0xffff_ffff
            &&& !sleepiness.is_nan() && n > 0 && counts > 1 ==> 0x1_0000 * (2 * (counts * n - base * d))
                <= 0x1_0001 * n
            &&& !sleepiness.is_nan() && n > 0 && counts < 0xffff_ffff ==> 0x1_0000 * (2 * (base * d
                - counts * n)) <= 0x1_0001 * n
        }),
{
    if !sleepiness.is_nan() && sleepiness.num() > 0 {
        counts_are_nearest(base, sleepiness);
    }
}

/// An animal is on the screen exactly if all of its sprite is, on a screen that is
/// large enough for it.
pub proof fn on_the_screen_is_all_of_it(mind: Mind)
    requires
        mind.bounds.0 >= 32,
        mind.bounds.1 >= 32,
    ensures
        mind.on_screen() <==> {
            &&& 0 <= mind.at.0
            &&& mind.at.0 + 32 <= mind.bounds.0
            &&& 0 <= mind.at.1
            &&& mind.at.1 + 32 <= mind.bounds.1
        },
{
}

} // verus!
