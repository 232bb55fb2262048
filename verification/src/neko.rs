//! The animal's brain: where it is, what it is doing, and which frame that
//! means.
//!
//! Deliberately free of I/O and of any clock. The caller ticks it at a fixed
//! rate and hands it the cursor position; everything else is arithmetic.

use vstd::prelude::*;

use crate::chase::{step, step_towards};
use crate::double::{Double, count, counts, num_has_the_sign};
use crate::rounding::{clamp_between, clamped, magnitude, saturate};
use crate::state::{State, Wall, direction_of, frame_names, heading};

verus! {

/// The interval between ticks in milliseconds: the animal thinks eight times a
/// second.
pub const TICK_MILLIS: u64 = 125;

/// Sprite size in unscaled pixels. Every frame is 32x32.
pub const SPRITE_SIZE: i32 = 32;

pub const STOP_TIME: u32 = 4;

pub const JARE_TIME: u32 = 10;

pub const KAKI_TIME: u32 = 4;

pub const AKUBI_TIME: u32 = 6;

pub const AWAKE_TIME: u32 = 3;

pub const TOGI_TIME: u32 = 10;

/// Tunables. The defaults are the cat's own.
#[derive(Debug, Clone, Copy, PartialEq, Eq, Structural)]
pub struct Config {
    /// Pixels travelled per tick.
    pub speed: Double,
    /// Cursor jitter, in pixels, that does not count as movement. Without it
    /// the animal twitches whenever the mouse is nudged.
    pub idle_space: i32,
    /// Divides every idle timer. Above 1 the animal nods off sooner.
    pub sleepiness: Double,
    /// Whether it claws at screen edges instead of just standing there.
    pub scratch_walls: bool,
}

impl Default for Config {
    fn default() -> (config: Config)
        ensures
            config.speed.is_whole(13),
            config.idle_space == 6,
            config.sleepiness.is_whole(1),
            config.scratch_walls,
    {
        Config {
            speed: Double::whole(13),
            idle_space: 6,
            sleepiness: Double::whole(1),
            scratch_walls: true,
        }
    }
}

/// How many counts a state lasts: `base` over the sleepiness, to the nearest
/// count, but at least one so that no state goes unseen. An animal that is not
/// sleepy at all waits as long as a counter can count.
pub open spec fn timeout_of(sleepiness: Double, base: u32) -> int {
    if sleepiness.is_nan() {
        1
    } else if sleepiness.num() <= 0 {
        u32::MAX as int
    } else {
        counts(base, sleepiness)
    }
}

/// The animal as its contracts see it.
pub struct Mind {
    pub config: Config,
    /// Screen size in unscaled pixels; the animal is kept inside it.
    pub bounds: (int, int),
    /// Top-left of the sprite.
    pub at: (int, int),
    pub state: State,
    /// Ticks since the state was entered; drives the two-frame animation.
    pub ticks: int,
    /// Half that: the unit the state timeouts are counted in.
    pub counts: int,
    /// The last cursor position it was told.
    pub mouse: (int, int),
}

/// Where the sprite's top-left has to be for its paws, the middle of its bottom
/// edge, to be on `cursor`.
pub open spec fn goal(cursor: (int, int)) -> (int, int) {
    (cursor.0 - SPRITE_SIZE / 2, cursor.1 - SPRITE_SIZE)
}

/// The largest coordinate that keeps the whole sprite on a screen `bound` pixels
/// long, or zero when the screen is too small for it.
pub open spec fn limit(bound: int) -> int {
    if bound < SPRITE_SIZE {
        0
    } else {
        bound - SPRITE_SIZE
    }
}

/// The position on a screen of size `bounds` closest to `at`.
pub open spec fn confined(bounds: (int, int), at: (int, int)) -> (int, int) {
    (clamped(at.0, 0, limit(bounds.0)), clamped(at.1, 0, limit(bounds.1)))
}

/// Half of `value`, cut off towards zero.
pub open spec fn halved(value: int) -> int {
    if value < 0 {
        -((-value) / 2)
    } else {
        value / 2
    }
}

/// Whether the cursor went further than `space` pixels along either axis.
pub open spec fn went_beyond(space: int, from: (int, int), to: (int, int)) -> bool {
    magnitude(from.0 - to.0) > space || magnitude(from.1 - to.1) > space
}

/// The animal at the start: stopped in the middle of the screen, cursor on its
/// top-left.
pub open spec fn newborn(config: Config, bounds: (int, int)) -> Mind {
    let start = (
        halved(bounds.0) - SPRITE_SIZE / 2,
        halved(bounds.1) - SPRITE_SIZE / 2,
    );
    Mind { config, bounds, at: start, state: State::Stop, ticks: 0, counts: 0, mouse: start }
}

impl Mind {
    /// Whether the whole sprite is on the screen, or as much of it as fits.
    pub open spec fn on_screen(self) -> bool {
        self.at == confined(self.bounds, self.at)
    }

    /// Whether the cursor has moved further than the idle deadzone.
    pub open spec fn notices(self, cursor: (int, int)) -> bool {
        went_beyond(self.config.idle_space as int, self.mouse, cursor)
    }

    /// The step it wants to take towards `cursor`.
    pub open spec fn step_to(self, cursor: (int, int)) -> (int, int) {
        step_towards(
            self.config.speed,
            goal(cursor).0 - self.at.0,
            goal(cursor).1 - self.at.1,
        )
    }

    /// The edge it is pinned against while still wanting to take `step`.
    pub open spec fn wall_against(self, step: (int, int)) -> Option<Wall> {
        if !self.config.scratch_walls {
            None
        } else if step.0 < 0 && self.at.0 <= 0 {
            Some(Wall::Left)
        } else if step.0 > 0 && self.at.0 >= self.bounds.0 - SPRITE_SIZE {
            Some(Wall::Right)
        } else if step.1 < 0 && self.at.1 <= 0 {
            Some(Wall::Up)
        } else if step.1 > 0 && self.at.1 >= self.bounds.1 - SPRITE_SIZE {
            Some(Wall::Down)
        } else {
            None
        }
    }

    /// It takes up a state, and its counters start over.
    pub open spec fn entering(self, state: State) -> Mind {
        Mind { state, ticks: 0, counts: 0, ..self }
    }

    /// It turns in the direction of `step`, or stops if that goes nowhere. Its
    /// counters only start over if that is news.
    pub open spec fn facing(self, step: (int, int)) -> Mind {
        let next = match direction_of(step.0, step.1) {
            None => State::Stop,
            Some(direction) => State::Move(direction),
        };
        if self.state == next {
            self
        } else {
            self.entering(next)
        }
    }

    /// A tick passes on its counters: every other tick is a count.
    pub open spec fn counted(self) -> Mind {
        let ticks = (self.ticks + 1) % 0x1_0000_0000;
        let counts = if ticks % 2 == 0 && self.counts < u32::MAX {
            self.counts + 1
        } else {
            self.counts
        };
        Mind { ticks, counts, ..self }
    }

    /// Whether the state it is in has lasted `base` counts, sleepiness taken
    /// into account.
    pub open spec fn timed_out(self, base: u32) -> bool {
        self.counts >= timeout_of(self.config.sleepiness, base)
    }

    /// A link of the idle chain: wake if the cursor moved, otherwise go on to
    /// `next` once `base` counts are up.
    pub open spec fn idled(self, moved: bool, base: u32, next: State) -> Mind {
        if moved {
            self.entering(State::Awake)
        } else if self.timed_out(base) {
            self.entering(next)
        } else {
            self
        }
    }

    /// A run of `step` on to wherever the screen lets it. Pinned against an edge
    /// and not getting anywhere, it has arrived as close as it is going to get.
    pub open spec fn ran(self, step: (int, int)) -> Mind {
        let aim = (self.at.0 + step.0, self.at.1 + step.1);
        let there = Mind { at: confined(self.bounds, aim), ..self.facing(step) };
        if there.at != aim && there.at == self.at {
            there.entering(State::Stop)
        } else {
            there
        }
    }

    /// One tick with the cursor at `cursor`.
    pub open spec fn ticked(self, cursor: (int, int)) -> Mind {
        let moved = self.notices(cursor);
        let step = self.step_to(cursor);
        let now = Mind { mouse: cursor, ..self.counted() };
        match self.state {
            State::Stop => now.idled(
                moved,
                STOP_TIME,
                match self.wall_against(step) {
                    None => State::Jare,
                    Some(wall) => State::Scratch(wall),
                },
            ),
            State::Jare => now.idled(moved, JARE_TIME, State::Kaki),
            State::Kaki => now.idled(moved, KAKI_TIME, State::Akubi),
            State::Akubi => now.idled(moved, AKUBI_TIME, State::Sleep),
            State::Scratch(_) => now.idled(moved, TOGI_TIME, State::Kaki),
            State::Sleep => if moved {
                now.entering(State::Awake)
            } else {
                now
            },
            State::Awake => if now.timed_out(AWAKE_TIME) {
                now.facing(step)
            } else {
                now
            },
            State::Move(_) => now.ran(step),
        }
    }

    /// The name of the frame to draw. `Sleep` breathes at a quarter of the rate.
    pub open spec fn frame_name(self) -> Seq<char> {
        let turn = if self.state == State::Sleep {
            self.ticks / 4 % 2
        } else {
            self.ticks % 2
        };
        if turn == 0 {
            frame_names(self.state).0
        } else {
            frame_names(self.state).1
        }
    }

    /// It falls asleep, unless it already is.
    pub open spec fn asleep(self) -> Mind {
        if self.state == State::Sleep {
            self
        } else {
            self.entering(State::Sleep)
        }
    }
}

/// The animal.
#[derive(Debug)]
pub struct Neko {
    config: Config,
    bounds: (i32, i32),
    x: i32,
    y: i32,
    state: State,
    tick_count: u32,
    state_count: u32,
    mouse: (i32, i32),
}

impl View for Neko {
    type V = Mind;

    closed spec fn view(&self) -> Mind {
        Mind {
            config: self.config,
            bounds: (self.bounds.0 as int, self.bounds.1 as int),
            at: (self.x as int, self.y as int),
            state: self.state,
            ticks: self.tick_count as int,
            counts: self.state_count as int,
            mouse: (self.mouse.0 as int, self.mouse.1 as int),
        }
    }
}

impl Neko {
    #[must_use]
    pub fn new(config: Config, bounds: (i32, i32)) -> (neko: Neko)
        ensures
            neko@ == newborn(config, (bounds.0 as int, bounds.1 as int)),
    {
        let start: (i32, i32) = (
            bounds.0 / 2 - SPRITE_SIZE / 2,
            bounds.1 / 2 - SPRITE_SIZE / 2,
        );
        Neko {
            config,
            bounds,
            x: start.0,
            y: start.1,
            state: State::Stop,
            tick_count: 0,
            state_count: 0,
            mouse: start,
        }
    }

    #[must_use]
    pub fn position(&self) -> (position: (i32, i32))
        ensures
            (position.0 as int, position.1 as int) == self@.at,
    {
        (self.x, self.y)
    }

    #[must_use]
    pub fn state(&self) -> (state: State)
        ensures
            state == self@.state,
    {
        self.state
    }

    /// The frame to draw right now. `Sleep` breathes at a quarter of the rate so
    /// the two sleeping frames read as slow breathing rather than a flicker.
    #[must_use]
    pub fn frame(&self) -> (name: &'static str)
        ensures
            name@ == self@.frame_name(),
    {
        let turn: u32 = if self.state == State::Sleep {
            self.tick_count / 4 % 2
        } else {
            self.tick_count % 2
        };
        self.state.frames()[turn as usize]
    }

    /// Resizes the screen, clamping the animal back inside it.
    pub fn set_bounds(&mut self, bounds: (i32, i32))
        ensures
            ({
                let size = (bounds.0 as int, bounds.1 as int);
                final(self)@ == (Mind { bounds: size, at: confined(size, old(self)@.at), ..old(self)@ })
            }),
    {
        self.bounds = bounds;
        let _ = self.clamp_into_bounds();
    }

    /// Changes how soon it nods off. What it is doing is not interrupted.
    pub fn set_sleepiness(&mut self, sleepiness: Double)
        ensures
            final(self)@ == (Mind {
                config: Config { sleepiness, ..old(self)@.config },
                ..old(self)@
            }),
    {
        self.config.sleepiness = sleepiness;
    }

    /// Drops the animal straight into `Sleep` - used when the compositor says
    /// the session went idle, or when cursor updates dry up.
    pub fn sleep_now(&mut self)
        ensures
            final(self)@ == old(self)@.asleep(),
    {
        if self.state != State::Sleep {
            self.set_state(State::Sleep);
        }
    }

    /// Advances one tick. `cursor` is the pointer in unscaled screen pixels;
    /// pass the last known position when there is no fresh one.
    pub fn tick(&mut self, cursor: (i32, i32))
        ensures
            final(self)@ == old(self)@.ticked((cursor.0 as int, cursor.1 as int)),
    {
        let moved: bool = self.notices(cursor);
        let step: (i32, i32) = self.step_to(cursor);
        self.mouse = cursor;
        self.advance_counters();

        match self.state {
            State::Stop => {
                let next: State = match self.wall_to_scratch(step) {
                    None => State::Jare,
                    Some(wall) => State::Scratch(wall),
                };
                self.idle_step(moved, STOP_TIME, next);
            },
            State::Jare => self.idle_step(moved, JARE_TIME, State::Kaki),
            State::Kaki => self.idle_step(moved, KAKI_TIME, State::Akubi),
            State::Akubi => self.idle_step(moved, AKUBI_TIME, State::Sleep),
            State::Scratch(_) => self.idle_step(moved, TOGI_TIME, State::Kaki),
            State::Sleep => {
                if moved {
                    self.set_state(State::Awake);
                }
            },
            State::Awake => {
                if self.state_count >= self.timeout(AWAKE_TIME) {
                    self.face(step);
                }
            },
            State::Move(_) => self.run(step),
        }
    }

    /// The shared shape of the idle chain: wake on movement, otherwise move on
    /// to the next pose once the timer runs out.
    fn idle_step(&mut self, moved: bool, time: u32, next: State)
        ensures
            final(self)@ == old(self)@.idled(moved, time, next),
    {
        if moved {
            self.set_state(State::Awake);
        } else if self.state_count >= self.timeout(time) {
            self.set_state(next);
        }
    }

    fn set_state(&mut self, state: State)
        ensures
            final(self)@ == old(self)@.entering(state),
    {
        self.tick_count = 0;
        self.state_count = 0;
        self.state = state;
    }

    /// Counts animation frames and bumps the state timer on every other one, so
    /// a state's "time" is in units of two frames.
    fn advance_counters(&mut self)
        ensures
            final(self)@ == old(self)@.counted(),
    {
        self.tick_count = self.tick_count.wrapping_add(1);
        if self.tick_count % 2 == 0 {
            self.state_count = self.state_count.saturating_add(1);
        }
    }

    /// How many counts a state that usually lasts `base` of them lasts.
    pub fn timeout(&self, base: u32) -> (counts: u32)
        ensures
            counts == timeout_of(self@.config.sleepiness, base),
    {
        let sleepiness: Double = self.config.sleepiness;
        if sleepiness.nan() {
            return 1;
        }
        proof {
            num_has_the_sign(sleepiness);
        }
        if sleepiness.negative() || sleepiness.parts().0 == 0 {
            return u32::MAX;
        }
        count(base, sleepiness)
    }

    /// True once the cursor has moved further than the idle deadzone.
    fn notices(&self, cursor: (i32, i32)) -> (moved: bool)
        ensures
            moved == self@.notices((cursor.0 as int, cursor.1 as int)),
    {
        let space: i64 = self.config.idle_space as i64;
        let across: i64 = self.mouse.0 as i64 - cursor.0 as i64;
        let down: i64 = self.mouse.1 as i64 - cursor.1 as i64;
        across > space || -across > space || down > space || -down > space
    }

    /// Aims at the cursor and caps the step at `speed` pixels.
    ///
    /// The animal chases with the middle of its bottom edge - that is where its
    /// paws are, and it is what makes it look like it lands on the cursor rather
    /// than covering it.
    fn step_to(&self, cursor: (i32, i32)) -> (step: (i32, i32))
        ensures
            (step.0 as int, step.1 as int) == self@.step_to((cursor.0 as int, cursor.1 as int)),
    {
        let dx: i64 = cursor.0 as i64 - self.x as i64 - SPRITE_SIZE as i64 / 2;
        let dy: i64 = cursor.1 as i64 - self.y as i64 - SPRITE_SIZE as i64;
        step(self.config.speed, dx, dy)
    }

    /// Turns to the one of eight directions closest to `step`.
    fn face(&mut self, step: (i32, i32))
        ensures
            final(self)@ == old(self)@.facing((step.0 as int, step.1 as int)),
    {
        let next: State = match heading(step) {
            None => State::Stop,
            Some(direction) => State::Move(direction),
        };
        if self.state != next {
            self.set_state(next);
        }
    }

    /// Runs on by `step`, as far as the screen goes.
    fn run(&mut self, step: (i32, i32))
        ensures
            final(self)@ == old(self)@.ran((step.0 as int, step.1 as int)),
    {
        let last: (i32, i32) = (self.x, self.y);
        let aim: (i64, i64) = (self.x as i64 + step.0 as i64, self.y as i64 + step.1 as i64);
        self.face(step);
        self.x = saturate(aim.0);
        self.y = saturate(aim.1);
        let hit_edge: bool = self.clamp_into_bounds();
        if hit_edge && self.x == last.0 && self.y == last.1 {
            self.set_state(State::Stop);
        }
    }

    /// Which edge it is pinned against while still trying to go further.
    fn wall_to_scratch(&self, step: (i32, i32)) -> (wall: Option<Wall>)
        ensures
            wall == self@.wall_against((step.0 as int, step.1 as int)),
    {
        if !self.config.scratch_walls {
            return None;
        }
        let right: i64 = self.bounds.0 as i64 - SPRITE_SIZE as i64;
        let bottom: i64 = self.bounds.1 as i64 - SPRITE_SIZE as i64;
        if step.0 < 0 && self.x <= 0 {
            Some(Wall::Left)
        } else if step.0 > 0 && self.x as i64 >= right {
            Some(Wall::Right)
        } else if step.1 < 0 && self.y <= 0 {
            Some(Wall::Up)
        } else if step.1 > 0 && self.y as i64 >= bottom {
            Some(Wall::Down)
        } else {
            None
        }
    }

    /// Clamps into the screen, reporting whether it had to.
    pub fn clamp_into_bounds(&mut self) -> (had_to: bool)
        ensures
            had_to == !old(self)@.on_screen(),
            final(self)@.on_screen(),
            final(self)@ == (Mind { at: confined(old(self)@.bounds, old(self)@.at), ..old(self)@ }),
    {
        let max_x: i64 = if self.bounds.0 < SPRITE_SIZE { 0 } else { (self.bounds.0 - SPRITE_SIZE) as i64 };
        let max_y: i64 = if self.bounds.1 < SPRITE_SIZE { 0 } else { (self.bounds.1 - SPRITE_SIZE) as i64 };
        let x: i32 = clamp_between(self.x as i64, 0, max_x) as i32;
        let y: i32 = clamp_between(self.y as i64, 0, max_y) as i32;
        let hit_edge: bool = x != self.x || y != self.y;
        self.x = x;
        self.y = y;
        hit_edge
    }
}

/// Every animal's counters are what counters can be.
pub proof fn counters_are_counters(neko: Neko)
    ensures
        0 <= neko@.ticks < 0x1_0000_0000,
        0 <= neko@.counts <= u32::MAX,
{
}

} // verus!
