//! The main loop's decisions: what the animal does in a frame, given what the
//! compositor, the cursor feed and the clock say.

use vstd::prelude::*;

use crate::chase::step_towards;
use crate::cli::Cli;
use crate::clock::{ClockError, hour_of, is_night_at, local_now, nightly};
use crate::cursor::Position;
use crate::double::Double;
use crate::rounding::{saturate, saturated};
use crate::habits::{
    a_tick_keeps_it_on_the_screen, every_animal_falls_asleep, starts_on_the_screen, still,
    waiting_keeps_it_sound,
};
use crate::neko::{Config, Mind, Neko, SPRITE_SIZE, TICK_MILLIS, confined, newborn};
use crate::state::State;

verus! {

/// How much longer than one unscaled sprite the drawn one is. A scale beyond
/// `i32` counts as none.
pub open spec fn overhang(scale: u32) -> int {
    if scale <= i32::MAX {
        SPRITE_SIZE * (scale - 1)
    } else {
        0
    }
}

/// A length of the screen, less what a scaled sprite hangs over by, but no less
/// than an unscaled sprite needs.
pub open spec fn shrunk(length: int, scale: u32) -> int {
    if length - overhang(scale) < SPRITE_SIZE {
        SPRITE_SIZE as int
    } else {
        saturated(length - overhang(scale))
    }
}

/// The bounds to hand the animal.
///
/// It reasons in unscaled 32x32 sprites, but what is drawn is `scale` times that,
/// so the screen is shrunk by the difference to keep the drawn animal on it.
pub fn brain_bounds(size: (i32, i32), scale: u32) -> (bounds: (i32, i32))
    ensures
        bounds.0 == shrunk(size.0 as int, scale),
        bounds.1 == shrunk(size.1 as int, scale),
{
    let overhang: i64 = if scale <= i32::MAX as u32 {
        SPRITE_SIZE as i64 * (scale as i64 - 1)
    } else {
        0
    };
    (shrink(size.0 as i64 - overhang), shrink(size.1 as i64 - overhang))
}

fn shrink(length: i64) -> (shrunk: i32)
    ensures
        shrunk == (if length < SPRITE_SIZE {
            SPRITE_SIZE as int
        } else {
            saturated(length as int)
        }),
{
    if length < SPRITE_SIZE as i64 {
        SPRITE_SIZE
    } else {
        saturate(length)
    }
}

/// How long to sleep, in nanoseconds, after a frame that took `elapsed`: the
/// animal thinks eight times a second, regardless of how long the frame took.
pub fn pause(elapsed: u128) -> (remaining: Option<u128>)
    ensures
        remaining == (if elapsed <= TICK_MILLIS * 1_000_000 {
            Some((TICK_MILLIS * 1_000_000 - elapsed) as u128)
        } else {
            None
        }),
        // The frame and the pause together are an eighth of a second.
        remaining matches Some(rest) ==> 8 * (elapsed + rest) == 1_000_000_000,
        remaining is None <==> 8 * elapsed > 1_000_000_000,
{
    let tick: u128 = TICK_MILLIS as u128 * 1_000_000;
    if elapsed <= tick {
        Some(tick - elapsed)
    } else {
        None
    }
}

/// What the outside says at the start of a frame.
#[derive(Debug, Clone, Copy, PartialEq, Eq)]
pub struct Scene {
    /// Whether the compositor has taken every surface away.
    pub closed: bool,
    /// The size of the monitor layout.
    pub size: (i32, i32),
    /// Its top-left in the compositor's global coordinates.
    pub origin: (i32, i32),
    /// The last reported cursor position, in the compositor's global coordinates,
    /// and how long ago it was reported, in nanoseconds.
    pub cursor: Option<(Position, u128)>,
    /// Whether the seat is idle.
    pub session_idle: bool,
}

/// What a frame shows.
#[derive(Debug, Clone, Copy)]
pub struct Picture {
    /// The name of the frame to draw.
    pub frame: &'static str,
    /// Where, relative to the layout's origin.
    pub position: (i32, i32),
    /// Whether to say that no cursor position has come in yet.
    pub warn: bool,
    /// The sleepiness that is in force from now on, if that is news.
    pub sleepiness: Option<Double>,
    /// Whether to step off the outputs that show a fullscreen window.
    pub hide: bool,
}

/// What is to be done in a frame.
#[derive(Debug, Clone, Copy)]
pub enum Outcome {
    /// The surface is closed, and that is all right.
    Exit,
    /// The surface is closed, which a supervisor should hear of.
    Fail,
    Draw(Picture),
}

/// The cursor as far as the animal is concerned: kept to itself, it never
/// consults it.
pub open spec fn consulted(args: Cli, scene: Scene) -> Option<(Position, u128)> {
    if args.is_static {
        None
    } else {
        scene.cursor
    }
}

/// The sleepiness to change to: by night or by day, if that just began.
pub open spec fn new_sleepiness(args: Cli, night_now: bool, night: bool) -> Option<Double> {
    match args.sleepiness_night {
        Some(at_night) if night != night_now => Some(
            if night {
                at_night
            } else {
                args.sleepiness
            },
        ),
        _ => None,
    }
}

/// The animal at the start of a frame: within the screen as it is now, and as
/// sleepy as the time of day has it.
pub open spec fn prepared(mind: Mind, args: Cli, night_now: bool, scene: Scene, night: bool) -> Mind {
    let bounds = (shrunk(scene.size.0 as int, args.scale), shrunk(scene.size.1 as int, args.scale));
    let config = match new_sleepiness(args, night_now, night) {
        None => mind.config,
        Some(sleepiness) => Config { sleepiness, ..mind.config },
    };
    Mind { config, bounds, at: confined(bounds, mind.at), ..mind }
}

/// Where an animal's paws are.
pub open spec fn paws(mind: Mind) -> (int, int) {
    (mind.at.0 + SPRITE_SIZE / 2, mind.at.1 + SPRITE_SIZE)
}

/// A global position relative to an origin.
pub open spec fn relative(position: Position, origin: (i32, i32)) -> (int, int) {
    (saturated(position.0 - origin.0), saturated(position.1 - origin.1))
}

/// Whether the cursor has not been heard of for so long that the user has gone
/// away.
pub open spec fn deserted(args: Cli, age: u128) -> bool {
    args.idle_sleep matches Some(limit) && age >= limit
}

/// The animal after a frame. With nothing to chase, the idle chain runs its
/// course. A cursor that has not moved in a long time means the user has gone
/// away: it drops straight to sleep. So it does when the compositor says that the
/// seat is idle.
pub open spec fn lived(mind: Mind, args: Cli, night_now: bool, scene: Scene, night: bool) -> Mind {
    let ready = prepared(mind, args, night_now, scene, night);
    let done = match consulted(args, scene) {
        None => ready.ticked(paws(ready)),
        Some((position, age)) => {
            let chased = ready.ticked(relative(position, scene.origin));
            if deserted(args, age) {
                chased.asleep()
            } else {
                chased
            }
        },
    };
    if scene.session_idle {
        done.asleep()
    } else {
        done
    }
}

/// The animal and what the loop remembers from one frame to the next.
#[derive(Debug)]
pub struct Session {
    pub neko: Neko,
    /// Whether it has been said that no cursor position came in.
    pub warned_about_silence: bool,
    /// Whether the sleepiness in force is the one for the night.
    pub night_now: bool,
}

impl Session {
    /// Starts with the animal in the middle of a layout of a certain size.
    ///
    /// It starts out by day, so that the first frame applies the night value if it
    /// is night.
    pub fn new(args: &Cli, size: (i32, i32)) -> (session: Session)
        ensures
            session.neko@ == newborn(
                session.neko@.config,
                (shrunk(size.0 as int, args.scale), shrunk(size.1 as int, args.scale)),
            ),
            session.neko@.config.speed == args.speed,
            session.neko@.config.sleepiness == args.sleepiness,
            session.neko@.config.scratch_walls == !args.no_wall_scratch,
            session.neko@.config.idle_space == 6,
            !session.warned_about_silence,
            !session.night_now,
    {
        Session {
            neko: Neko::new(args.config(), brain_bounds(size, args.scale)),
            warned_about_silence: false,
            night_now: false,
        }
    }

    /// Whether an outcome, and the session after it, is what a frame comes to.
    pub open spec fn comes_to(
        self,
        args: Cli,
        scene: Scene,
        night: bool,
        outcome: Outcome,
        after: Session,
    ) -> bool {
        if scene.closed {
            &&& after == self
            &&& outcome == if args.survive_close {
                Outcome::Fail
            } else {
                Outcome::Exit
            }
        } else {
            let silent = scene.cursor is None && !args.is_static;
            &&& after.neko@ == lived(self.neko@, args, self.night_now, scene, night)
            &&& after.warned_about_silence == (self.warned_about_silence || silent)
            &&& after.night_now == if args.sleepiness_night is Some {
                night
            } else {
                self.night_now
            }
            &&& outcome matches Outcome::Draw(picture) && {
                &&& picture.frame@ == after.neko@.frame_name()
                &&& (picture.position.0 as int, picture.position.1 as int) == after.neko@.at
                &&& picture.warn == (silent && !self.warned_about_silence)
                &&& picture.sleepiness == new_sleepiness(args, self.night_now, night)
                &&& picture.hide == !args.over_fullscreen
            }
        }
    }

    /// Lives one frame, by day or by `night`.
    pub fn advance(&mut self, args: &Cli, scene: &Scene, night: bool) -> (outcome: Outcome)
        ensures
            old(self).comes_to(*args, *scene, night, outcome, *final(self)),
    {
        if scene.closed {
            return if args.survive_close {
                Outcome::Fail
            } else {
                Outcome::Exit
            };
        }
        self.neko.set_bounds(brain_bounds(scene.size, args.scale));
        let sleepiness: Option<Double> = self.follow_the_clock(args, night);
        assert(self.neko@ == prepared(
            old(self).neko@,
            *args,
            old(self).night_now,
            *scene,
            night,
        ));
        let mut warn: bool = false;
        // Kept to itself, the animal never consults the cursor.
        let cursor: Option<(Position, u128)> = if args.is_static {
            None
        } else {
            scene.cursor
        };
        match cursor {
            None => {
                if !self.warned_about_silence && !args.is_static {
                    warn = true;
                    self.warned_about_silence = true;
                }
                // Nothing to chase; let the idle chain run its course.
                let (x, y): (i32, i32) = self.neko.position();
                self.neko.tick((x + SPRITE_SIZE / 2, y + SPRITE_SIZE));
            },
            Some((position, age)) => {
                let x: i32 = saturate(position.0 as i64 - scene.origin.0 as i64);
                let y: i32 = saturate(position.1 as i64 - scene.origin.1 as i64);
                self.neko.tick((x, y));
                if let Some(limit) = args.idle_sleep {
                    if age >= limit {
                        self.neko.sleep_now();
                    }
                }
            },
        }
        // The compositor's word beats any guess made from cursor traffic: it sees
        // the keyboard too, and it knows about the lock screen.
        if scene.session_idle {
            self.neko.sleep_now();
        }
        Outcome::Draw(
            Picture {
                frame: self.neko.frame(),
                position: self.neko.position(),
                warn,
                sleepiness,
                hide: !args.over_fullscreen,
            },
        )
    }

    /// Switches to the sleepiness for the time of day, if that changed. Tracked as
    /// "is it night" rather than as the value, so switching back and forth is an
    /// unambiguous flip.
    fn follow_the_clock(&mut self, args: &Cli, night: bool) -> (sleepiness: Option<Double>)
        ensures
            sleepiness == new_sleepiness(*args, old(self).night_now, night),
            final(self).warned_about_silence == old(self).warned_about_silence,
            final(self).night_now == (if args.sleepiness_night is Some {
                night
            } else {
                old(self).night_now
            }),
            final(self).neko@ == (match sleepiness {
                None => old(self).neko@,
                Some(sleepiness) => Mind {
                    config: Config { sleepiness, ..old(self).neko@.config },
                    ..old(self).neko@
                },
            }),
    {
        match args.sleepiness_night {
            None => None,
            Some(at_night) => {
                if night == self.night_now {
                    return None;
                }
                let wanted: Double = if night {
                    at_night
                } else {
                    args.sleepiness
                };
                self.neko.set_sleepiness(wanted);
                self.night_now = night;
                Some(wanted)
            },
        }
    }

    /// Lives one frame at a moment, if that has a local time where it makes a
    /// difference whether it is night.
    pub fn frame_at(
        &mut self,
        args: &Cli,
        scene: &Scene,
        moment: Result<jiff::Zoned, jiff::Error>,
    ) -> (outcome: Result<Outcome, ClockError>)
        ensures
            scene.closed || args.sleepiness_night is None ==> {
                &&& outcome is Ok
                &&& forall|night: bool| #[trigger]
                    old(self).comes_to(*args, *scene, night, outcome->Ok_0, *final(self))
            },
            !scene.closed && args.sleepiness_night is Some ==> match moment {
                Ok(zoned) => outcome is Ok && old(self).comes_to(
                    *args,
                    *scene,
                    nightly(hour_of(zoned) as int),
                    outcome->Ok_0,
                    *final(self),
                ),
                Err(_) => outcome == Err::<Outcome, ClockError>(ClockError) && *final(self) == *old(self),
            },
    {
        if scene.closed || args.sleepiness_night.is_none() {
            return Ok(self.advance(args, scene, false));
        }
        match is_night_at(moment) {
            Ok(night) => Ok(self.advance(args, scene, night)),
            Err(error) => Err(error),
        }
    }

    /// Lives one frame, at the moment that the machine's clock says. The clock is
    /// only asked where it makes a difference.
    pub fn frame(&mut self, args: &Cli, scene: &Scene) -> (outcome: Result<Outcome, ClockError>)
        ensures
            match outcome {
                Ok(outcome) => exists|night: bool| #[trigger]
                    old(self).comes_to(*args, *scene, night, outcome, *final(self)),
                Err(_) => *final(self) == *old(self) && args.sleepiness_night is Some && !scene.closed,
            },
    {
        if scene.closed || args.sleepiness_night.is_none() {
            return Ok(self.advance(args, scene, false));
        }
        self.frame_at(args, scene, local_now())
    }
}

/// In every frame the animal ends up on the screen, whatever the screen has become
/// and wherever the cursor is.
pub proof fn every_frame_is_on_the_screen(
    mind: Mind,
    args: Cli,
    night_now: bool,
    scene: Scene,
    night: bool,
)
    ensures
        lived(mind, args, night_now, scene, night).on_screen(),
        lived(mind, args, night_now, scene, night).bounds == (
            shrunk(scene.size.0 as int, args.scale),
            shrunk(scene.size.1 as int, args.scale),
        ),
{
    let ready = prepared(mind, args, night_now, scene, night);
    assert(ready.on_screen());
    let cursor = match consulted(args, scene) {
        None => paws(ready),
        Some((position, _)) => relative(position, scene.origin),
    };
    a_tick_keeps_it_on_the_screen(ready, cursor);
}

/// On a layout that is large enough for the scaled sprite, the whole of what is
/// drawn is on it, not only the unscaled sprite the animal reasons in.
pub proof fn the_drawn_animal_is_on_the_layout(
    mind: Mind,
    args: Cli,
    night_now: bool,
    scene: Scene,
    night: bool,
)
    requires
        1 <= args.scale <= i32::MAX,
        scene.size.0 >= SPRITE_SIZE * args.scale,
        scene.size.1 >= SPRITE_SIZE * args.scale,
    ensures
        ({
            let at = lived(mind, args, night_now, scene, night).at;
            &&& 0 <= at.0 && at.0 + SPRITE_SIZE * args.scale <= scene.size.0
            &&& 0 <= at.1 && at.1 + SPRITE_SIZE * args.scale <= scene.size.1
        }),
{
    every_frame_is_on_the_screen(mind, args, night_now, scene, night);
}

/// Left alone, the animal stays where it is for as long as the screen lets it: a
/// cursor at its own paws is nothing to chase.
pub proof fn left_alone_it_stays_where_it_is(
    mind: Mind,
    args: Cli,
    night_now: bool,
    scene: Scene,
    night: bool,
)
    requires
        consulted(args, scene) is None,
    ensures
        lived(mind, args, night_now, scene, night).at == prepared(
            mind,
            args,
            night_now,
            scene,
            night,
        ).at,
{
    let ready = prepared(mind, args, night_now, scene, night);
    assert(ready.on_screen());
    assert(ready.step_to(paws(ready)) == step_towards(ready.config.speed, 0, 0));
}

/// An idle seat, or a cursor not heard of for too long, puts the animal to sleep
/// at once.
pub proof fn a_deserted_desk_sends_it_to_sleep(
    mind: Mind,
    args: Cli,
    night_now: bool,
    scene: Scene,
    night: bool,
)
    requires
        scene.session_idle || (consulted(args, scene) matches Some((_, age)) && deserted(args, age)),
    ensures
        lived(mind, args, night_now, scene, night).state == State::Sleep,
{
}

/// Whether the sleepiness in force is the one for the time of day.
pub open spec fn in_step_with_the_clock(mind: Mind, args: Cli, night_now: bool) -> bool {
    mind.config.sleepiness == match args.sleepiness_night {
        Some(at_night) if night_now => at_night,
        _ => args.sleepiness,
    }
}

/// The sleepiness in force is always the one for the time of day, however often
/// that changes.
pub proof fn sleepiness_follows_the_clock(
    session: Session,
    args: Cli,
    scene: Scene,
    night: bool,
    outcome: Outcome,
    after: Session,
)
    requires
        in_step_with_the_clock(session.neko@, args, session.night_now),
        session.comes_to(args, scene, night, outcome, after),
    ensures
        in_step_with_the_clock(after.neko@, args, after.night_now),
        !scene.closed && args.sleepiness_night is Some ==> after.night_now == night,
{
    let ready = prepared(session.neko@, args, session.night_now, scene, night);
    if !scene.closed {
        let cursor = match consulted(args, scene) {
            None => paws(ready),
            Some((position, _)) => relative(position, scene.origin),
        };
        assert(ready.on_screen());
        a_tick_keeps_it_on_the_screen(ready, cursor);
    }
}

/// The animal after `n` frames in which the outside says the same.
pub open spec fn lives(mind: Mind, args: Cli, scene: Scene, night: bool, n: nat) -> Mind
    decreases n,
{
    if n == 0 {
        mind
    } else {
        lived(lives(mind, args, scene, night, (n - 1) as nat), args, night, scene, night)
    }
}

/// Where the animal takes the cursor to be.
spec fn attended(ready: Mind, args: Cli, scene: Scene) -> (int, int) {
    match consulted(args, scene) {
        None => paws(ready),
        Some((position, _)) => relative(position, scene.origin),
    }
}

/// Whether a scene leaves the animal to its own devices: nothing sends it to sleep.
spec fn is_awake_scene(args: Cli, scene: Scene) -> bool {
    &&& !scene.session_idle
    &&& consulted(args, scene) matches Some((_, age)) ==> !deserted(args, age)
}

/// A frame in which nothing sends the animal to sleep is a tick.
proof fn a_frame_is_a_tick(mind: Mind, args: Cli, scene: Scene, night: bool)
    requires
        is_awake_scene(args, scene),
    ensures
        ({
            let ready = prepared(mind, args, night, scene, night);
            lived(mind, args, night, scene, night) == ready.ticked(attended(ready, args, scene))
        }),
{
}

/// An animal that is within the screen and as sleepy as the time of day has it needs
/// no preparation.
proof fn prepared_once(mind: Mind, args: Cli, scene: Scene, night: bool)
    requires
        mind.bounds == (shrunk(scene.size.0 as int, args.scale), shrunk(scene.size.1 as int, args.scale)),
        mind.on_screen(),
    ensures
        prepared(mind, args, night, scene, night) == mind,
{
}

/// With nothing to chase, a wait does not move the animal.
proof fn waiting_for_nothing(mind: Mind, n: nat)
    requires
        mind.on_screen(),
    ensures
        still(mind, paws(mind), n).at == mind.at,
        still(mind, paws(mind), n).bounds == mind.bounds,
        still(mind, paws(mind), n).config == mind.config,
    decreases n,
{
    if n > 0 {
        let earlier = still(mind, paws(mind), (n - 1) as nat);
        waiting_for_nothing(mind, (n - 1) as nat);
        assert(earlier.on_screen());
        assert(earlier.step_to(paws(mind)) == step_towards(mind.config.speed, 0, 0));
        a_tick_keeps_it_on_the_screen(earlier, paws(mind));
    }
}

/// Frames in which the outside says the same are ticks under a still cursor.
proof fn frames_are_ticks(mind: Mind, args: Cli, scene: Scene, night: bool, n: nat)
    requires
        0 <= mind.ticks < 0x1_0000_0000,
        0 <= mind.counts <= u32::MAX,
        is_awake_scene(args, scene),
        n > 0,
    ensures
        ({
            let ready = prepared(mind, args, night, scene, night);
            lives(mind, args, scene, night, n) == still(ready, attended(ready, args, scene), n)
        }),
    decreases n,
{
    let ready = prepared(mind, args, night, scene, night);
    let cursor = attended(ready, args, scene);
    let before = (n - 1) as nat;
    let earlier = still(ready, cursor, before);
    assert(ready.on_screen());
    if before == 0 {
        assert(lives(mind, args, scene, night, 0) == mind);
        assert(earlier == ready);
        a_frame_is_a_tick(mind, args, scene, night);
    } else {
        frames_are_ticks(mind, args, scene, night, before);
        waiting_keeps_it_sound(ready, cursor, before);
        if consulted(args, scene) is None {
            waiting_for_nothing(ready, before);
        }
        prepared_once(earlier, args, scene, night);
        a_frame_is_a_tick(earlier, args, scene, night);
    }
}

/// While the outside has nothing new to say, whatever that is, the animal falls
/// asleep in the end.
pub proof fn a_quiet_session_ends_in_sleep(mind: Mind, args: Cli, scene: Scene, night: bool) -> (n: nat)
    requires
        0 <= mind.ticks < 0x1_0000_0000,
        0 <= mind.counts <= u32::MAX,
        mind.config.idle_space >= 0,
        mind.config.speed.num() >= 0,
    ensures
        lives(mind, args, scene, night, n).state == State::Sleep,
{
    let ready = prepared(mind, args, night, scene, night);
    assert(ready.on_screen());
    assert(lives(mind, args, scene, night, 0) == mind);
    if scene.session_idle || (consulted(args, scene) matches Some((_, age)) && deserted(args, age)) {
        a_deserted_desk_sends_it_to_sleep(mind, args, night, scene, night);
        assert(lives(mind, args, scene, night, 1) == lived(mind, args, night, scene, night));
        1
    } else {
        let cursor = attended(ready, args, scene);
        let n = every_animal_falls_asleep(ready, cursor);
        if n > 0 {
            frames_are_ticks(mind, args, scene, night, n);
        } else {
            assert(still(ready, cursor, 0) == ready);
        }
        n
    }
}

/// The animal after some rounds, each with what the outside says in it and whether
/// it is night, and whether the sleepiness in force is then the one for the night.
pub open spec fn lived_through(
    mind: Mind,
    args: Cli,
    night_now: bool,
    rounds: Seq<(Scene, bool)>,
) -> (Mind, bool)
    decreases rounds.len(),
{
    if rounds.len() == 0 {
        (mind, night_now)
    } else {
        let (before, flag) = lived_through(mind, args, night_now, rounds.drop_last());
        let (scene, night) = rounds.last();
        if scene.closed {
            (before, flag)
        } else {
            (
                lived(before, args, flag, scene, night),
                if args.sleepiness_night is Some {
                    night
                } else {
                    flag
                },
            )
        }
    }
}

/// Whether sessions follow one another, one round and one outcome at a time.
pub open spec fn follow(
    sessions: Seq<Session>,
    args: Cli,
    rounds: Seq<(Scene, bool)>,
    outcomes: Seq<Outcome>,
) -> bool {
    &&& sessions.len() == rounds.len() + 1
    &&& outcomes.len() == rounds.len()
    &&& forall|i: int|
        0 <= i < rounds.len() ==> sessions[i].comes_to(
            args,
            (#[trigger] rounds[i]).0,
            rounds[i].1,
            outcomes[i],
            sessions[i + 1],
        )
}

/// Sessions that follow one another live through their rounds.
pub proof fn sessions_live_through_their_rounds(
    sessions: Seq<Session>,
    args: Cli,
    rounds: Seq<(Scene, bool)>,
    outcomes: Seq<Outcome>,
    k: int,
)
    requires
        follow(sessions, args, rounds, outcomes),
        0 <= k <= rounds.len(),
    ensures
        (sessions[k].neko@, sessions[k].night_now) == lived_through(
            sessions[0].neko@,
            args,
            sessions[0].night_now,
            rounds.take(k),
        ),
    decreases k,
{
    if k > 0 {
        sessions_live_through_their_rounds(sessions, args, rounds, outcomes, k - 1);
        assert(rounds.take(k).drop_last() =~= rounds.take(k - 1));
        assert(rounds.take(k).last() == rounds[k - 1]);
    }
}

/// An animal that is kept to itself stays where it is through any rounds on a
/// layout of one size, whatever the cursor does.
proof fn kept_to_itself_it_stays(
    mind: Mind,
    args: Cli,
    night_now: bool,
    rounds: Seq<(Scene, bool)>,
    size: (i32, i32),
)
    requires
        args.is_static,
        forall|i: int| 0 <= i < rounds.len() ==> (#[trigger] rounds[i]).0.size == size,
        mind.at == confined(
            (shrunk(size.0 as int, args.scale), shrunk(size.1 as int, args.scale)),
            mind.at,
        ),
    ensures
        lived_through(mind, args, night_now, rounds).0.at == mind.at,
    decreases rounds.len(),
{
    if rounds.len() > 0 {
        let rest = rounds.drop_last();
        assert(forall|i: int| 0 <= i < rest.len() ==> #[trigger] rest[i] == rounds[i]);
        kept_to_itself_it_stays(mind, args, night_now, rest, size);
        let (before, flag) = lived_through(mind, args, night_now, rest);
        let (scene, night) = rounds.last();
        assert(rounds[rounds.len() - 1].0.size == size);
        left_alone_it_stays_where_it_is(before, args, flag, scene, night);
    }
}

/// An animal that is kept to itself is drawn in the same place in every round, the
/// middle that it started at, for as long as the layout keeps its size and whatever
/// cursor positions are reported.
pub proof fn a_static_animal_is_drawn_in_one_place(
    sessions: Seq<Session>,
    args: Cli,
    rounds: Seq<(Scene, bool)>,
    outcomes: Seq<Outcome>,
    size: (i32, i32),
    k: int,
)
    requires
        args.is_static,
        follow(sessions, args, rounds, outcomes),
        sessions[0].neko@ == newborn(
            sessions[0].neko@.config,
            (shrunk(size.0 as int, args.scale), shrunk(size.1 as int, args.scale)),
        ),
        forall|i: int| 0 <= i < rounds.len() ==> (#[trigger] rounds[i]).0.size == size,
        0 <= k < rounds.len(),
    ensures
        sessions[k + 1].neko@.at == sessions[0].neko@.at,
        outcomes[k] matches Outcome::Draw(picture) ==> (
            picture.position.0 as int,
            picture.position.1 as int,
        ) == sessions[0].neko@.at,
{
    let bounds = (shrunk(size.0 as int, args.scale), shrunk(size.1 as int, args.scale));
    starts_on_the_screen(sessions[0].neko@.config, bounds);
    sessions_live_through_their_rounds(sessions, args, rounds, outcomes, k + 1);
    let lived_rounds = rounds.take(k + 1);
    assert(forall|i: int| 0 <= i < lived_rounds.len() ==> #[trigger] lived_rounds[i] == rounds[i]);
    kept_to_itself_it_stays(
        sessions[0].neko@,
        args,
        sessions[0].night_now,
        lived_rounds,
        size,
    );
    assert(sessions[k].comes_to(args, rounds[k].0, rounds[k].1, outcomes[k], sessions[k + 1]));
}

/// Whether two scenes say the same of everything but the cursor and what it is
/// measured from.
pub open spec fn same_but_for_the_cursor(one: Scene, other: Scene) -> bool {
    one.closed == other.closed && one.size == other.size && one.session_idle == other.session_idle
}

/// An animal that is kept to itself does the same whatever cursor positions are
/// reported, however long ago.
pub proof fn a_static_animal_hears_of_no_cursor(
    mind: Mind,
    args: Cli,
    night_now: bool,
    one: Seq<(Scene, bool)>,
    other: Seq<(Scene, bool)>,
)
    requires
        args.is_static,
        one.len() == other.len(),
        forall|i: int|
            0 <= i < one.len() ==> same_but_for_the_cursor((#[trigger] one[i]).0, other[i].0) && one[i].1
                == other[i].1,
    ensures
        lived_through(mind, args, night_now, one) == lived_through(mind, args, night_now, other),
    decreases one.len(),
{
    if one.len() > 0 {
        let (a, b) = (one.drop_last(), other.drop_last());
        assert forall|i: int| 0 <= i < a.len() implies same_but_for_the_cursor(
            (#[trigger] a[i]).0,
            b[i].0,
        ) && a[i].1 == b[i].1 by {
            assert(a[i] == one[i] && b[i] == other[i]);
        }
        a_static_animal_hears_of_no_cursor(mind, args, night_now, a, b);
        let last = one.len() - 1;
        assert(same_but_for_the_cursor(one[last].0, other[last].0));
    }
}

/// Silence is only ever remarked on once.
pub proof fn silence_is_remarked_on_once(
    session: Session,
    args: Cli,
    scene: Scene,
    night: bool,
    outcome: Outcome,
    after: Session,
)
    requires
        session.comes_to(args, scene, night, outcome, after),
    ensures
        session.warned_about_silence ==> after.warned_about_silence && !(outcome matches Outcome::Draw(
            picture,
        ) && picture.warn),
        outcome matches Outcome::Draw(picture) && picture.warn ==> after.warned_about_silence,
{
}

} // verus!
