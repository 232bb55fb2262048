//! What one round of the main loop comes to, told in what goes into it: where the
//! cursor is reported and how long ago, how large the desktop is, and what time it is.

use vstd::prelude::*;

use crate::cli::{AnimalArg, Cli};
use crate::clock::nightly;
use crate::layer::{Layer, LayerArg, chosen_layer};
use crate::neko::{Config, Mind};
use crate::session::{Outcome, Scene, Session, lived, shrunk};
use crate::sheet::Animal;
use crate::state::State;

verus! {

/// The screen that the animal reasons with ends where a sprite drawn at its scale would
/// touch the edge: that is as much shorter than the desktop as the drawn sprite is longer
/// than 32 pixels. It is never too short for an animal.
pub proof fn a_large_animal_has_less_room(length: int, scale: u32)
    requires
        1 <= scale <= 0x7fff_ffff,
        length <= i32::MAX,
    ensures
        shrunk(length, scale) >= 32,
        length >= 32 * scale ==> shrunk(length, scale) - 32 == length - 32 * scale,
        length < 32 * scale ==> shrunk(length, scale) == 32,
{
}

/// The animal at the start of a round: it has the room that the desktop leaves it, and
/// is moved no further than it takes to be in there.
proof fn room_for_the_animal(at: (int, int), bounds: (int, int))
    requires
        bounds.0 >= 32,
        bounds.1 >= 32,
    ensures
        ({
            let there = crate::neko::confined(bounds, at);
            &&& there.0 == (if at.0 < 0 { 0 } else if at.0 > bounds.0 - 32 { bounds.0 - 32 } else { at.0 })
            &&& there.1 == (if at.1 < 0 { 0 } else if at.1 > bounds.1 - 32 { bounds.1 - 32 } else { at.1 })
        }),
{
}

/// In a round the animal lives through one tick with the cursor where it was reported,
/// counted from the corner of the desktop, and falls asleep if that was too long ago or
/// if the seat is idle. By night it has the sleepiness for the night, if there is one.
pub proof fn a_round_is_a_tick_at_the_cursor(
    mind: Mind,
    args: Cli,
    night_now: bool,
    scene: Scene,
    night: bool,
)
    requires
        !args.is_static,
        scene.cursor is Some,
        ({
            let ((x, y), age) = scene.cursor->0;
            &&& i32::MIN <= x - scene.origin.0 <= i32::MAX
            &&& i32::MIN <= y - scene.origin.1 <= i32::MAX
        }),
    ensures
        ({
            let ((x, y), age) = scene.cursor->0;
            let room = (shrunk(scene.size.0 as int, args.scale), shrunk(scene.size.1 as int, args.scale));
            let sleepiness = if args.sleepiness_night is None || night == night_now {
                mind.config.sleepiness
            } else if night {
                args.sleepiness_night->0
            } else {
                args.sleepiness
            };
            let ready = Mind {
                config: Config { sleepiness, ..mind.config },
                bounds: room,
                at: (
                    if mind.at.0 < 0 { 0 } else if mind.at.0 > room.0 - 32 { room.0 - 32 } else { mind.at.0 },
                    if mind.at.1 < 0 { 0 } else if mind.at.1 > room.1 - 32 { room.1 - 32 } else { mind.at.1 },
                ),
                ..mind
            };
            let ticked = ready.ticked((x - scene.origin.0, y - scene.origin.1));
            let bed = scene.session_idle || (args.idle_sleep is Some && age >= args.idle_sleep->0);
            let now = lived(mind, args, night_now, scene, night);
            &&& !bed ==> now == ticked
            &&& bed && ticked.state == State::Sleep ==> now == ticked
            &&& bed && ticked.state != State::Sleep ==> now == (Mind {
                state: State::Sleep,
                ticks: 0,
                counts: 0,
                ..ticked
            })
        }),
{
    let room = (shrunk(scene.size.0 as int, args.scale), shrunk(scene.size.1 as int, args.scale));
    room_for_the_animal(mind.at, room);
}

/// Without a cursor to chase, or if it is to keep to itself, the animal lives through one
/// tick with the cursor at its own paws: the middle of its bottom edge.
pub proof fn a_round_without_a_cursor_is_a_tick_at_the_paws(
    mind: Mind,
    args: Cli,
    night_now: bool,
    scene: Scene,
    night: bool,
)
    requires
        args.is_static || scene.cursor is None,
    ensures
        ({
            let room = (shrunk(scene.size.0 as int, args.scale), shrunk(scene.size.1 as int, args.scale));
            let sleepiness = if args.sleepiness_night is None || night == night_now {
                mind.config.sleepiness
            } else if night {
                args.sleepiness_night->0
            } else {
                args.sleepiness
            };
            let (x, y) = (
                if mind.at.0 < 0 { 0 } else if mind.at.0 > room.0 - 32 { room.0 - 32 } else { mind.at.0 },
                if mind.at.1 < 0 { 0 } else if mind.at.1 > room.1 - 32 { room.1 - 32 } else { mind.at.1 },
            );
            let ready = Mind {
                config: Config { sleepiness, ..mind.config },
                bounds: room,
                at: (x, y),
                ..mind
            };
            let ticked = ready.ticked((x + 16, y + 32));
            let now = lived(mind, args, night_now, scene, night);
            &&& now.at == (x, y)
            &&& !scene.session_idle || ticked.state == State::Sleep ==> now == ticked
            &&& scene.session_idle && ticked.state != State::Sleep ==> now == (Mind {
                state: State::Sleep,
                ticks: 0,
                counts: 0,
                ..ticked
            })
        }),
{
    let room = (shrunk(scene.size.0 as int, args.scale), shrunk(scene.size.1 as int, args.scale));
    room_for_the_animal(mind.at, room);
    crate::session::left_alone_it_stays_where_it_is(mind, args, night_now, scene, night);
}

/// A round with a surface to draw on shows the animal as it is and where it is, and never
/// ends the program. It steps off covered outputs unless told to stay on them, remarks on
/// a missing cursor the first time that one is missed, and tells of a new sleepiness when
/// the night begins or ends.
pub proof fn a_round_shows_the_animal(
    session: Session,
    args: Cli,
    scene: Scene,
    night: bool,
    outcome: Outcome,
    after: Session,
)
    requires
        session.comes_to(args, scene, night, outcome, after),
        !scene.closed,
    ensures
        outcome is Draw,
        outcome matches Outcome::Draw(picture) ==> {
            let missed = scene.cursor is None && !args.is_static;
            &&& after.neko@.frame_name() == picture.frame@
            &&& after.neko@.at.0 == picture.position.0
            &&& after.neko@.at.1 == picture.position.1
            &&& picture.hide <==> !args.over_fullscreen
            &&& picture.warn <==> missed && !session.warned_about_silence
            &&& after.warned_about_silence <==> session.warned_about_silence || missed
            &&& args.sleepiness_night is None ==> picture.sleepiness is None && after.night_now
                == session.night_now
            &&& args.sleepiness_night is Some ==> after.night_now == night
            &&& args.sleepiness_night is Some && night == session.night_now ==> picture.sleepiness is None
            &&& args.sleepiness_night is Some && night && !session.night_now ==> picture.sleepiness
                == args.sleepiness_night
            &&& args.sleepiness_night is Some && !night && session.night_now ==> picture.sleepiness
                == Some(args.sleepiness)
        },
        after.neko@ == lived(session.neko@, args, session.night_now, scene, night),
{
}

/// A closed surface ends the program, with a failure exactly if that was asked for, and
/// nothing happens to the animal.
pub proof fn a_closed_surface_is_the_end(
    session: Session,
    args: Cli,
    scene: Scene,
    night: bool,
    outcome: Outcome,
    after: Session,
)
    requires
        session.comes_to(args, scene, night, outcome, after),
        scene.closed,
    ensures
        outcome is Fail <==> args.survive_close,
        outcome is Exit <==> !args.survive_close,
        after == session,
{
}

/// The night begins at ten in the evening and ends at six in the morning.
pub proof fn the_night_is_from_ten_to_six(hour: int)
    requires
        0 <= hour < 24,
    ensures
        // Two hours later it is one of the first eight of a day that begins at ten.
        nightly(hour) <==> (hour + 2) % 24 < 8,
{
}

/// Every layer is the one that goes by its name.
pub proof fn layers_are_chosen_by_name(layer: LayerArg)
    ensures
        chosen_layer(layer) is Background <==> layer is Background,
        chosen_layer(layer) is Bottom <==> layer is Bottom,
        chosen_layer(layer) is Top <==> layer is Top,
        chosen_layer(layer) is Overlay <==> layer is Overlay,
{
}

/// A named animal is the one that is drawn. Left to chance it is the cat and the dog in
/// turn, from one number to the next, beginning with the cat.
pub proof fn chance_decides_only_if_asked(nanos: u32)
    ensures
        AnimalArg::Neko.resolved(nanos) == Animal::Neko,
        AnimalArg::Inu.resolved(nanos) == Animal::Dog,
        AnimalArg::Random.resolved(0) == Animal::Neko,
        nanos < u32::MAX ==> AnimalArg::Random.resolved(nanos) != AnimalArg::Random.resolved(
            (nanos + 1) as u32,
        ),
{
}

} // verus!
