//! The animal's state machine.

use nekors::chase::step;
use nekors::double::{count, Double};
use nekors::length::measure;
use nekors::neko::{Config, Neko, SPRITE_SIZE, TICK_MILLIS};
use nekors::state::Direction::{Down, DownLeft, DownRight, Left, Right, Up, UpLeft, UpRight};
use nekors::state::{heading, Direction, State, Wall};

const BOUNDS: (i32, i32) = (1000, 800);

fn double(value: f64) -> Double {
    Double { bits: value.to_bits() }
}

fn neko() -> Neko {
    Neko::new(Config::default(), BOUNDS)
}

/// Ticks with a fixed cursor until `predicate` holds, or gives up.
fn tick_until(neko: &mut Neko, cursor: (i32, i32), predicate: impl Fn(&Neko) -> bool) -> u32 {
    for ticks in 1..=1000 {
        neko.tick(cursor);
        if predicate(neko) {
            return ticks;
        }
    }
    panic!("condition never held; stuck in {:?}", neko.state());
}

#[test]
fn starts_stopped_in_the_middle() {
    let neko = neko();
    assert_eq!(neko.state(), State::Stop);
    assert_eq!(neko.position(), (484, 384));
    assert_eq!(neko.frame(), "mati2");
}

#[test]
fn a_still_cursor_walks_the_whole_idle_chain_into_sleep() {
    let mut neko = neko();
    let cursor = neko.position();

    for expected in [State::Jare, State::Kaki, State::Akubi, State::Sleep] {
        tick_until(&mut neko, cursor, |n| n.state() == expected);
    }
    assert_eq!(neko.state(), State::Sleep);

    // And it stays asleep as long as nothing moves.
    for _ in 0..100 {
        neko.tick(cursor);
    }
    assert_eq!(neko.state(), State::Sleep);
}

#[test]
fn moving_the_cursor_wakes_it_and_it_runs_over() {
    let mut neko = neko();
    let start = neko.position();
    tick_until(&mut neko, start, |n| n.state() == State::Sleep);

    let target = (900, 700);
    neko.tick(target);
    assert_eq!(neko.state(), State::Awake);

    tick_until(&mut neko, target, |n| n.state().is_moving());
    assert_eq!(neko.state(), State::Move(Direction::DownRight));

    tick_until(&mut neko, target, |n| n.state() == State::Stop);
    let (x, y) = neko.position();
    // It stops with the cursor under the middle of its bottom edge.
    assert!((x + SPRITE_SIZE / 2 - target.0).abs() <= 2, "x = {x}");
    assert!((y + SPRITE_SIZE - target.1).abs() <= 2, "y = {y}");
}

#[test]
fn jitter_inside_the_deadzone_does_not_wake_it() {
    let mut neko = neko();
    let cursor = neko.position();
    tick_until(&mut neko, cursor, |n| n.state() == State::Sleep);

    let space = Config::default().idle_space;
    // Deltas between consecutive samples are what counts, so nudge it one
    // deadzone at a time.
    for offset in [space, 0, space, 0] {
        neko.tick((cursor.0 + offset, cursor.1 + offset));
        assert_eq!(neko.state(), State::Sleep, "offset {offset}");
    }
    neko.tick((cursor.0 + space + 1, cursor.1));
    assert_eq!(neko.state(), State::Awake);
}

#[test]
fn every_direction_is_reachable() {
    // Cursor placed far away in each compass direction from the centre.
    let cases = [
        ((500, 0), Up),
        ((500, 800), Down),
        ((0, 400), Left),
        ((1000, 400), Right),
        ((0, 0), UpLeft),
        ((1000, 0), UpRight),
        ((0, 800), DownLeft),
        ((1000, 800), DownRight),
    ];
    for (cursor, expected) in cases {
        let mut neko = neko();
        tick_until(&mut neko, cursor, |n| n.state().is_moving());
        assert_eq!(neko.state(), State::Move(expected), "cursor {cursor:?}");
    }
}

#[test]
fn it_scratches_the_wall_the_cursor_is_hiding_behind() {
    // The cursor sits in the very corner, so the animal ends up pinned
    // against the left edge still wanting to go further left.
    let mut neko = neko();
    tick_until(&mut neko, (0, 400), |n| {
        matches!(n.state(), State::Scratch(_))
    });
    assert_eq!(neko.state(), State::Scratch(Wall::Left));
    assert_eq!(neko.frame(), "ltogi1");

    // Scratching gives up after a while and turns into grooming.
    tick_until(&mut neko, (0, 400), |n| n.state() == State::Kaki);
}

#[test]
fn wall_scratching_can_be_turned_off() {
    let config = Config {
        scratch_walls: false,
        ..Config::default()
    };
    let mut neko = Neko::new(config, BOUNDS);
    tick_until(&mut neko, (0, 400), |n| n.state() == State::Jare);
    assert!(!matches!(neko.state(), State::Scratch(_)));
}

#[test]
fn it_never_leaves_the_screen() {
    let mut neko = neko();
    for cursor in [(-500, -500), (5000, 5000), (0, 0), (1000, 800)] {
        for _ in 0..200 {
            neko.tick(cursor);
            let (x, y) = neko.position();
            assert!((0..=BOUNDS.0 - SPRITE_SIZE).contains(&x), "x = {x}");
            assert!((0..=BOUNDS.1 - SPRITE_SIZE).contains(&y), "y = {y}");
        }
    }
}

#[test]
fn resizing_the_screen_pulls_it_back_in() {
    let mut neko = neko();
    tick_until(&mut neko, (990, 790), |n| n.state() == State::Stop);
    neko.set_bounds((400, 300));
    let (x, y) = neko.position();
    assert_eq!((x, y), (400 - SPRITE_SIZE, 300 - SPRITE_SIZE));
}

#[test]
fn sleepiness_scales_the_idle_timers() {
    let sleepy = Config {
        sleepiness: double(4.0),
        ..Config::default()
    };
    let mut lazy = neko();
    let mut sleepy = Neko::new(sleepy, BOUNDS);
    let cursor = lazy.position();

    let lazy_ticks = tick_until(&mut lazy, cursor, |n| n.state() == State::Sleep);
    let sleepy_ticks = tick_until(&mut sleepy, cursor, |n| n.state() == State::Sleep);
    assert!(
        sleepy_ticks < lazy_ticks,
        "sleepy {sleepy_ticks} should beat {lazy_ticks}",
    );
}

#[test]
fn sleep_now_short_circuits_the_idle_chain() {
    let mut neko = neko();
    neko.sleep_now();
    assert_eq!(neko.state(), State::Sleep);

    // It still wakes up normally afterwards.
    neko.tick((900, 700));
    assert_eq!(neko.state(), State::Awake);
}

#[test]
fn sleeping_breathes_at_a_quarter_of_the_animation_rate() {
    let mut neko = neko();
    let cursor = neko.position();
    tick_until(&mut neko, cursor, |n| n.state() == State::Sleep);

    let frames: Vec<_> = (0..8)
        .map(|_| {
            neko.tick(cursor);
            neko.frame()
        })
        .collect();
    assert_eq!(
        frames,
        [
            "sleep1", "sleep1", "sleep1", "sleep2", "sleep2", "sleep2", "sleep2", "sleep1"
        ],
    );
}

#[test]
fn every_state_names_two_real_frames() {
    let states = [
        State::Stop,
        State::Jare,
        State::Kaki,
        State::Akubi,
        State::Sleep,
        State::Awake,
        State::Move(Direction::Up),
        State::Scratch(Wall::Down),
    ];
    for state in states {
        for frame in state.frames() {
            assert!(!frame.is_empty(), "{state:?}");
        }
    }
}

#[test]
fn the_frames_of_every_state() {
    let cases = [
        (State::Stop, ["mati2", "mati2"]),
        (State::Jare, ["jare2", "mati2"]),
        (State::Kaki, ["kaki1", "kaki2"]),
        (State::Akubi, ["mati3", "mati3"]),
        (State::Sleep, ["sleep1", "sleep2"]),
        (State::Awake, ["awake", "awake"]),
        (State::Move(Direction::UpLeft), ["upleft1", "upleft2"]),
        (State::Move(Direction::DownRight), ["dwright1", "dwright2"]),
        (State::Scratch(Wall::Up), ["utogi1", "utogi2"]),
        (State::Scratch(Wall::Right), ["rtogi1", "rtogi2"]),
    ];
    for (state, frames) in cases {
        assert_eq!(state.frames(), frames, "{state:?}");
    }
    assert_eq!(State::default(), State::Stop);
}

#[test]
fn a_tick_is_an_eighth_of_a_second() {
    assert_eq!(TICK_MILLIS, 125);
    assert_eq!(SPRITE_SIZE, 32);
}

#[test]
fn the_idle_chain_takes_its_time() {
    // Each pose lasts two ticks per count.
    let mut neko = neko();
    let cursor = neko.position();
    for (pose, ticks) in [(State::Jare, 8), (State::Kaki, 20), (State::Akubi, 8), (State::Sleep, 12)] {
        assert_eq!(tick_until(&mut neko, cursor, |n| n.state() == pose), ticks, "{pose:?}");
    }
}

#[test]
fn an_animal_that_is_not_sleepy_never_moves_on() {
    let config = Config {
        sleepiness: double(0.0),
        ..Config::default()
    };
    let mut neko = Neko::new(config, BOUNDS);
    let cursor = neko.position();
    for _ in 0..5000 {
        neko.tick(cursor);
    }
    assert_eq!(neko.state(), State::Stop);
}

#[test]
fn a_very_sleepy_animal_still_shows_every_pose() {
    let config = Config {
        sleepiness: double(f64::INFINITY),
        ..Config::default()
    };
    let mut neko = Neko::new(config, BOUNDS);
    let cursor = neko.position();
    for pose in [State::Jare, State::Kaki, State::Akubi, State::Sleep] {
        assert_eq!(tick_until(&mut neko, cursor, |n| n.state() == pose), 2, "{pose:?}");
    }
}

#[test]
fn sleepiness_can_be_changed_on_the_way() {
    let mut neko = neko();
    let cursor = neko.position();
    neko.tick(cursor);
    neko.tick(cursor);
    assert_eq!(neko.state(), State::Stop);
    neko.set_sleepiness(double(4.0));
    assert_eq!(tick_until(&mut neko, cursor, |n| n.state() == State::Jare), 1);
}

#[test]
fn a_step_is_no_longer_than_the_speed() {
    let speed = double(13.0);
    assert_eq!(step(speed, 0, 0), (0, 0));
    assert_eq!(step(speed, 5, -3), (5, -3));
    assert_eq!(step(speed, 100, 0), (13, 0));
    assert_eq!(step(speed, 0, -100), (0, -13));
    assert_eq!(step(speed, 300, 400), (7, 10));
    assert_eq!(step(speed, -100, 100), (-9, 9));
}

#[test]
fn a_step_closes_in_until_it_arrives() {
    let speed = double(13.0);
    let (mut x, mut y) = (0i64, 0i64);
    let target = (431i64, -207i64);
    let mut steps = 0;
    while (x, y) != target {
        let before = (target.0 - x).pow(2) + (target.1 - y).pow(2);
        let (dx, dy) = step(speed, target.0 - x, target.1 - y);
        x += i64::from(dx);
        y += i64::from(dy);
        let after = (target.0 - x).pow(2) + (target.1 - y).pow(2);
        assert!(after < before);
        steps += 1;
        assert!(steps < 100);
    }
}

#[test]
fn a_slow_animal_can_be_stuck_on_a_diagonal() {
    // Less than a whole pixel on either axis rounds down to no step at all.
    assert_eq!(step(double(1.0), 10, 10), (0, 0));
    assert_eq!(step(double(1.0), 10, 0), (1, 0));
}

#[test]
fn a_heading_is_the_closest_of_eight_directions() {
    assert_eq!(heading((0, 0)), None);
    assert_eq!(heading((0, -5)), Some(Direction::Up));
    assert_eq!(heading((2, -5)), Some(Direction::Up));
    assert_eq!(heading((3, -5)), Some(Direction::UpRight));
    assert_eq!(heading((5, 2)), Some(Direction::Right));
    assert_eq!(heading((-5, 3)), Some(Direction::DownLeft));
    assert_eq!(heading((-5, -1)), Some(Direction::Left));
    assert_eq!(heading((1, 9)), Some(Direction::Down));
}

#[test]
fn a_screen_too_small_for_the_sprite_pins_it_to_the_corner() {
    let mut neko = Neko::new(Config::default(), (10, 10));
    neko.set_bounds((10, 10));
    assert_eq!(neko.position(), (0, 0));
    for _ in 0..50 {
        neko.tick((500, 500));
    }
    assert_eq!(neko.position(), (0, 0));
}

#[test]
fn the_far_ends_of_the_coordinate_space_do_no_harm() {
    let mut neko = Neko::new(Config::default(), (i32::MAX, i32::MAX));
    for cursor in [(i32::MIN, i32::MIN), (i32::MAX, i32::MAX), (i32::MIN, i32::MAX)] {
        for _ in 0..20 {
            neko.tick(cursor);
        }
    }
    let (x, y) = neko.position();
    assert!(x >= 0 && y >= 0);
}

#[test]
fn a_hundred_ticks_are_enough() {
    for cursor in [(16, 32), (984, 32), (16, 800), (984, 800), (500, 409), (507, 416)] {
        let mut neko = neko();
        neko.tick(cursor);
        assert_eq!(neko.state(), State::Awake, "{cursor:?}");
        let ticks = 1 + tick_until(&mut neko, cursor, |n| n.state() == State::Stop);
        assert!(ticks <= 100, "{cursor:?} took {ticks}");
        assert_eq!(neko.position(), (cursor.0 - 16, cursor.1 - 32));
    }
}

#[test]
fn states_look_different_and_use_every_frame() {
    let directions = [Up, Down, Left, Right, UpLeft, UpRight, DownLeft, DownRight];
    let walls = [Wall::Up, Wall::Down, Wall::Left, Wall::Right];
    let mut states = vec![
        State::Stop,
        State::Jare,
        State::Kaki,
        State::Akubi,
        State::Sleep,
        State::Awake,
    ];
    states.extend(directions.into_iter().map(State::Move));
    states.extend(walls.into_iter().map(State::Scratch));
    let mut names = Vec::new();
    for (i, one) in states.iter().enumerate() {
        for other in &states[i + 1..] {
            assert_ne!(one.frames(), other.frames());
        }
        names.extend(one.frames());
    }
    names.sort_unstable();
    names.dedup();
    assert_eq!(names.len(), 32);
}

#[test]
fn clamping_says_whether_it_had_to() {
    // Born on a screen too small for it, it starts out beyond the corner.
    let mut neko = Neko::new(Config::default(), (10, 100));
    assert_eq!(neko.position(), (-11, 34));
    assert!(neko.clamp_into_bounds());
    assert_eq!(neko.position(), (0, 34));
    assert!(!neko.clamp_into_bounds());
    assert_eq!(neko.position(), (0, 34));
    assert_eq!(neko.state(), State::Stop);
}

fn timeout(sleepiness: f64, base: u32) -> u32 {
    let config = Config { sleepiness: double(sleepiness), ..Config::default() };
    Neko::new(config, BOUNDS).timeout(base)
}

#[test]
fn timeouts_are_divided_by_the_sleepiness() {
    assert_eq!(timeout(1.0, 10), 10);
    assert_eq!(timeout(4.0, 10), 3);
    assert_eq!(timeout(4.0, 1), 1);
    assert_eq!(timeout(0.5, 3), 6);
    assert_eq!(timeout(1.333_333_333_4, 6), 4);
    assert_eq!(timeout(1e-9, 10), u32::MAX);
}

#[test]
fn every_sleepiness_has_a_timeout() {
    for never in [0.0, -0.0, -1e-300, -1.0, f64::NEG_INFINITY] {
        assert_eq!(timeout(never, 3), u32::MAX, "{never}");
    }
    for at_once in [f64::NAN, f64::INFINITY, f64::MAX, 1e9] {
        assert_eq!(timeout(at_once, 3), 1, "{at_once}");
    }
    for hardly in [f64::MIN_POSITIVE, 5e-324, 1e-300] {
        assert_eq!(timeout(hardly, 3), u32::MAX, "{hardly}");
        assert_eq!(timeout(hardly, 0), 1, "{hardly}");
    }
}

#[test]
fn timeouts_are_what_a_division_gives() {
    for base in [1u32, 2, 3, 4, 6, 10, 12, 4000, 123_456_789, u32::MAX] {
        for top in 1..200u32 {
            for bottom in [1u32, 2, 3, 7, 10, 24, 1000, 1 << 20] {
                let sleepiness = f64::from(top) / f64::from(bottom);
                let wanted = (f64::from(base) / sleepiness).round().clamp(1.0, f64::from(u32::MAX));
                assert_eq!(count(base, double(sleepiness)), wanted as u32, "{base} / {sleepiness}");
            }
        }
    }
}

#[test]
fn whole_numbers_have_the_bits_they_should() {
    for value in [0, 1, -1, 2, 3, 13, -100, 0x7fff_fffe, i32::MAX, i32::MIN] {
        assert_eq!(Double::whole(value), double(f64::from(value)), "{value}");
    }
}

#[test]
fn numbers_come_apart_into_bits_and_exponent() {
    assert_eq!(double(1.0).parts(), (1 << 52, -52));
    assert_eq!(double(-1.5).parts(), (3 << 51, -52));
    assert_eq!(double(0.0).parts(), (0, -1074));
    assert_eq!(double(5e-324).parts(), (1, -1074));
    assert_eq!(double(f64::MAX).parts(), ((1 << 53) - 1, 971));
    assert!(double(-0.0).negative() && !double(0.0).negative());
    assert!(double(f64::NAN).nan() && !double(f64::INFINITY).nan());
}

#[test]
fn a_sleepier_animal_waits_no_longer() {
    let mut before = u32::MAX;
    for step in 1..2000u32 {
        let now = timeout(f64::from(step) * 0.01, 10);
        assert!(now <= before, "{step}");
        before = now;
    }
}

/// A step in plain floating-point arithmetic.
fn plain_step(speed: f64, dx: i32, dy: i32) -> (i32, i32) {
    let (x, y) = (f64::from(dx), f64::from(dy));
    let length = x.hypot(y);
    if length == 0.0 {
        (0, 0)
    } else if length <= speed {
        (dx, dy)
    } else {
        ((speed * x / length) as i32, (speed * y / length) as i32)
    }
}

#[test]
fn a_step_is_what_floating_point_arithmetic_gives() {
    let speeds = [
        0.3, 0.999_999_999_999, 1.0, 1.1, 1.414_213_562_373_095, 2.5, 5.0, 8.7, 13.0, 13.37, 52.0,
        1e3, 1e6 + 0.1, 1e17, 5e-324, -1.0, -8.7, -13.0, -1e9, -1e30, -5e-324, 0.0, -0.0,
        f64::INFINITY, f64::NEG_INFINITY, f64::NAN, f64::MAX, f64::MIN,
    ];
    for speed in speeds {
        for dx in (-150..150).step_by(3).chain([1920, -3840]) {
            for dy in (-150..150).step_by(7).chain([63, 84, 105, -1080, 2160]) {
                let (across, down) = (i64::from(dx), i64::from(dy));
                let wanted = plain_step(speed, dx, dy);
                assert_eq!(step(double(speed), across, down), wanted, "{speed} to {dx}, {dy}");
            }
        }
    }
    // Whole distances, where rounding alone decides.
    for k in 1..400 {
        for (dx, dy) in [(3 * k, 4 * k), (20 * k, 21 * k), (-5 * k, 12 * k), (8 * k, -15 * k), (0, k)] {
            for tenths in 1..150 {
                let speed = f64::from(tenths) * 0.1;
                let wanted = plain_step(speed, dx, dy);
                let (across, down) = (i64::from(dx), i64::from(dy));
                assert_eq!(step(double(speed), across, down), wanted, "{speed} to {dx}, {dy}");
            }
        }
    }
}

#[test]
fn lengths_are_the_nearest_numbers() {
    for (squared, length) in [(1u128, 1.0f64), (2, 2f64.sqrt()), (25, 5.0), (7569, 87.0), (1_000_003, 1_000_003f64.sqrt())] {
        let (bits, shift) = measure(squared);
        assert_eq!(bits as f64 / 2f64.powi(shift as i32), length, "{squared}");
    }
    let (bits, shift) = measure(1 << 66);
    assert_eq!(bits as f64 / 2f64.powi(shift as i32), 2f64.powi(33));
}

#[test]
fn a_step_in_fractions_of_a_pixel() {
    let step = |speed: f64, dx: i64, dy: i64| step(double(speed), dx, dy);
    assert_eq!(step(8.7, 100, 105), (5, 6));
    assert_eq!(step(8.7, 60, 63), (6, 6));
    assert_eq!(step(0.9, 3, 4), (0, 0));
    assert_eq!(step(0.9, 0, 0), (0, 0));
    assert_eq!(step(5.0, 3, 4), (3, 4));
    assert_eq!(step(4.5, 3, 4), (2, 3));
    // Backwards, at any distance.
    assert_eq!(step(-13.0, 300, 400), (-7, -10));
    assert_eq!(step(-13.0, 0, 1), (0, -13));
    assert_eq!(step(f64::NEG_INFINITY, 0, -1), (0, i32::MAX));
    assert_eq!(step(f64::INFINITY, -7, 9), (-7, 9));
    assert_eq!(step(f64::NAN, -7, 9), (0, 0));
    assert_eq!(step(-0.0, -7, 9), (0, 0));
}
