//! The command line, the feeds and the main loop's decisions.

use nekors::cli::{AnimalArg, Cli, Colour, ColourError};
use nekors::clock::{
    is_night, is_night_at, is_night_hour, nanos_of_second, nanos_past_second, ClockError,
};
use nekors::contact::contact_sheet;
use nekors::cursor::{CursorFeed, CursorSource, FullscreenFeed, FullscreenSource, Sighting};
use nekors::double::Double;
use nekors::layer::{Layer, LayerArg};
use nekors::session::{brain_bounds, pause, Outcome, Picture, Scene, Session};
use nekors::sheet::Animal;
use nekors::sprite::Sprite;
use nekors::state::State;
use nekors::text::NumberError;

fn args() -> Cli {
    Cli {
        animal: AnimalArg::Neko,
        background: Colour(0xffff_ffff),
        outline: Colour(0xff00_0000),
        layer: LayerArg::Overlay,
        output: None,
        over_fullscreen: false,
        scale: 1,
        speed: Double::whole(13),
        sleepiness: Double::whole(1),
        sleepiness_night: None,
        idle_sleep: None,
        idle_notify: None,
        no_wall_scratch: false,
        survive_close: false,
        is_static: false,
    }
}

fn scene() -> Scene {
    Scene {
        closed: false,
        size: (1000, 800),
        origin: (0, 0),
        cursor: None,
        session_idle: false,
    }
}

fn picture(outcome: Outcome) -> Picture {
    match outcome {
        Outcome::Draw(picture) => picture,
        other => panic!("no picture: {other:?}"),
    }
}

#[test]
fn colour_parser_preserves_straight_alpha() {
    assert_eq!("#80804020".parse::<Colour>().unwrap().0, 0x8080_4020);
}

#[test]
fn colours_have_names_and_numbers() {
    assert_eq!("black".parse(), Ok(Colour(0xff00_0000)));
    assert_eq!("white".parse(), Ok(Colour(0xffff_ffff)));
    assert_eq!("transparent".parse(), Ok(Colour(0)));
    assert_eq!("none".parse(), Ok(Colour(0)));
    // Bare rgb is opaque, with or without the hash.
    assert_eq!("#102030".parse(), Ok(Colour(0xff10_2030)));
    assert_eq!("aBcDeF".parse(), Ok(Colour(0xffab_cdef)));
    assert_eq!("00102030".parse(), Ok(Colour(0x0010_2030)));
    assert_eq!("+12345".parse(), Ok(Colour(0xff01_2345)));
}

#[test]
fn what_is_wrong_with_a_colour() {
    let error = |text: &str| text.parse::<Colour>().err();
    assert_eq!(error("#"), Some(ColourError::NotANumber(NumberError::Empty)));
    assert_eq!(error("##102030"), Some(ColourError::NotANumber(NumberError::InvalidDigit)));
    assert_eq!(error("BLACK"), Some(ColourError::NotANumber(NumberError::InvalidDigit)));
    assert_eq!(error("1ffffffff"), Some(ColourError::NotANumber(NumberError::TooLarge)));
    assert_eq!(error("#123"), Some(ColourError::WrongLength));
    assert_eq!(error("000000001"), Some(ColourError::WrongLength));
    assert_eq!(ColourError::WrongLength.reason(), "want #rrggbb or #aarrggbb");
    assert_eq!(
        ColourError::NotANumber(NumberError::InvalidDigit).reason(),
        "invalid digit found in string",
    );
}

#[test]
fn animals_are_chosen_or_left_to_chance() {
    assert_eq!(AnimalArg::Neko.resolve(), Animal::Neko);
    assert_eq!(AnimalArg::Inu.resolve(), Animal::Dog);
    assert_eq!(AnimalArg::Random.resolve_with(4), Animal::Neko);
    assert_eq!(AnimalArg::Random.resolve_with(5), Animal::Dog);
    assert_eq!(AnimalArg::Inu.resolve_with(4), Animal::Dog);
    assert!(matches!(AnimalArg::Random.resolve(), Animal::Neko | Animal::Dog));
}

#[test]
fn the_clock_moves_within_its_second() {
    let mut seen = Vec::new();
    for _ in 0..10_000 {
        let nanos = nanos_of_second();
        assert!(nanos < 1_000_000_000);
        seen.push(nanos);
    }
    assert!(seen.iter().any(|nanos| *nanos != seen[0]));
}

#[test]
fn night_is_from_ten_to_six() {
    for hour in 0..24i8 {
        assert_eq!(is_night_hour(hour), hour < 6 || hour >= 22, "{hour}");
    }
    // Asked twice in a row around the same hour, the clock agrees with itself.
    let hour = jiff::Zoned::now().hour();
    let night = is_night().expect("a sane clock");
    if jiff::Zoned::now().hour() == hour {
        assert_eq!(night, is_night_hour(hour));
    }
}

#[test]
fn the_hour_of_a_moment_decides_whether_it_is_night() {
    for hour in 0..24i8 {
        let moment = jiff::civil::date(2024, 2, 29).at(hour, 30, 0, 0);
        let moment = moment.to_zoned(jiff::tz::TimeZone::UTC);
        assert_eq!(is_night_at(moment), Ok(hour < 6 || hour >= 22), "{hour}");
    }
    let nowhere = jiff::civil::date(2024, 2, 29).in_tz("No/Such_Place");
    assert_eq!(is_night_at(nowhere), Err(ClockError));
}

#[test]
fn a_clock_before_the_epoch_is_at_the_start_of_a_second() {
    assert_eq!(nanos_past_second(Ok(std::time::Duration::new(5, 7))), 7);
    assert_eq!(nanos_past_second(Ok(std::time::Duration::new(3, 999_999_999))), 999_999_999);
    let epoch = std::time::UNIX_EPOCH;
    let later = epoch + std::time::Duration::new(1, 250);
    assert_eq!(nanos_past_second(epoch.duration_since(later)), 0);
}

#[test]
fn the_command_line_sets_up_the_overlay_and_the_animal() {
    let args = Cli {
        output: Some("DP-1".to_owned()),
        layer: LayerArg::Bottom,
        scale: 3,
        idle_notify: Some(5),
        no_wall_scratch: true,
        background: Colour(1),
        outline: Colour(2),
        speed: Double::whole(20),
        ..args()
    };
    let overlay = args.overlay_config();
    assert_eq!(overlay.layer, Layer::Bottom);
    assert_eq!(overlay.output, Some("DP-1".to_owned()));
    assert_eq!(overlay.scale, 3);
    assert_eq!(overlay.idle_after, Some(5));
    assert_eq!((overlay.palette.background, overlay.palette.outline), (1, 2));
    let config = args.config();
    assert_eq!(config.speed, Double::whole(20));
    assert_eq!(config.sleepiness, Double::whole(1));
    assert_eq!(config.idle_space, 6);
    assert!(!config.scratch_walls);
}

#[test]
fn the_cursor_is_where_it_was_last_reported() {
    let mut feed = CursorFeed::new();
    assert_eq!(feed.last_position(100), None);
    feed.set_pos(3, -4, 100);
    assert_eq!(feed.last_position(150), Some(((3, -4), 50)));
    assert_eq!(feed.last_position(50), Some(((3, -4), 0)));
    feed.set_pos(5, 6, 200);
    let sighting = Sighting { feed, now: 207 };
    assert_eq!(CursorSource::last_position(&sighting), Some(((5, 6), 7)));
}

#[test]
fn fullscreen_outputs_come_as_a_list_with_commas() {
    let mut feed = FullscreenFeed::new();
    assert!(feed.fullscreen_outputs().is_empty());
    assert!(feed.set_fullscreen(" DP-1 ,, HDMI-A-1,\t"));
    assert_eq!(feed.fullscreen_outputs(), ["DP-1", "HDMI-A-1"]);
    assert!(!feed.set_fullscreen("DP-1,HDMI-A-1"));
    assert!(feed.set_fullscreen("HDMI-A-1,DP-1"));
    // An empty list gives the animal its screens back.
    assert!(feed.set_fullscreen(""));
    assert!(feed.fullscreen_outputs().is_empty());
    assert!(!feed.set_fullscreen(" , ,"));
}

#[test]
fn a_list_reads_as_written() {
    let names = ["DP-1", "HDMI-A-1", "e DP 2", "\u{e9}cran"];
    let mut feed = FullscreenFeed::new();
    feed.set_fullscreen(&names.join(","));
    assert_eq!(feed.fullscreen_outputs(), names);
}

#[test]
fn the_screen_is_shrunk_by_what_a_scaled_sprite_hangs_over() {
    assert_eq!(brain_bounds((1000, 800), 1), (1000, 800));
    assert_eq!(brain_bounds((1000, 800), 4), (904, 704));
    assert_eq!(brain_bounds((50, 20), 2), (32, 32));
    assert_eq!(brain_bounds((0, 0), 1), (32, 32));
    assert_eq!(brain_bounds((1000, 800), u32::MAX), (1000, 800));
    assert_eq!(brain_bounds((1000, 800), 0), (1032, 832));
    assert_eq!(brain_bounds((i32::MAX, i32::MIN), 0), (i32::MAX, 32));
}

#[test]
fn a_frame_takes_an_eighth_of_a_second() {
    assert_eq!(pause(0), Some(125_000_000));
    assert_eq!(pause(25_000_000), Some(100_000_000));
    assert_eq!(pause(125_000_000), Some(0));
    assert_eq!(pause(125_000_001), None);
}

#[test]
fn a_closed_surface_is_the_end() {
    let closed = Scene { closed: true, ..scene() };
    let mut session = Session::new(&args(), (1000, 800));
    assert!(matches!(session.frame(&args(), &closed), Ok(Outcome::Exit)));
    let stubborn = Cli { survive_close: true, ..args() };
    assert!(matches!(session.frame(&stubborn, &closed), Ok(Outcome::Fail)));
}

#[test]
fn silence_is_remarked_on_once() {
    let mut session = Session::new(&args(), (1000, 800));
    let first = picture(session.advance(&args(), &scene(), false));
    assert!(first.warn && first.hide);
    assert_eq!(first.position, (484, 384));
    // Its own paws are news to it the first time it looks at them.
    assert_eq!(first.frame, "awake");
    assert!(!picture(session.advance(&args(), &scene(), false)).warn);
    // Kept to itself, it does not listen in the first place.
    let quiet = Cli { is_static: true, over_fullscreen: true, ..args() };
    let mut session = Session::new(&quiet, (1000, 800));
    let first = picture(session.advance(&quiet, &scene(), false));
    assert!(!first.warn && !first.hide);
}

#[test]
fn left_alone_it_stays_where_it_is() {
    let quiet = Cli { is_static: true, ..args() };
    let seen = Scene { cursor: Some(((900, 700), 0)), ..scene() };
    let mut session = Session::new(&quiet, (1000, 800));
    for _ in 0..200 {
        assert_eq!(picture(session.advance(&quiet, &seen, false)).position, (484, 384));
    }
    assert_eq!(session.neko.state(), State::Sleep);
}

#[test]
fn a_static_animal_hears_of_no_cursor() {
    let quiet = Cli { is_static: true, idle_sleep: Some(5), ..args() };
    let mut told = Session::new(&quiet, (1000, 800));
    let mut untold = Session::new(&quiet, (1000, 800));
    for round in 0..100i32 {
        let cursor = Some(((round * 37 % 900, round * 91 % 700), round as u128));
        let night = round % 3 == 0;
        let seen = picture(told.advance(&quiet, &Scene { cursor, ..scene() }, night));
        let unseen = picture(untold.advance(&quiet, &scene(), night));
        assert_eq!(seen.position, (484, 384));
        assert_eq!((seen.position, seen.frame), (unseen.position, unseen.frame));
    }
}

#[test]
fn it_runs_to_the_cursor_in_the_layouts_own_coordinates() {
    let seen = Scene {
        origin: (-1920, 100),
        cursor: Some(((900 - 1920, 700 + 100), 0)),
        ..scene()
    };
    let mut session = Session::new(&args(), (1000, 800));
    for _ in 0..100 {
        session.advance(&args(), &seen, false);
    }
    assert_eq!(session.neko.position(), (900 - 16, 700 - 32));
}

#[test]
fn a_deserted_desk_sends_it_to_sleep() {
    let patient = Cli { idle_sleep: Some(100), ..args() };
    let mut session = Session::new(&patient, (1000, 800));
    let recent = Scene { cursor: Some(((500, 500), 99)), ..scene() };
    session.advance(&patient, &recent, false);
    assert_eq!(session.neko.state(), State::Awake);
    let old = Scene { cursor: Some(((500, 500), 100)), ..scene() };
    session.advance(&patient, &old, false);
    assert_eq!(session.neko.state(), State::Sleep);
    let idle = Scene { session_idle: true, ..scene() };
    let mut session = Session::new(&args(), (1000, 800));
    assert_eq!(picture(session.advance(&args(), &idle, false)).frame, "sleep1");
}

#[test]
fn a_quiet_session_ends_in_sleep() {
    for cursor in [None, Some(((900, 700), 0)), Some(((-50, 9000), 0))] {
        let quiet = Scene { cursor, ..scene() };
        let mut session = Session::new(&args(), (1000, 800));
        session.advance(&args(), &Scene { cursor: Some(((10, 10), 0)), ..scene() }, false);
        for _ in 0..400 {
            session.advance(&args(), &quiet, false);
        }
        assert_eq!(session.neko.state(), State::Sleep, "{cursor:?}");
    }
}

#[test]
fn sleepiness_follows_the_clock() {
    let owl = Cli { sleepiness_night: Some(Double::whole(4)), ..args() };
    let mut session = Session::new(&owl, (1000, 800));
    assert_eq!(picture(session.advance(&owl, &scene(), false)).sleepiness, None);
    assert_eq!(picture(session.advance(&owl, &scene(), true)).sleepiness, Some(Double::whole(4)));
    assert_eq!(picture(session.advance(&owl, &scene(), true)).sleepiness, None);
    assert_eq!(picture(session.advance(&owl, &scene(), false)).sleepiness, Some(Double::whole(1)));
    assert!(!session.night_now);
    // Without a value for the night there is nothing to switch to.
    assert_eq!(picture(session.advance(&args(), &scene(), true)).sleepiness, None);
    assert!(matches!(session.frame(&owl, &scene()), Ok(Outcome::Draw(_))));
}

fn at_hour(hour: i8) -> Result<jiff::Zoned, jiff::Error> {
    let moment = jiff::civil::date(2024, 2, 29).at(hour, 59, 59, 0);
    moment.to_zoned(jiff::tz::TimeZone::UTC)
}

#[test]
fn a_frame_takes_the_sleepiness_of_its_moment() {
    let owl = Cli { sleepiness_night: Some(Double::whole(4)), ..args() };
    let mut session = Session::new(&owl, (1000, 800));
    let mut sleepiness = |args: &Cli, scene: &Scene, moment: Result<jiff::Zoned, jiff::Error>| {
        picture(session.frame_at(args, scene, moment).expect("a local time")).sleepiness
    };
    assert_eq!(sleepiness(&owl, &scene(), at_hour(21)), None);
    assert_eq!(sleepiness(&owl, &scene(), at_hour(22)), Some(Double::whole(4)));
    assert_eq!(sleepiness(&owl, &scene(), at_hour(5)), None);
    assert_eq!(sleepiness(&owl, &scene(), at_hour(6)), Some(Double::whole(1)));
    // Without a value for the night, any moment will do.
    assert_eq!(sleepiness(&args(), &scene(), at_hour(23)), None);
    let nowhere = jiff::civil::date(2024, 2, 29).in_tz("No/Such_Place");
    assert_eq!(sleepiness(&args(), &scene(), nowhere), None);
}

#[test]
fn a_moment_without_a_local_time_is_an_error_only_where_it_matters() {
    let nowhere = || jiff::civil::date(2024, 2, 29).in_tz("No/Such_Place");
    let owl = Cli { sleepiness_night: Some(Double::whole(4)), ..args() };
    let mut session = Session::new(&owl, (1000, 800));
    assert!(matches!(session.frame_at(&owl, &scene(), nowhere()), Err(ClockError)));
    assert_eq!((session.neko.position(), session.night_now), ((484, 384), false));
    let gone = Scene { closed: true, ..scene() };
    assert!(session.frame_at(&owl, &gone, nowhere()).is_ok());
}

#[test]
fn a_scaled_animal_is_drawn_within_the_layout() {
    let large = Cli { scale: 4, ..args() };
    let seen = Scene { cursor: Some(((5000, 5000), 0)), ..scene() };
    let mut session = Session::new(&large, (1000, 800));
    for _ in 0..200 {
        let (x, y) = picture(session.advance(&large, &seen, false)).position;
        assert!(x >= 0 && x + 128 <= 1000 && y >= 0 && y + 128 <= 800);
    }
}

#[test]
fn a_contact_sheet_is_a_picture_of_every_frame() {
    let sprite = |name: &str| Sprite {
        name: name.to_owned(),
        width: 8,
        height: 1,
        bits: vec![0b01],
        mask: vec![0b11],
    };
    let sheet: Vec<Sprite> = (0..9).map(|i| sprite(&format!("frame{i}"))).collect();
    let ppm = contact_sheet(&sheet);
    let header = b"P6\n1024 256\n255\n";
    assert_eq!(ppm[..header.len()], header[..]);
    assert_eq!(ppm.len(), header.len() + 3 * 1024 * 256);
    let pixel = |x: usize, y: usize| {
        let at = header.len() + 3 * (y * 1024 + x);
        [ppm[at], ppm[at + 1], ppm[at + 2]]
    };
    for (x, y) in [(0, 0), (7 * 128, 0), (0, 128)] {
        assert_eq!(pixel(x, y), [0, 0, 0]);
        assert_eq!(pixel(x + 3, y + 3), [0, 0, 0]);
        assert_eq!(pixel(x + 4, y), [255, 255, 255]);
        assert_eq!(pixel(x + 8, y), [128, 128, 128]);
        assert_eq!(pixel(x, y + 4), [128, 128, 128]);
    }
    assert_eq!(pixel(128, 128), [128, 128, 128]);
    assert_eq!(contact_sheet(&[]), b"P6\n1024 0\n255\n");
}
