//! What the command line can say.

use vstd::prelude::*;

use crate::clock::nanos_of_second;
use crate::double::Double;
use crate::layer::{Layer, LayerArg, chosen_layer};
use crate::neko::Config;
use crate::overlay::OverlayConfig;
use crate::sheet::Animal;
use crate::sprite::Palette;
use crate::text::{NumberError, chars_of, number, number_fits, number_value, same};

verus! {

/// An animal as chosen on the command line.
#[derive(Debug, Clone, Copy, PartialEq, Eq, Structural)]
pub enum AnimalArg {
    Neko,
    Inu,
    Random,
}

impl AnimalArg {
    /// The animal that was chosen, with a number to decide between the two where
    /// the choice was left to chance.
    pub open spec fn resolved(self, nanos: u32) -> Animal {
        match self {
            AnimalArg::Neko => Animal::Neko,
            AnimalArg::Inu => Animal::Dog,
            AnimalArg::Random => if nanos % 2 == 0 {
                Animal::Neko
            } else {
                Animal::Dog
            },
        }
    }

    /// The animal that was chosen, with a number to decide between the two where
    /// the choice was left to chance.
    pub fn resolve_with(self, nanos: u32) -> (animal: Animal)
        ensures
            animal == self.resolved(nanos),
    {
        match self {
            AnimalArg::Neko => Animal::Neko,
            AnimalArg::Inu => Animal::Dog,
            AnimalArg::Random => if nanos % 2 == 0 {
                Animal::Neko
            } else {
                Animal::Dog
            },
        }
    }

    /// The animal that was chosen. Chance is the clock: not worth a random number
    /// generator.
    pub fn resolve(self) -> (animal: Animal)
        ensures
            exists|nanos: u32| nanos < 1_000_000_000 && animal == #[trigger] self.resolved(nanos),
    {
        let nanos: u32 = nanos_of_second();
        self.resolve_with(nanos)
    }
}

/// An ARGB8888 colour parsed from the command line.
#[derive(Debug, Clone, Copy, PartialEq, Eq, Structural)]
pub struct Colour(pub u32);

/// Why a text is not a colour.
#[derive(Debug, Clone, Copy, PartialEq, Eq, Structural)]
pub enum ColourError {
    /// It is neither a known name nor a hexadecimal number.
    NotANumber(NumberError),
    /// It has neither six nor eight digits.
    WrongLength,
}

impl ColourError {
    /// The reason in words.
    pub fn reason(self) -> (words: &'static str)
        ensures
            words@ == (match self {
                ColourError::NotANumber(NumberError::Empty) => "cannot parse integer from empty string"@,
                ColourError::NotANumber(NumberError::InvalidDigit) => "invalid digit found in string"@,
                ColourError::NotANumber(NumberError::TooLarge) =>
                    "number too large to fit in target type"@,
                ColourError::WrongLength => "want #rrggbb or #aarrggbb"@,
            }),
    {
        match self {
            ColourError::NotANumber(error) => error.reason(),
            ColourError::WrongLength => "want #rrggbb or #aarrggbb",
        }
    }
}

/// The colour that goes by a name.
pub open spec fn named_colour(text: Seq<char>) -> Option<u32> {
    if text == "black"@ {
        Some(0xff00_0000)
    } else if text == "white"@ {
        Some(0xffff_ffff)
    } else if text == "transparent"@ || text == "none"@ {
        Some(0)
    } else {
        None
    }
}

/// A colour's digits: the text without the `#` it may begin with.
pub open spec fn colour_digits(text: Seq<char>) -> Seq<char> {
    if text.len() > 0 && text.first() == '#' {
        text.drop_first()
    } else {
        text
    }
}

/// The colour that a text stands for. Bare rgb is taken as fully opaque; there is
/// no point in an invisible cat by accident.
pub open spec fn colour_of(text: Seq<char>) -> Result<Colour, ColourError> {
    match named_colour(text) {
        Some(colour) => Ok(Colour(colour)),
        None => {
            let digits = colour_digits(text);
            match number_value(digits, 16, u32::MAX as int) {
                Err(error) => Err(ColourError::NotANumber(error)),
                Ok(value) => if digits.len() == 6 {
                    Ok(Colour(0xff00_0000u32 | (value as u32)))
                } else if digits.len() == 8 {
                    Ok(Colour(value as u32))
                } else {
                    Err(ColourError::WrongLength)
                },
            }
        },
    }
}

impl Colour {
    /// Reads a colour: a name, or `#rrggbb` or `#aarrggbb` with or without the
    /// `#`.
    pub fn parse(text: &str) -> (colour: Result<Colour, ColourError>)
        ensures
            colour == colour_of(text@),
    {
        if same(text, "black") {
            return Ok(Colour(0xff00_0000));
        }
        if same(text, "white") {
            return Ok(Colour(0xffff_ffff));
        }
        if same(text, "transparent") || same(text, "none") {
            return Ok(Colour(0));
        }
        let chars: Vec<char> = chars_of(text);
        let from: usize = if chars.len() > 0 && chars[0] == '#' {
            1
        } else {
            0
        };
        let to: usize = chars.len();
        proof {
            assert(chars@.subrange(from as int, to as int) =~= colour_digits(text@));
            number_fits(colour_digits(text@), 16, u32::MAX as int);
        }
        match number(&chars, from, to, 16, u32::MAX) {
            Err(error) => Err(ColourError::NotANumber(error)),
            Ok(value) => if to - from == 6 {
                Ok(Colour(0xff00_0000u32 | value))
            } else if to - from == 8 {
                Ok(Colour(value))
            } else {
                Err(ColourError::WrongLength)
            },
        }
    }
}

impl std::str::FromStr for Colour {
    type Err = ColourError;

    fn from_str(s: &str) -> (colour: Result<Colour, ColourError>)
        ensures
            colour == colour_of(s@),
    {
        Colour::parse(s)
    }
}

/// A colour given by six digits is opaque.
pub proof fn bare_rgb_is_opaque(text: Seq<char>)
    requires
        named_colour(text) is None,
        colour_digits(text).len() == 6,
    ensures
        colour_of(text) matches Ok(colour) ==> colour.0 >> 24 == 0xff,
{
    if let Ok(value) = number_value(colour_digits(text), 16, u32::MAX as int) {
        let bits = value as u32;
        assert((0xff00_0000u32 | bits) >> 24 == 0xff) by (bit_vector);
    }
}

/// A colour given by eight digits is exactly the number they stand for, alpha and
/// all.
pub proof fn straight_alpha_is_preserved(text: Seq<char>, value: u32)
    requires
        named_colour(text) is None,
        colour_digits(text).len() == 8,
        number_value(colour_digits(text), 16, u32::MAX as int) == Ok::<int, NumberError>(value as int),
    ensures
        colour_of(text) == Ok::<Colour, ColourError>(Colour(value)),
{
}

/// What the command line says.
#[derive(Debug)]
pub struct Cli {
    /// Which animal to draw.
    pub animal: AnimalArg,
    /// Colour filling the animal's body.
    pub background: Colour,
    /// Colour of the animal's outline.
    pub outline: Colour,
    /// Which layer-shell layer to draw on.
    pub layer: LayerArg,
    /// The output to keep to, by name (e.g. DP-1). Without one the animal roams
    /// every monitor and can walk from one to the next.
    pub output: Option<String>,
    /// Stay on screens showing a fullscreen window, instead of stepping off them.
    pub over_fullscreen: bool,
    /// Integer upscaling. 32x32 is a speck on a 4K screen.
    pub scale: u32,
    /// Pixels travelled per tick.
    pub speed: Double,
    /// Multiplies the idle timers; above 1 the animal nods off sooner.
    pub sleepiness: Double,
    /// Sleepiness to use at night instead.
    pub sleepiness_night: Option<Double>,
    /// Nanoseconds without the cursor moving before the animal is put to sleep.
    pub idle_sleep: Option<u128>,
    /// Nanoseconds of seat idleness, as reported by the compositor, before the
    /// animal sleeps.
    pub idle_notify: Option<u128>,
    /// Don't claw at screen edges when the cursor is somewhere unreachable.
    pub no_wall_scratch: bool,
    /// Exit with an error when the compositor closes the surfaces.
    pub survive_close: bool,
    /// Ignore the cursor and let the animal idle where it stands.
    pub is_static: bool,
}

impl Cli {
    /// How the overlay should be set up.
    pub fn overlay_config(&self) -> (config: OverlayConfig)
        ensures
            config.layer == chosen_layer(self.layer),
            match (config.output, self.output) {
                (None, None) => true,
                (Some(name), Some(wanted)) => name@ == wanted@,
                _ => false,
            },
            config.scale == self.scale,
            config.palette == (Palette { background: self.background.0, outline: self.outline.0 }),
            config.idle_after == self.idle_notify,
    {
        OverlayConfig {
            layer: Layer::from(self.layer),
            output: match &self.output {
                None => None,
                Some(name) => Some(name.clone()),
            },
            scale: self.scale,
            palette: Palette { background: self.background.0, outline: self.outline.0 },
            idle_after: self.idle_notify,
        }
    }

    /// How the animal should behave.
    pub fn config(&self) -> (config: Config)
        ensures
            config.speed == self.speed,
            config.sleepiness == self.sleepiness,
            config.scratch_walls == !self.no_wall_scratch,
            config.idle_space == 6,
    {
        Config {
            speed: self.speed,
            sleepiness: self.sleepiness,
            scratch_walls: !self.no_wall_scratch,
            ..Config::default()
        }
    }
}

} // verus!
