//! A cat that chases the cursor across a Wayland desktop: what it does, how it is
//! drawn and where, with the promises of each part stated and proved.

pub mod albums;
pub mod bytes;
pub mod canvas;
pub mod chase;
pub mod cli;
pub mod clock;
pub mod conduct;
pub mod contact;
pub mod cursor;
pub mod double;
pub mod frames;
pub mod habits;
pub mod layer;
pub mod length;
pub mod monitors;
pub mod neko;
pub mod overlay;
pub mod readings;
pub mod rounding;
pub mod rounds;
pub mod screen;
pub mod session;
pub mod sheet;
pub mod significant;
pub mod sprite;
pub mod state;
pub mod strokes;
pub mod surfaces;
pub mod text;
pub mod wide;
pub mod xbm;
