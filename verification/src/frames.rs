//! What the buffers of a screen hold, through everything that can happen to it:
//! the newest sprite alone, on a transparent ground.

use vstd::prelude::*;

use crate::overlay::{configured_at, fresh_screen, reported, scaled_to};
use crate::screen::{
    Placement, Rect, Screen, ScreenId, Side, Slot, a_frame_shows_the_sprite_alone, opposite,
    pixel_scale_of, places_sprite, repainted, transparent, transparent_outside,
};
use crate::sprite::{Palette, Sprite, painted};

verus! {

/// A screen and what its two buffers hold.
pub struct Shown {
    pub screen: Screen,
    pub first: Seq<u32>,
    pub second: Seq<u32>,
}

impl Shown {
    /// What the buffer on one side holds.
    pub open spec fn pixels(self, side: Side) -> Seq<u32> {
        match side {
            Side::First => self.first,
            Side::Second => self.second,
        }
    }

    /// The same with another screen and one buffer replaced.
    pub open spec fn with(self, screen: Screen, side: Side, pixels: Seq<u32>) -> Shown {
        match side {
            Side::First => Shown { screen, first: pixels, ..self },
            Side::Second => Shown { screen, second: pixels, ..self },
        }
    }

    /// Whether one buffer, if there is one, has the size that the screen asks for
    /// and is transparent but for where its slot says the sprite is.
    pub open spec fn side_is_tidy(self, side: Side) -> bool {
        let (width, height) = self.screen.device_size_of();
        self.screen.slots.at(side).allocated ==> {
            &&& self.pixels(side).len() == width * height
            &&& transparent_outside(
                self.pixels(side),
                width,
                self.screen.slots.at(side).last_drawn,
            )
        }
    }

    /// Whether both buffers are.
    pub open spec fn is_tidy(self) -> bool {
        self.side_is_tidy(Side::First) && self.side_is_tidy(Side::Second)
    }
}

/// A sprite to be drawn on a screen, and which buffers the compositor has released.
pub struct Drawing {
    pub sprite: Sprite,
    pub palette: Palette,
    /// The requested upscaling.
    pub scale: u32,
    /// Where, in the screen's own logical pixels.
    pub x: i32,
    pub y: i32,
    pub first_released: bool,
    pub second_released: bool,
}

impl Drawing {
    /// Where the sprite goes.
    pub open spec fn placement(self, screen: Screen) -> Placement {
        screen.placement_of(
            self.scale,
            self.sprite.width,
            self.sprite.height,
            self.x as int,
            self.y as int,
        )
    }

    /// The buffer it goes to: one that can be had, if there is anything to draw on
    /// and anything to redraw.
    pub open spec fn side(self, screen: Screen) -> Option<Side> {
        if screen.drawable() && screen.involved(self.placement(screen)) {
            screen.free_slot(self.first_released, self.second_released)
        } else {
            None
        }
    }
}

/// What can happen to a screen.
pub enum Step {
    /// It gets a fresh, transparent buffer.
    Allocate(Side),
    /// A sprite is to be drawn on it.
    Draw(Drawing),
    /// A buffer could not be attached and is gone.
    Lose(Side),
    /// The compositor says how big its surface is.
    Configure((u32, u32)),
    /// The compositor says which scale it prefers.
    Rescale(u32),
    /// A report says which outputs show a fullscreen window.
    Report(Seq<String>),
    /// Its output is moved in the layout.
    Move((i32, i32)),
}

/// Whether a step can be taken: a buffer has a size that a buffer can have, and a
/// sprite one that can be placed.
pub open spec fn is_possible(shown: Shown, step: Step) -> bool {
    match step {
        Step::Allocate(_) => shown.screen.device_size_of().0 >= 0 && shown.screen.device_size_of().1 >= 0,
        Step::Draw(drawing) => shown.screen.drawable() ==> shown.screen.has_room(
            drawing.scale,
            drawing.sprite.width,
            drawing.sprite.height,
        ),
        _ => true,
    }
}

/// The rectangles that go before drawing on a slot.
pub open spec fn stale_of(screen: Screen, side: Side) -> (Option<Rect>, Option<Rect>) {
    (screen.slots.at(side).last_drawn, screen.slots.at(opposite(side)).last_drawn)
}

/// A screen and its buffers after a step.
pub open spec fn stepped(shown: Shown, step: Step) -> Shown {
    let screen = shown.screen;
    let (width, height) = screen.device_size_of();
    match step {
        Step::Allocate(side) => shown.with(
            Screen {
                slots: screen.slots.with(side, Slot { allocated: true, last_drawn: None }),
                ..screen
            },
            side,
            transparent((width * height) as nat),
        ),
        Step::Draw(drawing) => match drawing.side(screen) {
            None => shown,
            Some(side) => shown.with(
                screen.drawn_on(side, drawing.placement(screen).target),
                side,
                repainted(
                    shown.pixels(side),
                    width,
                    stale_of(screen, side),
                    drawing.sprite,
                    drawing.placement(screen),
                    drawing.palette,
                ),
            ),
        },
        Step::Lose(side) => Shown {
            screen: Screen {
                slots: screen.slots.with(
                    side,
                    Slot { allocated: false, ..screen.slots.at(side) },
                ),
                ..screen
            },
            ..shown
        },
        Step::Configure(size) => Shown { screen: configured_at(screen, size), ..shown },
        Step::Rescale(scale_120) => Shown { screen: scaled_to(screen, scale_120), ..shown },
        Step::Report(names) => Shown { screen: reported(screen, names), ..shown },
        Step::Move(position) => Shown { screen: Screen { position, ..screen }, ..shown },
    }
}

/// A screen and its buffers after some steps.
pub open spec fn reached(shown: Shown, steps: Seq<Step>) -> Shown
    decreases steps.len(),
{
    if steps.len() == 0 {
        shown
    } else {
        stepped(reached(shown, steps.drop_last()), steps.last())
    }
}

/// Whether each of some steps can be taken when it is its turn.
pub open spec fn all_possible(shown: Shown, steps: Seq<Step>) -> bool
    decreases steps.len(),
{
    steps.len() > 0 ==> all_possible(shown, steps.drop_last()) && is_possible(
        reached(shown, steps.drop_last()),
        steps.last(),
    )
}

/// The place that a drawing gets is one of its sprite, in pixels of the screen's
/// buffers.
proof fn drawings_are_placed(screen: Screen, drawing: Drawing)
    requires
        screen.has_room(drawing.scale, drawing.sprite.width, drawing.sprite.height),
    ensures
        places_sprite(drawing.placement(screen), drawing.sprite),
{
    let pixel_scale = pixel_scale_of(drawing.scale as int, screen.scale_120 as int);
    let (width, height) = (drawing.sprite.width as int, drawing.sprite.height as int);
    assert(width * pixel_scale >= 0 && height * pixel_scale >= 0) by (nonlinear_arith)
        requires
            width >= 0,
            height >= 0,
            pixel_scale >= 1,
    ;
}

/// Painting on a tidy buffer leaves nothing on it but the sprite.
proof fn painting_is_tidy(shown: Shown, drawing: Drawing, side: Side)
    requires
        shown.is_tidy(),
        is_possible(shown, Step::Draw(drawing)),
        drawing.side(shown.screen) == Some(side),
    ensures
        ({
            let (width, height) = shown.screen.device_size_of();
            let placement = drawing.placement(shown.screen);
            let pixels = stepped(shown, Step::Draw(drawing)).pixels(side);
            &&& shown.screen.slots.at(side).allocated
            &&& pixels.len() == width * height
            &&& pixels == painted(
                drawing.sprite,
                drawing.palette,
                transparent((width * height) as nat),
                width,
                placement.target.x as int,
                placement.target.y as int,
                placement.pixel_scale as int,
            )
            &&& transparent_outside(pixels, width, Some(placement.target))
        }),
{
    let screen = shown.screen;
    drawings_are_placed(screen, drawing);
    assert(screen.slots.at(side).allocated);
    assert(shown.side_is_tidy(side));
    a_frame_shows_the_sprite_alone(
        shown.pixels(side),
        screen.device_size_of().0,
        stale_of(screen, side),
        drawing.sprite,
        drawing.placement(screen),
        drawing.palette,
    );
}

/// Nothing that can happen to a screen leaves a trace of an earlier frame in its
/// buffers, or a buffer of another size.
pub proof fn every_step_is_tidy(shown: Shown, step: Step)
    requires
        shown.is_tidy(),
        is_possible(shown, step),
    ensures
        stepped(shown, step).is_tidy(),
{
    let screen = shown.screen;
    let next = stepped(shown, step);
    let (width, height) = screen.device_size_of();
    match step {
        Step::Allocate(side) => {
            assert(width * height >= 0) by (nonlinear_arith)
                requires
                    width >= 0,
                    height >= 0,
            ;
            assert(next.side_is_tidy(side));
            assert(next.side_is_tidy(opposite(side)));
        },
        Step::Draw(drawing) => {
            if let Some(side) = drawing.side(screen) {
                painting_is_tidy(shown, drawing, side);
                assert(next.side_is_tidy(side));
                assert(next.side_is_tidy(opposite(side)));
            }
        },
        Step::Lose(side) => {
            assert(next.side_is_tidy(side));
            assert(next.side_is_tidy(opposite(side)));
        },
        _ => {},
    }
}

/// Whatever has happened to a screen, its buffers are tidy.
pub proof fn every_reachable_screen_is_tidy(shown: Shown, steps: Seq<Step>)
    requires
        shown.is_tidy(),
        all_possible(shown, steps),
    ensures
        reached(shown, steps).is_tidy(),
    decreases steps.len(),
{
    if steps.len() > 0 {
        every_reachable_screen_is_tidy(shown, steps.drop_last());
        every_step_is_tidy(reached(shown, steps.drop_last()), steps.last());
    }
}

/// Whatever has happened to a screen since it was made, a frame that is painted on
/// it is a transparent buffer of the screen's size with the sprite alone on it,
/// where the screen places it and as large. No pixel of an earlier frame is left.
pub proof fn every_frame_shows_the_sprite_alone(
    shown: Shown,
    id: ScreenId,
    output: u32,
    name: String,
    viewport: bool,
    position: Option<(i32, i32)>,
    steps: Seq<Step>,
    drawing: Drawing,
    side: Side,
)
    requires
        shown.screen == fresh_screen(id, output, name, viewport, position),
        all_possible(shown, steps.push(Step::Draw(drawing))),
        drawing.side(reached(shown, steps).screen) == Some(side),
    ensures
        ({
            let screen = reached(shown, steps).screen;
            let (width, height) = screen.device_size_of();
            let placement = drawing.placement(screen);
            reached(shown, steps.push(Step::Draw(drawing))).pixels(side) == painted(
                drawing.sprite,
                drawing.palette,
                transparent((width * height) as nat),
                width,
                placement.target.x as int,
                placement.target.y as int,
                placement.pixel_scale as int,
            )
        }),
{
    let all = steps.push(Step::Draw(drawing));
    assert(all.drop_last() =~= steps);
    every_reachable_screen_is_tidy(shown, steps);
    painting_is_tidy(reached(shown, steps), drawing, side);
}

} // verus!
