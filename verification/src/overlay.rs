//! The overlay: one click-through surface per output, kept in one coordinate
//! system.
//!
//! Cursor positions arrive in the compositor's global coordinate space, which
//! spans every monitor. So the overlay keeps one surface per output, learns each
//! output's place in that space, and works in the bounding box of the whole
//! layout, with the origin at its top-left. A sprite lying across a monitor edge
//! is drawn on both surfaces, each clipping its own half, so the animal walks
//! from screen to screen instead of stopping at the seam.

use vstd::prelude::*;

use crate::rounding::{saturate, saturated};
use crate::layer::Layer;
use crate::screen::{Placement, SCALE_DENOMINATOR, Screen, ScreenId, Side, Slots, empty_slots};
use crate::sprite::{Palette, Sprite};
use crate::text::same;

verus! {

/// How the overlay should be set up.
#[derive(Debug)]
pub struct OverlayConfig {
    /// Which layer-shell layer to sit on. `Overlay` puts the animal above
    /// everything including fullscreen windows.
    pub layer: Layer,
    /// The output to confine the animal to, by name (e.g. `"DP-1"`). `None` spans
    /// every output, so it can cross from monitor to monitor.
    pub output: Option<String>,
    /// Integer upscaling of the 32x32 sprite.
    pub scale: u32,
    pub palette: Palette,
    /// How long the seat must be idle, in nanoseconds, before
    /// [`Overlay::session_idle`] turns true. `None` does not ask.
    pub idle_after: Option<u128>,
}

impl Default for OverlayConfig {
    fn default() -> (config: OverlayConfig)
        ensures
            config.layer == Layer::Overlay,
            config.output is None,
            config.scale == 1,
            config.palette.background == 0xffff_ffff,
            config.palette.outline == 0xff00_0000,
            config.idle_after is None,
    {
        OverlayConfig {
            layer: Layer::Overlay,
            output: None,
            scale: 1,
            palette: Palette::default(),
            idle_after: None,
        }
    }
}

/// What the idle notification is asked for: milliseconds, as many as fit.
pub fn idle_timeout(after: u128) -> (millis: u32)
    ensures
        millis == (if after / 1_000_000 > u32::MAX { u32::MAX as int } else { (after / 1_000_000) as int }),
        1_000_000 * millis <= after,
        millis < u32::MAX ==> after < 1_000_000 * (millis + 1),
{
    let millis: u128 = after / 1_000_000;
    if millis > u32::MAX as u128 {
        u32::MAX
    } else {
        millis as u32
    }
}

/// A box in the compositor's global logical pixels, by its four edges.
pub struct Extent {
    pub left: int,
    pub top: int,
    pub right: int,
    pub bottom: int,
}

/// Whether it is known how much of the layout a screen takes up.
pub open spec fn is_placed(screen: Screen) -> bool {
    screen.area is Some
}

/// The box that a placed screen takes up.
pub open spec fn extent_of(screen: Screen) -> Extent {
    let (width, height) = screen.area->0;
    Extent {
        left: screen.position.0 as int,
        top: screen.position.1 as int,
        right: screen.position.0 + width,
        bottom: screen.position.1 + height,
    }
}

/// The smaller of two numbers.
pub open spec fn lower(a: int, b: int) -> int {
    if a < b {
        a
    } else {
        b
    }
}

/// The larger of two numbers.
pub open spec fn upper(a: int, b: int) -> int {
    if a > b {
        a
    } else {
        b
    }
}

/// The bounding box of all placed screens, if there are any.
pub open spec fn layout(screens: Seq<Screen>) -> Option<Extent>
    decreases screens.len(),
{
    if screens.len() == 0 {
        None
    } else {
        let before = layout(screens.drop_last());
        let own = extent_of(screens.last());
        if !is_placed(screens.last()) {
            before
        } else {
            match before {
                None => Some(own),
                Some(others) => Some(
                    Extent {
                        left: lower(others.left, own.left),
                        top: lower(others.top, own.top),
                        right: upper(others.right, own.right),
                        bottom: upper(others.bottom, own.bottom),
                    },
                ),
            }
        }
    }
}

/// The bounding box of the layout, or an empty one at the origin while no screen
/// is placed.
pub open spec fn bounds_of(screens: Seq<Screen>) -> Extent {
    match layout(screens) {
        None => Extent { left: 0, top: 0, right: 0, bottom: 0 },
        Some(extent) => extent,
    }
}

/// The layout is the tightest box around the placed screens: it contains
/// each of them, and each of its edges is an edge of one of them.
pub proof fn the_layout_is_the_bounding_box(screens: Seq<Screen>)
    ensures
        layout(screens) is None <==> forall|i: int|
            0 <= i < screens.len() ==> !is_placed(#[trigger] screens[i]),
        layout(screens) matches Some(extent) ==> {
            &&& forall|i: int|
                0 <= i < screens.len() && is_placed(#[trigger] screens[i]) ==> {
                    let own = extent_of(screens[i]);
                    &&& extent.left <= own.left
                    &&& extent.top <= own.top
                    &&& own.right <= extent.right
                    &&& own.bottom <= extent.bottom
                }
            &&& exists|i: int|
                0 <= i < screens.len() && is_placed(#[trigger] screens[i]) && extent_of(screens[i]).left
                    == extent.left
            &&& exists|i: int|
                0 <= i < screens.len() && is_placed(#[trigger] screens[i]) && extent_of(screens[i]).top
                    == extent.top
            &&& exists|i: int|
                0 <= i < screens.len() && is_placed(#[trigger] screens[i]) && extent_of(screens[i]).right
                    == extent.right
            &&& exists|i: int|
                0 <= i < screens.len() && is_placed(#[trigger] screens[i]) && extent_of(
                    screens[i],
                ).bottom == extent.bottom
        },
    decreases screens.len(),
{
    if screens.len() > 0 {
        let before = screens.drop_last();
        let last = screens.len() - 1;
        the_layout_is_the_bounding_box(before);
        assert(forall|i: int| 0 <= i < before.len() ==> #[trigger] before[i] == screens[i]);
        assert(screens[last] == screens.last());
        assert forall|i: int| 0 <= i < screens.len() && i != last implies #[trigger] screens[i]
            == before[i] by {}
        if layout(before) is Some {
            let others = layout(before)->0;
            let a = choose|i: int|
                0 <= i < before.len() && is_placed(#[trigger] before[i]) && extent_of(before[i]).left
                    == others.left;
            let b = choose|i: int|
                0 <= i < before.len() && is_placed(#[trigger] before[i]) && extent_of(before[i]).top
                    == others.top;
            let c = choose|i: int|
                0 <= i < before.len() && is_placed(#[trigger] before[i]) && extent_of(before[i]).right
                    == others.right;
            let d = choose|i: int|
                0 <= i < before.len() && is_placed(#[trigger] before[i]) && extent_of(before[i]).bottom
                    == others.bottom;
            assert(screens[a] == before[a] && screens[b] == before[b] && screens[c] == before[c]
                && screens[d] == before[d]);
        }
    }
}

/// Where the first screen with an id is.
pub open spec fn place_of(screens: Seq<Screen>, id: ScreenId) -> Option<int>
    decreases screens.len(),
{
    if screens.len() == 0 {
        None
    } else {
        match place_of(screens.drop_last(), id) {
            Some(i) => Some(i),
            None => if screens.last().id == id {
                Some(screens.len() - 1)
            } else {
                None
            },
        }
    }
}

/// Where the first screen of an output is.
pub open spec fn place_of_output(screens: Seq<Screen>, output: u32) -> Option<int>
    decreases screens.len(),
{
    if screens.len() == 0 {
        None
    } else {
        match place_of_output(screens.drop_last(), output) {
            Some(i) => Some(i),
            None => if screens.last().output == output {
                Some(screens.len() - 1)
            } else {
                None
            },
        }
    }
}

/// Whether a name is among `names`.
pub open spec fn is_named(names: Seq<String>, name: Seq<char>) -> bool {
    exists|i: int| 0 <= i < names.len() && (#[trigger] names[i])@ == name
}

/// A screen after a report of which outputs show a fullscreen window: taken off
/// if its name is new on the list, put back if it is no longer on it.
pub open spec fn reported(screen: Screen, names: Seq<String>) -> Screen {
    let hidden = is_named(names, screen.name@);
    if hidden == screen.hidden {
        screen
    } else if hidden {
        Screen { hidden: true, ..screen }.unmapped()
    } else {
        Screen { hidden: false, ..screen }.rebuilt()
    }
}

/// The ids of the screens that a report takes off (`hidden`) or puts back, in
/// their order.
pub open spec fn changed(screens: Seq<Screen>, names: Seq<String>, hidden: bool) -> Seq<ScreenId>
    decreases screens.len(),
{
    if screens.len() == 0 {
        Seq::empty()
    } else {
        let before = changed(screens.drop_last(), names, hidden);
        let screen = screens.last();
        if screen.hidden != hidden && is_named(names, screen.name@) == hidden {
            before.push(screen.id)
        } else {
            before
        }
    }
}

/// Why the overlay cannot start.
#[derive(Debug, Clone, Copy, PartialEq, Eq, Structural)]
pub enum StartError {
    /// The output it was to be confined to does not exist.
    NoSuchOutput,
    /// There are no outputs at all.
    NoOutputs,
}

/// The surfaces that a report of fullscreen outputs takes off and puts back.
#[derive(Debug)]
pub struct Changes {
    pub hidden: Vec<ScreenId>,
    pub shown: Vec<ScreenId>,
}

/// Whether screens have ids below a limit and no two of them share an id or an
/// output.
pub open spec fn distinct(screens: Seq<Screen>, limit: u32) -> bool {
    &&& forall|i: int| 0 <= i < screens.len() ==> (#[trigger] screens[i]).id.0 < limit
    &&& forall|i: int, j: int|
        0 <= i < j < screens.len() ==> {
            &&& (#[trigger] screens[i]).id != (#[trigger] screens[j]).id
            &&& screens[i].output != screens[j].output
        }
}

/// What took a screen away: its output was unplugged, or its surface closed.
#[derive(Debug, Clone, Copy, PartialEq, Eq, Structural)]
pub enum Gone {
    Output(u32),
    Surface(ScreenId),
}

impl Gone {
    /// Whether a screen goes with it.
    pub open spec fn takes(self, screen: Screen) -> bool {
        match self {
            Gone::Output(output) => screen.output == output,
            Gone::Surface(id) => screen.id == id,
        }
    }

    fn covers(self, screen: &Screen) -> (covers: bool)
        ensures
            covers == self.takes(*screen),
    {
        match self {
            Gone::Output(output) => screen.output == output,
            Gone::Surface(id) => screen.id == id,
        }
    }
}

/// What an output is called: by its name, if the compositor told it.
pub open spec fn label_of(name: Option<String>) -> Seq<char> {
    match name {
        Some(name) => name@,
        None => "?"@,
    }
}

/// Where an output is: where the compositor put it, which for one without a
/// reported place is the origin.
pub open spec fn place_in_layout(position: Option<(i32, i32)>) -> (i32, i32) {
    match position {
        Some(position) => position,
        None => (0, 0),
    }
}

/// The screens after one output was moved.
pub open spec fn with_output_at(
    screens: Seq<Screen>,
    output: u32,
    position: Option<(i32, i32)>,
) -> Seq<Screen> {
    match place_of_output(screens, output) {
        None => screens,
        Some(i) => screens.update(
            i,
            Screen { position: place_in_layout(position), ..screens[i] },
        ),
    }
}

/// A fresh screen for an output.
pub open spec fn fresh_screen(
    id: ScreenId,
    output: u32,
    name: String,
    viewport: bool,
    position: Option<(i32, i32)>,
) -> Screen {
    Screen {
        id,
        output,
        name,
        viewport,
        scale_120: SCALE_DENOMINATOR,
        position: place_in_layout(position),
        size: (0, 0),
        area: None,
        slots: empty_slots(),
        next_slot: Side::First,
        configured: false,
        hidden: false,
    }
}

/// A size as the compositor reports it, kept within `i32`.
pub open spec fn surface_size(size: (u32, u32)) -> (int, int) {
    (saturated(size.0 as int), saturated(size.1 as int))
}

/// A screen after the compositor has said how big its surface is. Buffers of
/// another size are the wrong size now.
pub open spec fn configured_at(screen: Screen, size: (u32, u32)) -> Screen {
    let new = (surface_size(size).0 as i32, surface_size(size).1 as i32);
    if new == screen.size {
        Screen { area: Some(new), configured: true, ..screen }
    } else {
        Screen { size: new, area: Some(new), slots: empty_slots(), configured: true, ..screen }
    }
}

/// A screen after the compositor has said which scale it prefers.
pub open spec fn scaled_to(screen: Screen, scale_120: u32) -> Screen {
    if scale_120 == screen.scale_120 {
        screen
    } else {
        Screen { scale_120, slots: empty_slots(), ..screen }
    }
}

/// Click-through surfaces covering every monitor, with one sprite drawn across
/// them.
#[derive(Debug)]
pub struct Overlay {
    pub config: OverlayConfig,
    /// Whether the compositor can scale a buffer down, so that surfaces get a
    /// viewport.
    pub viewporter: bool,
    pub screens: Vec<Screen>,
    pub next_id: u32,
    pub session_idle: bool,
    pub closed: bool,
}

impl Overlay {
    /// Whether the animal belongs on an output of this name.
    pub open spec fn wants(self, name: Option<String>) -> bool {
        match self.config.output {
            None => true,
            Some(wanted) => name matches Some(name) && name@ == wanted@,
        }
    }

    /// Whether every screen has an id and an output of its own, all ids are smaller
    /// than the next one, and the seat only counts as idle if that was asked for.
    pub open spec fn well_formed(self) -> bool {
        &&& distinct(self.screens@, self.next_id)
        &&& self.session_idle ==> self.config.idle_after is Some
    }

    /// An overlay without any screens yet.
    pub fn new(config: OverlayConfig, viewporter: bool) -> (overlay: Overlay)
        ensures
            overlay.well_formed(),
            overlay.config == config,
            overlay.viewporter == viewporter,
            overlay.screens@.len() == 0,
            overlay.next_id == 0,
            !overlay.session_idle,
            !overlay.closed,
    {
        Overlay {
            config,
            viewporter,
            screens: Vec::new(),
            next_id: 0,
            session_idle: false,
            closed: false,
        }
    }

    /// The bounding box of every output that has been configured, in global
    /// logical pixels: `(x, y, width, height)`. An output that is hidden for a
    /// while keeps its place in it.
    ///
    /// A layout with a hole in it - two monitors of different heights, say -
    /// leaves the animal able to walk into space no output covers, where it is
    /// simply not drawn. That beats the alternative of it being unable to cross
    /// at all.
    pub fn bounds(&self) -> (bounds: (i32, i32, i32, i32))
        ensures
            ({
                let extent = bounds_of(self.screens@);
                &&& bounds.0 == extent.left
                &&& bounds.1 == extent.top
                &&& bounds.2 == saturated(extent.right - extent.left)
                &&& bounds.3 == saturated(extent.bottom - extent.top)
            }),
    {
        let mut bounds: Option<(i32, i32, i64, i64)> = None;
        let mut i: usize = 0;
        assert(self.screens@.take(0) =~= Seq::empty());
        while i < self.screens.len()
            invariant
                i <= self.screens@.len(),
                match (bounds, layout(self.screens@.take(i as int))) {
                    (None, None) => true,
                    (Some((x, y, r, b)), Some(extent)) => {
                        &&& x == extent.left
                        &&& y == extent.top
                        &&& r == extent.right
                        &&& b == extent.bottom
                        &&& -0x1_0000_0000 <= r <= 0x1_0000_0000
                        &&& -0x1_0000_0000 <= b <= 0x1_0000_0000
                    },
                    _ => false,
                },
            decreases self.screens@.len() - i,
        {
            let screen: &Screen = &self.screens[i];
            assert(self.screens@.take(i + 1).drop_last() =~= self.screens@.take(i as int));
            assert(self.screens@.take(i + 1).last() == self.screens@[i as int]);
            if let Some(area) = screen.area {
                let (left, top): (i32, i32) = screen.position;
                let right: i64 = left as i64 + area.0 as i64;
                let bottom: i64 = top as i64 + area.1 as i64;
                bounds = match bounds {
                    None => Some((left, top, right, bottom)),
                    Some((x, y, r, b)) => Some(
                        (
                            if x < left {
                                x
                            } else {
                                left
                            },
                            if y < top {
                                y
                            } else {
                                top
                            },
                            if r > right {
                                r
                            } else {
                                right
                            },
                            if b > bottom {
                                b
                            } else {
                                bottom
                            },
                        ),
                    ),
                };
            }
            i = i + 1;
        }
        assert(self.screens@.take(i as int) =~= self.screens@);
        match bounds {
            None => (0, 0, 0, 0),
            Some((x, y, r, b)) => (x, y, saturate(r - x as i64), saturate(b - y as i64)),
        }
    }

    /// The top-left of the monitor layout in the compositor's global logical
    /// coordinates - the space cursor positions arrive in.
    ///
    /// Subtract it from a global cursor position to get a coordinate in the space
    /// [`Overlay::size`] and [`Overlay::draw`] work in.
    #[must_use]
    pub fn origin(&self) -> (origin: (i32, i32))
        ensures
            origin.0 == bounds_of(self.screens@).left,
            origin.1 == bounds_of(self.screens@).top,
    {
        let (x, y, _, _): (i32, i32, i32, i32) = self.bounds();
        (x, y)
    }

    /// The size of the whole monitor layout in logical pixels, which is the
    /// coordinate space the animal lives in.
    #[must_use]
    pub fn size(&self) -> (size: (i32, i32))
        ensures
            ({
                let extent = bounds_of(self.screens@);
                &&& size.0 == saturated(extent.right - extent.left)
                &&& size.1 == saturated(extent.bottom - extent.top)
            }),
    {
        let (_, _, width, height): (i32, i32, i32, i32) = self.bounds();
        (width, height)
    }

    /// True once the compositor has taken every surface away.
    #[must_use]
    pub fn closed(&self) -> (closed: bool)
        ensures
            closed == self.closed,
    {
        self.closed
    }

    /// True while the seat has been idle for longer than asked for. Always false
    /// when nothing was asked for, or when the compositor cannot tell.
    #[must_use]
    pub fn session_idle(&self) -> (idle: bool)
        ensures
            idle == self.session_idle,
    {
        self.session_idle
    }

    /// How many outputs the animal is currently spread across.
    #[must_use]
    pub fn screen_count(&self) -> (count: usize)
        ensures
            count == self.screens@.len(),
    {
        self.screens.len()
    }

    /// Whether any surface can be drawn on yet.
    pub fn any_configured(&self) -> (any: bool)
        ensures
            any == exists|i: int| 0 <= i < self.screens@.len() && (#[trigger] self.screens@[i]).configured,
    {
        let mut i: usize = 0;
        while i < self.screens.len()
            invariant
                i <= self.screens@.len(),
                forall|j: int| 0 <= j < i ==> !(#[trigger] self.screens@[j]).configured,
            decreases self.screens@.len() - i,
        {
            if self.screens[i].configured {
                return true;
            }
            i = i + 1;
        }
        false
    }

    /// Whether to wait some more before drawing: a surface is not usable until the
    /// compositor has told how big it is. One is enough to start; the others join
    /// as they are configured.
    pub fn waiting(&self) -> (waiting: bool)
        ensures
            waiting == (!self.closed && forall|i: int|
                0 <= i < self.screens@.len() ==> !(#[trigger] self.screens@[i]).configured),
    {
        !self.any_configured() && !self.closed
    }

    /// Whether the overlay has no screen to start on, and why.
    pub fn start_error(&self) -> (error: Option<StartError>)
        ensures
            error == (if self.screens@.len() > 0 {
                None
            } else if self.config.output is Some {
                Some(StartError::NoSuchOutput)
            } else {
                Some(StartError::NoOutputs)
            }),
    {
        if self.screens.len() > 0 {
            return None;
        }
        match &self.config.output {
            Some(_) => Some(StartError::NoSuchOutput),
            None => Some(StartError::NoOutputs),
        }
    }

    /// Whether the animal belongs on an output of this name.
    pub fn wanted(&self, name: &Option<String>) -> (wanted: bool)
        ensures
            wanted == self.wants(*name),
    {
        match &self.config.output {
            None => true,
            Some(wanted) => match name {
                None => false,
                Some(name) => *name == *wanted,
            },
        }
    }

    /// Finds the first screen with an id.
    pub fn find(&self, id: ScreenId) -> (place: Option<usize>)
        ensures
            match place {
                Some(i) => place_of(self.screens@, id) == Some(i as int) && i < self.screens@.len(),
                None => place_of(self.screens@, id) is None,
            },
    {
        let mut i: usize = 0;
        assert(self.screens@.take(0) =~= Seq::empty());
        while i < self.screens.len()
            invariant
                i <= self.screens@.len(),
                place_of(self.screens@.take(i as int), id) is None,
            decreases self.screens@.len() - i,
        {
            assert(self.screens@.take(i + 1).drop_last() =~= self.screens@.take(i as int));
            assert(self.screens@.take(i + 1).last() == self.screens@[i as int]);
            if self.screens[i].id == id {
                proof {
                    place_stays(self.screens@, id, i + 1);
                }
                return Some(i);
            }
            i = i + 1;
        }
        assert(self.screens@.take(i as int) =~= self.screens@);
        None
    }

    /// Finds the first screen of an output.
    pub fn find_output(&self, output: u32) -> (place: Option<usize>)
        ensures
            match place {
                Some(i) => place_of_output(self.screens@, output) == Some(i as int) && i
                    < self.screens@.len(),
                None => place_of_output(self.screens@, output) is None,
            },
    {
        let mut i: usize = 0;
        assert(self.screens@.take(0) =~= Seq::empty());
        while i < self.screens.len()
            invariant
                i <= self.screens@.len(),
                place_of_output(self.screens@.take(i as int), output) is None,
            decreases self.screens@.len() - i,
        {
            assert(self.screens@.take(i + 1).drop_last() =~= self.screens@.take(i as int));
            assert(self.screens@.take(i + 1).last() == self.screens@[i as int]);
            if self.screens[i].output == output {
                proof {
                    place_of_output_stays(self.screens@, output, i + 1);
                }
                return Some(i);
            }
            i = i + 1;
        }
        assert(self.screens@.take(i as int) =~= self.screens@);
        None
    }

    /// Whether an output gets a screen of its own.
    pub open spec fn takes_on(self, output: u32, name: Option<String>) -> bool {
        self.wants(name) && place_of_output(self.screens@, output) is None
    }

    /// Whether this overlay turns into `after` when an output is announced: by a
    /// screen of its own, if it is wanted and has none yet, else not at all.
    pub open spec fn gains(
        self,
        after: Overlay,
        output: u32,
        name: Option<String>,
        position: Option<(i32, i32)>,
    ) -> bool {
        if self.takes_on(output, name) {
            &&& after == (Overlay {
                screens: after.screens,
                next_id: (self.next_id + 1) as u32,
                ..self
            })
            &&& exists|label: String|
                label@ == label_of(name) && #[trigger] self.screens@.push(
                    fresh_screen(ScreenId(self.next_id), output, label, self.viewporter, position),
                ) == after.screens@
        } else {
            after == self
        }
    }

    /// Tells whether an output would get a screen of its own.
    pub fn would_take_on(&self, output: u32, name: &Option<String>) -> (yes: bool)
        ensures
            yes == self.takes_on(output, *name),
    {
        self.wanted(name) && self.find_output(output).is_none()
    }

    /// Makes a screen for an output, unless the configuration rules it out or it
    /// already has one. The id is the one to build a surface under.
    pub fn add_screen(
        &mut self,
        output: u32,
        name: Option<String>,
        position: Option<(i32, i32)>,
    ) -> (id: Option<ScreenId>)
        requires
            old(self).takes_on(output, name) ==> old(self).next_id < u32::MAX,
        ensures
            old(self).gains(*final(self), output, name, position),
            old(self).well_formed() ==> final(self).well_formed(),
            id == (if old(self).takes_on(output, name) {
                Some(ScreenId(old(self).next_id))
            } else {
                None
            }),
    {
        if !self.would_take_on(output, &name) {
            return None;
        }
        let ghost before = self.screens@;
        let ghost placed = position;
        let id: ScreenId = ScreenId(self.next_id);
        self.next_id = self.next_id + 1;
        let name: String = match name {
            Some(name) => name,
            None => "?".to_owned(),
        };
        let position: (i32, i32) = match position {
            Some(position) => position,
            None => (0, 0),
        };
        self.screens.push(
            Screen {
                id,
                output,
                name,
                viewport: self.viewporter,
                scale_120: SCALE_DENOMINATOR,
                position,
                size: (0, 0),
                area: None,
                slots: Slots::empty(),
                next_slot: Side::First,
                configured: false,
                hidden: false,
            },
        );
        proof {
            assert(self.screens@ == before.push(
                fresh_screen(id, output, name, self.viewporter, placed),
            ));
            assert forall|i: int| 0 <= i < before.len() implies (#[trigger] before[i]).output != output by {
                absent_output(before, output, i);
            }
        }
        Some(id)
    }

    /// Takes in that an output changed. Monitors get rearranged - a laptop docked
    /// to the left of an external screen one day and to the right the next - so
    /// the layout is re-read rather than trusted from startup. An output whose
    /// name only turned up now may be the one the animal is confined to, and one
    /// that was disabled at startup comes back this way too.
    pub fn update_output(
        &mut self,
        output: u32,
        name: Option<String>,
        position: Option<(i32, i32)>,
    ) -> (id: Option<ScreenId>)
        requires
            old(self).takes_on(output, name) ==> old(self).next_id < u32::MAX,
        ensures
            old(self).takes_on(output, name) ==> old(self).gains(*final(self), output, name, position),
            !old(self).takes_on(output, name) ==> {
                &&& *final(self) == (Overlay { screens: final(self).screens, ..*old(self) })
                &&& final(self).screens@ == with_output_at(old(self).screens@, output, position)
            },
            old(self).well_formed() ==> final(self).well_formed(),
            id == (if old(self).takes_on(output, name) {
                Some(ScreenId(old(self).next_id))
            } else {
                None
            }),
    {
        let position_now: (i32, i32) = match position {
            Some(position) => position,
            None => (0, 0),
        };
        let id: Option<ScreenId> = self.add_screen(output, name, position);
        if id.is_none() {
            if let Some(i) = self.find_output(output) {
                self.screens[i].position = position_now;
            }
        }
        id
    }

    /// Lets go of a screen whose output went away or whose surface was closed.
    /// One monitor going away is not the end: the animal keeps to the others.
    /// Only losing the last surface leaves nothing to do.
    pub fn remove(&mut self, gone: Gone)
        ensures
            *final(self) == (Overlay {
                screens: final(self).screens,
                closed: final(self).closed,
                ..*old(self)
            }),
            final(self).screens@ == old(self).screens@.filter(|screen: Screen| !gone.takes(screen)),
            final(self).closed == (old(self).closed || final(self).screens@.len() == 0),
            old(self).well_formed() ==> final(self).well_formed(),
    {
        let ghost keep = |screen: Screen| !gone.takes(screen);
        let ghost before = self.screens@;
        let mut i: usize = 0;
        let ghost mut seen: int = 0;
        proof {
            reveal(Seq::filter);
            assert(before.skip(0) =~= before);
            assert(self.screens@.take(0) =~= before.take(0).filter(keep));
        }
        while i < self.screens.len()
            invariant
                keep == (|screen: Screen| !gone.takes(screen)),
                0 <= seen <= before.len(),
                i <= self.screens@.len(),
                self.screens@.take(i as int) == before.take(seen).filter(keep),
                self.screens@.skip(i as int) == before.skip(seen),
                *self == (Overlay { screens: self.screens, ..*old(self) }),
            decreases self.screens@.len() - i,
        {
            let ghost now = self.screens@;
            proof {
                reveal(Seq::filter);
                assert(now.skip(i as int).len() == before.skip(seen).len());
                assert(now.skip(i as int)[0] == now[i as int]);
                assert(before.skip(seen)[0] == before[seen]);
                assert(before.take(seen + 1).drop_last() =~= before.take(seen));
                assert(before.skip(seen + 1) =~= before.skip(seen).drop_first());
            }
            if gone.covers(&self.screens[i]) {
                self.screens.remove(i);
                proof {
                    assert(self.screens@.take(i as int) =~= now.take(i as int));
                    assert(self.screens@.skip(i as int) =~= now.skip(i as int).drop_first());
                }
            } else {
                proof {
                    assert(now.take(i + 1) =~= now.take(i as int).push(now[i as int]));
                    assert(now.skip(i + 1) =~= now.skip(i as int).drop_first());
                }
                i = i + 1;
            }
            proof {
                seen = seen + 1;
            }
        }
        proof {
            assert(self.screens@.skip(i as int).len() == before.skip(seen).len());
            assert(before.take(seen) =~= before);
            assert(self.screens@.take(i as int) =~= self.screens@);
            if old(self).well_formed() {
                fewer_are_distinct(before, self.next_id, keep);
            }
        }
        if self.screens.len() == 0 {
            self.closed = true;
        }
    }

    /// Takes in what size the compositor gave a surface. The result is where the
    /// screen's viewport now has to scale to, if that is news.
    pub fn configure(&mut self, id: ScreenId, new_size: (u32, u32)) -> (destination: Option<(i32, i32)>)
        ensures
            *final(self) == (Overlay { screens: final(self).screens, ..*old(self) }),
            old(self).well_formed() ==> final(self).well_formed(),
            match place_of(old(self).screens@, id) {
                None => destination is None && final(self).screens@ == old(self).screens@,
                Some(i) => {
                    let (before, now) = (
                        old(self).screens@[i],
                        configured_at(old(self).screens@[i], new_size),
                    );
                    &&& final(self).screens@ == old(self).screens@.update(i, now)
                    &&& destination == (if now.size != before.size && now.viewport && now.size.0 > 0
                        && now.size.1 > 0 {
                        Some(now.size)
                    } else {
                        None
                    })
                },
            },
    {
        let size: (i32, i32) = (saturate(new_size.0 as i64), saturate(new_size.1 as i64));
        match self.find(id) {
            None => None,
            Some(i) => {
                let mut destination: Option<(i32, i32)> = None;
                if size.0 != self.screens[i].size.0 || size.1 != self.screens[i].size.1 {
                    self.screens[i].size = size;
                    // The old buffers are the wrong size now.
                    self.screens[i].slots = Slots::empty();
                    destination = self.screens[i].destination();
                }
                self.screens[i].area = Some(size);
                self.screens[i].configured = true;
                destination
            },
        }
    }

    /// Takes in which scale the compositor prefers for a surface, in 120ths. The
    /// result is where the screen's viewport now has to scale to, if that is
    /// news.
    pub fn prefer_scale(&mut self, id: ScreenId, scale_120: u32) -> (destination: Option<(i32, i32)>)
        ensures
            *final(self) == (Overlay { screens: final(self).screens, ..*old(self) }),
            old(self).well_formed() ==> final(self).well_formed(),
            match place_of(old(self).screens@, id) {
                None => destination is None && final(self).screens@ == old(self).screens@,
                Some(i) => {
                    let (before, now) = (
                        old(self).screens@[i],
                        scaled_to(old(self).screens@[i], scale_120),
                    );
                    &&& final(self).screens@ == old(self).screens@.update(i, now)
                    &&& destination == (if now.scale_120 != before.scale_120 && now.viewport
                        && now.size.0 > 0 && now.size.1 > 0 {
                        Some(now.size)
                    } else {
                        None
                    })
                },
            },
    {
        match self.find(id) {
            None => None,
            Some(i) => {
                if scale_120 == self.screens[i].scale_120 {
                    return None;
                }
                self.screens[i].scale_120 = scale_120;
                // The buffers are sized in device pixels, so they are the wrong
                // size now.
                self.screens[i].slots = Slots::empty();
                self.screens[i].destination()
            },
        }
    }

    /// Takes in whether the seat is idle, if that was asked for.
    pub fn set_session_idle(&mut self, idle: bool)
        ensures
            *final(self) == (Overlay {
                session_idle: idle && old(self).config.idle_after is Some,
                ..*old(self)
            }),
            old(self).well_formed() ==> final(self).well_formed(),
    {
        self.session_idle = idle && self.config.idle_after.is_some();
    }

    /// Takes the animal off the outputs named in `names` and puts it back on
    /// every other one. The result says which surfaces to unmap and which to
    /// build anew.
    ///
    /// Meant for outputs showing a fullscreen window. Nothing here can tell that
    /// by itself, so the caller supplies the names; unknown ones are ignored,
    /// which is what makes a stale report from a monitor that has since been
    /// unplugged harmless.
    pub fn hide_outputs(&mut self, names: &[String]) -> (changes: Changes)
        ensures
            *final(self) == (Overlay { screens: final(self).screens, ..*old(self) }),
            final(self).screens@.len() == old(self).screens@.len(),
            forall|i: int|
                0 <= i < final(self).screens@.len() ==> #[trigger] final(self).screens@[i] == reported(
                    old(self).screens@[i],
                    names@,
                ),
            changes.hidden@ == changed(old(self).screens@, names@, true),
            changes.shown@ == changed(old(self).screens@, names@, false),
            bounds_of(final(self).screens@) == bounds_of(old(self).screens@),
            old(self).well_formed() ==> final(self).well_formed(),
    {
        let mut hidden: Vec<ScreenId> = Vec::new();
        let mut shown: Vec<ScreenId> = Vec::new();
        let mut i: usize = 0;
        let ghost before = self.screens@;
        assert(before.take(0) =~= Seq::empty());
        while i < self.screens.len()
            invariant
                i <= self.screens@.len(),
                before == old(self).screens@,
                self.config == old(self).config,
                self.viewporter == old(self).viewporter,
                self.next_id == old(self).next_id,
                self.session_idle == old(self).session_idle,
                self.closed == old(self).closed,
                self.screens@.len() == before.len(),
                forall|j: int|
                    0 <= j < i ==> #[trigger] self.screens@[j] == reported(before[j], names@),
                forall|j: int| i <= j < before.len() ==> #[trigger] self.screens@[j] == before[j],
                hidden@ == changed(before.take(i as int), names@, true),
                shown@ == changed(before.take(i as int), names@, false),
            decreases self.screens@.len() - i,
        {
            assert(before.take(i + 1).drop_last() =~= before.take(i as int));
            assert(before.take(i + 1).last() == before[i as int]);
            let covered: bool = Overlay::is_listed(names, self.screens[i].name.as_str());
            if covered != self.screens[i].hidden {
                let id: ScreenId = self.screens[i].id;
                self.screens[i].hidden = covered;
                if covered {
                    self.screens[i].unmap();
                    hidden.push(id);
                } else {
                    self.screens[i].rebuild();
                    shown.push(id);
                }
            }
            i = i + 1;
        }
        proof {
            assert(before.take(i as int) =~= before);
            same_layout(before, self.screens@);
        }
        Changes { hidden, shown }
    }

    /// Whether a name is on a list.
    fn is_listed(names: &[String], name: &str) -> (listed: bool)
        ensures
            listed == is_named(names@, name@),
    {
        let mut i: usize = 0;
        while i < names.len()
            invariant
                i <= names@.len(),
                forall|j: int| 0 <= j < i ==> (#[trigger] names@[j])@ != name@,
            decreases names@.len() - i,
        {
            if same(names[i].as_str(), name) {
                return true;
            }
            i = i + 1;
        }
        false
    }

    /// Where a sprite at `(x, y)` of the layout goes on one of its screens, in
    /// that screen's own logical pixels.
    pub open spec fn local(self, index: int, x: int, y: int) -> (int, int) {
        let extent = bounds_of(self.screens@);
        let screen = self.screens@[index];
        (
            saturated(extent.left + x - screen.position.0),
            saturated(extent.top + y - screen.position.1),
        )
    }

    /// Works out where `sprite`, with its top-left at `(x, y)` in logical pixels
    /// relative to [`Overlay::origin`], goes on each screen. A screen that cannot
    /// be drawn on gets no placement.
    pub fn draw(&self, sprite: &Sprite, x: i32, y: i32) -> (placements: Vec<Option<Placement>>)
        requires
            forall|i: int|
                0 <= i < self.screens@.len() && (#[trigger] self.screens@[i]).drawable()
                    ==> self.screens@[i].has_room(self.config.scale, sprite.width, sprite.height),
        ensures
            placements@.len() == self.screens@.len(),
            forall|i: int|
                0 <= i < placements@.len() ==> #[trigger] placements@[i] == (
                if self.screens@[i].drawable() {
                    Some(
                        self.screens@[i].placement_of(
                            self.config.scale,
                            sprite.width,
                            sprite.height,
                            self.local(i, x as int, y as int).0,
                            self.local(i, x as int, y as int).1,
                        ),
                    )
                } else {
                    None
                }),
    {
        let (origin_x, origin_y): (i32, i32) = self.origin();
        // Out of the layout-wide space the animal lives in and into the
        // compositor's, which is where the outputs are placed.
        let global_x: i64 = origin_x as i64 + x as i64;
        let global_y: i64 = origin_y as i64 + y as i64;
        let mut placements: Vec<Option<Placement>> = Vec::new();
        let mut i: usize = 0;
        while i < self.screens.len()
            invariant
                i <= self.screens@.len(),
                global_x == bounds_of(self.screens@).left + x,
                global_y == bounds_of(self.screens@).top + y,
                -0x1_0000_0000 <= global_x <= 0x1_0000_0000,
                -0x1_0000_0000 <= global_y <= 0x1_0000_0000,
                forall|i: int|
                    0 <= i < self.screens@.len() && (#[trigger] self.screens@[i]).drawable()
                        ==> self.screens@[i].has_room(self.config.scale, sprite.width, sprite.height),
                placements@.len() == i,
                forall|j: int|
                    0 <= j < i ==> #[trigger] placements@[j] == (if self.screens@[j].drawable() {
                        Some(
                            self.screens@[j].placement_of(
                                self.config.scale,
                                sprite.width,
                                sprite.height,
                                self.local(j, x as int, y as int).0,
                                self.local(j, x as int, y as int).1,
                            ),
                        )
                    } else {
                        None
                    }),
            decreases self.screens@.len() - i,
        {
            let screen: &Screen = &self.screens[i];
            let local_x: i32 = saturate(global_x - screen.position.0 as i64);
            let local_y: i32 = saturate(global_y - screen.position.1 as i64);
            let placement: Option<Placement> = screen.place(
                self.config.scale,
                sprite.width,
                sprite.height,
                local_x,
                local_y,
            );
            placements.push(placement);
            i = i + 1;
        }
        placements
    }

    /// Whether a sprite of a certain size can be placed on every screen that can
    /// be drawn on.
    pub fn sprite_fits(&self, width: u32, height: u32) -> (fits: bool)
        ensures
            fits == forall|i: int|
                0 <= i < self.screens@.len() && (#[trigger] self.screens@[i]).drawable()
                    ==> self.screens@[i].has_room(self.config.scale, width, height),
    {
        let mut i: usize = 0;
        while i < self.screens.len()
            invariant
                i <= self.screens@.len(),
                forall|j: int|
                    0 <= j < i && (#[trigger] self.screens@[j]).drawable()
                        ==> self.screens@[j].has_room(self.config.scale, width, height),
            decreases self.screens@.len() - i,
        {
            let screen: &Screen = &self.screens[i];
            let drawable: bool = !screen.hidden && screen.configured && screen.size.0 > 0 && screen.size.1
                > 0;
            if drawable && !screen.sprite_fits(self.config.scale, width, height) {
                assert(self.screens@[i as int].drawable());
                return false;
            }
            i = i + 1;
        }
        true
    }
}

/// The layout depends on nothing but where the screens are and how much room they
/// take up.
proof fn same_layout(a: Seq<Screen>, b: Seq<Screen>)
    requires
        a.len() == b.len(),
        forall|i: int|
            0 <= i < a.len() ==> (#[trigger] a[i]).position == b[i].position && a[i].area == b[i].area,
    ensures
        layout(a) == layout(b),
    decreases a.len(),
{
    if a.len() > 0 {
        assert forall|i: int| 0 <= i < a.len() - 1 implies (#[trigger] a.drop_last()[i]).position
            == b.drop_last()[i].position && a.drop_last()[i].area == b.drop_last()[i].area by {
            assert(a[i].position == b[i].position);
        }
        same_layout(a.drop_last(), b.drop_last());
        assert(a[a.len() - 1].position == b[b.len() - 1].position);
    }
}

/// Screens that are distinct stay so when some of them go.
proof fn fewer_are_distinct(screens: Seq<Screen>, limit: u32, keep: spec_fn(Screen) -> bool)
    requires
        distinct(screens, limit),
    ensures
        distinct(screens.filter(keep), limit),
        forall|i: int|
            0 <= i < screens.filter(keep).len() ==> screens.contains(#[trigger] screens.filter(keep)[i]),
    decreases screens.len(),
{
    reveal(Seq::filter);
    if screens.len() > 0 {
        let rest = screens.drop_last();
        let kept = rest.filter(keep);
        assert(forall|i: int| 0 <= i < rest.len() ==> #[trigger] rest[i] == screens[i]);
        fewer_are_distinct(rest, limit, keep);
        assert forall|i: int| 0 <= i < kept.len() implies (#[trigger] kept[i]).id != screens.last().id
            && kept[i].output != screens.last().output && screens.contains(kept[i]) by {
            let j = choose|j: int| 0 <= j < rest.len() && rest[j] == kept[i];
            assert(screens[j] == kept[i]);
        }
        assert(screens.contains(screens.last()));
    }
}

/// An output that was not found is none of the screens'.
proof fn absent_output(screens: Seq<Screen>, output: u32, i: int)
    requires
        place_of_output(screens, output) is None,
        0 <= i < screens.len(),
    ensures
        screens[i].output != output,
    decreases screens.len(),
{
    if i < screens.len() - 1 {
        absent_output(screens.drop_last(), output, i);
    }
}

/// The first screen with an id stays the first, whatever comes after it.
proof fn place_stays(screens: Seq<Screen>, id: ScreenId, n: int)
    requires
        0 <= n <= screens.len(),
        place_of(screens.take(n), id) is Some,
    ensures
        place_of(screens, id) == place_of(screens.take(n), id),
    decreases screens.len() - n,
{
    if n == screens.len() {
        assert(screens.take(n) =~= screens);
    } else {
        assert(screens.take(n + 1).drop_last() =~= screens.take(n));
        place_stays(screens, id, n + 1);
    }
}

/// The first screen of an output stays the first, whatever comes after it.
proof fn place_of_output_stays(screens: Seq<Screen>, output: u32, n: int)
    requires
        0 <= n <= screens.len(),
        place_of_output(screens.take(n), output) is Some,
    ensures
        place_of_output(screens, output) == place_of_output(screens.take(n), output),
    decreases screens.len() - n,
{
    if n == screens.len() {
        assert(screens.take(n) =~= screens);
    } else {
        assert(screens.take(n + 1).drop_last() =~= screens.take(n));
        place_of_output_stays(screens, output, n + 1);
    }
}

} // verus!
