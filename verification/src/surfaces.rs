//! What holds of surfaces, buffers and the layout, told in the fields of the screens
//! themselves.

use vstd::prelude::*;

use crate::overlay::{
    Gone, Overlay, bounds_of, changed, configured_at, fresh_screen, is_named, layout, place_of,
    place_of_output, reported, scaled_to, the_layout_is_the_bounding_box, with_output_at,
};
use crate::screen::{
    Placement, Rect, Screen, ScreenId, Side, Slot, Slots, buffers_are_large_enough,
    coordinates_are_closest, opposite,
};

verus! {

/// A screen can be drawn on exactly if it is shown, configured and not empty.
pub proof fn what_can_be_drawn_on(screen: Screen)
    ensures
        screen.drawable() <==> screen.configured && !screen.hidden && screen.size.0 >= 1
            && screen.size.1 >= 1,
{
}

/// A coordinate in a buffer with a viewport is that of the nearest device pixel.
proof fn nearest_device_pixel(value: int, scale_120: int)
    requires
        i32::MIN <= value <= i32::MAX,
        0 <= scale_120 <= u32::MAX,
        120 * i32::MIN <= value * scale_120 <= 120 * i32::MAX,
    ensures
        -60 <= 120 * crate::screen::device_coordinate(value, scale_120) - value * scale_120 <= 60,
{
    let size = crate::rounding::magnitude(value);
    assert(size * scale_120 == value * scale_120 || size * scale_120 == -(value * scale_120))
        by (nonlinear_arith)
        requires
            size == value || size == -value,
    ;
    coordinates_are_closest(value, scale_120);
}

/// Where a sprite goes on a screen. Its pixels are squares of the nearest whole number
/// of device pixels to the requested scale times the screen's, but at least one. It is
/// as wide and as high as that makes it, and its corner is on the nearest device pixel
/// of a buffer that is scaled, and on the very pixel of one that is not.
pub proof fn a_sprite_is_placed_to_scale(
    screen: Screen,
    scale: u32,
    width: u32,
    height: u32,
    x: i32,
    y: i32,
)
    requires
        screen.has_room(scale, width, height),
        scale * screen.scale_120 <= 120 * i32::MAX,
        120 * i32::MIN <= x * screen.scale_120 <= 120 * i32::MAX,
        120 * i32::MIN <= y * screen.scale_120 <= 120 * i32::MAX,
    ensures
        ({
            let placement = screen.placement_of(scale, width, height, x as int, y as int);
            let (target, pixel) = (placement.target, placement.pixel_scale as int);
            let factor = screen.scale_120 as int;
            &&& pixel >= 1
            &&& scale * factor - 120 * pixel <= 60
            &&& pixel == 1 || 120 * pixel - scale * factor <= 60
            &&& target.width == width * pixel
            &&& target.height == height * pixel
            &&& screen.viewport ==> -60 <= 120 * target.x - x * factor <= 60
            &&& screen.viewport ==> -60 <= 120 * target.y - y * factor <= 60
            &&& !screen.viewport ==> target.x == x && target.y == y
            &&& (placement.device_size.0 as int, placement.device_size.1 as int)
                == screen.device_size_of()
        }),
{
    nearest_device_pixel(x as int, screen.scale_120 as int);
    nearest_device_pixel(y as int, screen.scale_120 as int);
    let product = scale * screen.scale_120;
    assert(product >= 0) by (nonlinear_arith)
        requires
            product == scale * screen.scale_120,
            scale >= 0,
            screen.scale_120 >= 0,
    ;
    coordinates_are_closest(scale as int, screen.scale_120 as int);
    let pixel = crate::screen::pixel_scale_of(scale as int, screen.scale_120 as int);
    assert(width * pixel >= 0 && height * pixel >= 0) by (nonlinear_arith)
        requires
            pixel >= 1,
            width >= 0,
            height >= 0,
    ;
}

/// A buffer has as many pixels as its surface, along each axis, or with a viewport as
/// many as the scale makes of them, rounded up.
pub proof fn a_buffer_is_to_scale(screen: Screen)
    requires
        screen.size.0 >= 0,
        screen.size.1 >= 0,
        screen.size.0 * screen.scale_120 <= 120 * i32::MAX,
        screen.size.1 * screen.scale_120 <= 120 * i32::MAX,
    ensures
        ({
            let (width, height) = screen.device_size_of();
            let (w, h) = (screen.size.0 * screen.scale_120, screen.size.1 * screen.scale_120);
            &&& screen.viewport ==> w <= 120 * width <= w + 120
            &&& screen.viewport ==> h <= 120 * height <= h + 120
            &&& !screen.viewport ==> width == screen.size.0 && height == screen.size.1
        }),
{
    buffers_are_large_enough(screen.size.0 as int, screen.scale_120 as int);
    buffers_are_large_enough(screen.size.1 as int, screen.scale_120 as int);
}

/// A frame goes on the buffer that is due if that is free, on the other one if only
/// that is, and nowhere if neither is. A buffer is free if there is one and the
/// compositor has let go of it.
pub proof fn a_free_buffer_is_picked(screen: Screen, first_released: bool, second_released: bool)
    ensures
        ({
            let first = screen.slots.first.allocated && first_released;
            let second = screen.slots.second.allocated && second_released;
            let picked = screen.free_slot(first_released, second_released);
            &&& picked is None <==> !first && !second
            &&& picked == Some(Side::First) ==> first
            &&& picked == Some(Side::Second) ==> second
            &&& first && second && screen.next_slot == Side::First ==> picked == Some(Side::First)
            &&& first && second && screen.next_slot == Side::Second ==> picked == Some(Side::Second)
        }),
{
}

/// Drawing on a buffer is remembered with that buffer and no other, and the other one
/// is due next. Nothing else about the screen changes.
pub proof fn drawing_is_remembered(screen: Screen, target: Rect)
    ensures
        ({
            let first = screen.drawn_on(Side::First, target);
            &&& first.slots.first.last_drawn == Some(target)
            &&& first.slots.first.allocated == screen.slots.first.allocated
            &&& first.slots.second == screen.slots.second
            &&& first.next_slot == Side::Second
            &&& first == (Screen { slots: first.slots, next_slot: first.next_slot, ..screen })
        }),
        ({
            let second = screen.drawn_on(Side::Second, target);
            &&& second.slots.second.last_drawn == Some(target)
            &&& second.slots.second.allocated == screen.slots.second.allocated
            &&& second.slots.first == screen.slots.first
            &&& second.next_slot == Side::First
            &&& second == (Screen { slots: second.slots, next_slot: second.next_slot, ..screen })
        }),
{
}

/// A frame has something to do on a screen if a pixel of the sprite is going to be
/// there, or if one of the two buffers still has a pixel of it there.
pub proof fn a_pixel_on_the_screen_is_work(screen: Screen, placement: Placement, x: int, y: int)
    requires
        0 <= x < placement.device_size.0,
        0 <= y < placement.device_size.1,
        ({
            let here = placement.target;
            let first = screen.slots.first.last_drawn;
            let second = screen.slots.second.last_drawn;
            ||| here.x <= x < here.x + here.width && here.y <= y < here.y + here.height
            ||| first matches Some(r) && r.x <= x < r.x + r.width && r.y <= y < r.y + r.height
            ||| second matches Some(r) && r.x <= x < r.x + r.width && r.y <= y < r.y + r.height
        }),
    ensures
        screen.involved(placement),
{
}

/// A sprite that is nowhere near a screen and was on neither of its buffers leaves it
/// alone.
pub proof fn a_screen_far_away_is_left_alone(screen: Screen, placement: Placement)
    requires
        ({
            let (w, h) = (placement.device_size.0 as int, placement.device_size.1 as int);
            let t = placement.target;
            t.x >= w || t.y >= h || t.x + t.width <= 0 || t.y + t.height <= 0
        }),
        screen.slots.first.last_drawn is None,
        screen.slots.second.last_drawn is None,
    ensures
        !screen.involved(placement),
{
}

/// The layout begins at the leftmost and topmost pixel that any output with a known
/// area has, and ends with the last one: no output sticks out of it, and it touches one
/// on each side. Without any, it is empty and at the origin.
pub proof fn the_layout_holds_every_output(screens: Seq<Screen>, i: int)
    requires
        0 <= i < screens.len(),
    ensures
        screens[i].area matches Some((width, height)) ==> ({
            let all = bounds_of(screens);
            &&& all.left <= screens[i].position.0
            &&& all.top <= screens[i].position.1
            &&& screens[i].position.0 + width <= all.right
            &&& screens[i].position.1 + height <= all.bottom
        }),
{
    the_layout_is_the_bounding_box(screens);
}

/// Each side of the layout is that of an output.
pub proof fn the_layout_is_tight(screens: Seq<Screen>) -> (sides: (int, int, int, int))
    requires
        exists|i: int| 0 <= i < screens.len() && (#[trigger] screens[i]).area is Some,
    ensures
        0 <= sides.0 < screens.len(),
        0 <= sides.1 < screens.len(),
        0 <= sides.2 < screens.len(),
        0 <= sides.3 < screens.len(),
        screens[sides.0].area is Some,
        screens[sides.1].area is Some,
        screens[sides.2].area is Some,
        screens[sides.3].area is Some,
        bounds_of(screens).left == screens[sides.0].position.0,
        bounds_of(screens).top == screens[sides.1].position.1,
        bounds_of(screens).right == screens[sides.2].position.0 + (screens[sides.2].area->0).0,
        bounds_of(screens).bottom == screens[sides.3].position.1 + (screens[sides.3].area->0).1,
{
    the_layout_is_the_bounding_box(screens);
    let extent = layout(screens)->0;
    let a = choose|i: int|
        0 <= i < screens.len() && crate::overlay::is_placed(#[trigger] screens[i])
            && crate::overlay::extent_of(screens[i]).left == extent.left;
    let b = choose|i: int|
        0 <= i < screens.len() && crate::overlay::is_placed(#[trigger] screens[i])
            && crate::overlay::extent_of(screens[i]).top == extent.top;
    let c = choose|i: int|
        0 <= i < screens.len() && crate::overlay::is_placed(#[trigger] screens[i])
            && crate::overlay::extent_of(screens[i]).right == extent.right;
    let d = choose|i: int|
        0 <= i < screens.len() && crate::overlay::is_placed(#[trigger] screens[i])
            && crate::overlay::extent_of(screens[i]).bottom == extent.bottom;
    (a, b, c, d)
}

/// An overlay without a known area anywhere has an empty layout at the origin.
pub proof fn an_unknown_layout_is_empty(screens: Seq<Screen>)
    requires
        forall|i: int| 0 <= i < screens.len() ==> (#[trigger] screens[i]).area is None,
    ensures
        bounds_of(screens).left == 0,
        bounds_of(screens).top == 0,
        bounds_of(screens).right == 0,
        bounds_of(screens).bottom == 0,
{
    the_layout_is_the_bounding_box(screens);
}

/// A pixel of the layout is the same pixel of the desktop on every screen: how far it
/// is from the layout's corner and from the screen's differ by how far those are apart.
pub proof fn screens_agree_on_a_pixel(overlay: Overlay, i: int, x: int, y: int)
    requires
        0 <= i < overlay.screens@.len(),
        i32::MIN <= bounds_of(overlay.screens@).left + x - overlay.screens@[i].position.0 <= i32::MAX,
        i32::MIN <= bounds_of(overlay.screens@).top + y - overlay.screens@[i].position.1 <= i32::MAX,
    ensures
        overlay.screens@[i].position.0 + overlay.local(i, x, y).0 == bounds_of(overlay.screens@).left + x,
        overlay.screens@[i].position.1 + overlay.local(i, x, y).1 == bounds_of(overlay.screens@).top + y,
{
}

/// A screen is looked up by its id: the place found is that of a screen with the id,
/// there is none before it, and if none is found there is none.
pub proof fn screens_are_found_by_id(screens: Seq<Screen>, id: ScreenId)
    ensures
        match place_of(screens, id) {
            Some(i) => {
                &&& 0 <= i < screens.len()
                &&& screens[i].id == id
                &&& forall|k: int| 0 <= k < i ==> (#[trigger] screens[k]).id != id
            },
            None => forall|k: int| 0 <= k < screens.len() ==> (#[trigger] screens[k]).id != id,
        },
    decreases screens.len(),
{
    if screens.len() > 0 {
        let rest = screens.drop_last();
        screens_are_found_by_id(rest, id);
        assert forall|k: int| 0 <= k < rest.len() implies #[trigger] screens[k] == rest[k] by {}
    }
}

/// A screen is looked up by its output in the same way.
pub proof fn screens_are_found_by_output(screens: Seq<Screen>, output: u32)
    ensures
        match place_of_output(screens, output) {
            Some(i) => {
                &&& 0 <= i < screens.len()
                &&& screens[i].output == output
                &&& forall|k: int| 0 <= k < i ==> (#[trigger] screens[k]).output != output
            },
            None => forall|k: int| 0 <= k < screens.len() ==> (#[trigger] screens[k]).output != output,
        },
    decreases screens.len(),
{
    if screens.len() > 0 {
        let rest = screens.drop_last();
        screens_are_found_by_output(rest, output);
        assert forall|k: int| 0 <= k < rest.len() implies #[trigger] screens[k] == rest[k] by {}
    }
}

/// An output gets a screen if it is the one asked for, or none was asked for by name,
/// and if it has no screen yet.
pub proof fn an_output_gets_one_screen(overlay: Overlay, output: u32, name: Option<String>)
    ensures
        overlay.takes_on(output, name) <==> {
            &&& overlay.config.output matches Some(wanted) ==> name is Some && (name->0)@ == wanted@
            &&& forall|k: int|
                0 <= k < overlay.screens@.len() ==> (#[trigger] overlay.screens@[k]).output != output
        },
{
    screens_are_found_by_output(overlay.screens@, output);
}

/// A new screen comes last, under an id of its own and with the output's place, which
/// is the origin if the compositor told none. It is blank until it is configured.
pub proof fn a_new_screen_comes_last(
    overlay: Overlay,
    after: Overlay,
    output: u32,
    name: Option<String>,
    position: Option<(i32, i32)>,
)
    requires
        overlay.takes_on(output, name),
        overlay.next_id < u32::MAX,
        overlay.gains(after, output, name, position),
    ensures
        after.screens@.len() == overlay.screens@.len() + 1,
        forall|k: int|
            0 <= k < overlay.screens@.len() ==> #[trigger] after.screens@[k] == overlay.screens@[k],
        after.next_id == overlay.next_id + 1,
        after.config == overlay.config,
        after.closed == overlay.closed,
        ({
            let screen = after.screens@.last();
            &&& screen.id.0 == overlay.next_id
            &&& screen.output == output
            &&& name matches Some(name) ==> screen.name@ == name@
            &&& name is None ==> screen.name@ == "?"@
            &&& screen.viewport == overlay.viewporter
            &&& screen.scale_120 == 120
            &&& position matches Some(place) ==> screen.position == place
            &&& position is None ==> screen.position == (0i32, 0i32)
            &&& screen.size == (0i32, 0i32)
            &&& screen.area is None
            &&& !screen.slots.first.allocated && screen.slots.first.last_drawn is None
            &&& !screen.slots.second.allocated && screen.slots.second.last_drawn is None
            &&& screen.next_slot == Side::First
            &&& !screen.configured
            &&& !screen.hidden
        }),
{
    let label = choose|label: String|
        label@ == crate::overlay::label_of(name) && #[trigger] overlay.screens@.push(
            fresh_screen(ScreenId(overlay.next_id), output, label, overlay.viewporter, position),
        ) == after.screens@;
    assert(after.screens@.last() == fresh_screen(
        ScreenId(overlay.next_id),
        output,
        label,
        overlay.viewporter,
        position,
    ));
}

/// Moving an output moves its screen, to the origin if no place is told, and nothing
/// else about any screen.
pub proof fn a_moved_output_moves_its_screen(
    screens: Seq<Screen>,
    output: u32,
    position: Option<(i32, i32)>,
    i: int,
)
    requires
        0 <= i < screens.len(),
        forall|k: int|
            0 <= k < screens.len() && k != i ==> (#[trigger] screens[k]).output != screens[i].output,
    ensures
        ({
            let now = with_output_at(screens, output, position);
            &&& now.len() == screens.len()
            &&& screens[i].output != output ==> now[i] == screens[i]
            &&& screens[i].output == output ==> {
                &&& now[i] == (Screen { position: now[i].position, ..screens[i] })
                &&& position matches Some(place) ==> now[i].position == place
                &&& position is None ==> now[i].position == (0i32, 0i32)
            }
        }),
{
    screens_are_found_by_output(screens, output);
}

/// What takes a screen away: the loss of its own output, or of its own surface.
pub proof fn a_loss_takes_its_own_screen(screen: Screen, output: u32, id: ScreenId)
    ensures
        Gone::Output(output).takes(screen) <==> screen.output == output,
        Gone::Surface(id).takes(screen) <==> screen.id == id,
{
}

/// A surface that is configured has the size it was told and takes up that much of the
/// layout. It keeps its buffers if that is the size it had, and loses both if not.
pub proof fn a_configured_screen_has_its_size(screen: Screen, width: u32, height: u32)
    requires
        width <= i32::MAX,
        height <= i32::MAX,
    ensures
        ({
            let now = configured_at(screen, (width, height));
            &&& now.size.0 == width
            &&& now.size.1 == height
            &&& now.area == Some(now.size)
            &&& now.configured
            &&& now.size == screen.size ==> now.slots == screen.slots
            &&& now.size != screen.size ==> !now.slots.first.allocated && !now.slots.second.allocated
                && now.slots.first.last_drawn is None && now.slots.second.last_drawn is None
            &&& now == (Screen {
                size: now.size,
                area: now.area,
                slots: now.slots,
                configured: true,
                ..screen
            })
        }),
{
}

/// A screen that is given a scale has it. It keeps its buffers if that is the one it
/// had, and loses both if not.
pub proof fn a_scaled_screen_has_its_scale(screen: Screen, scale_120: u32)
    ensures
        ({
            let now = scaled_to(screen, scale_120);
            &&& now.scale_120 == scale_120
            &&& scale_120 == screen.scale_120 ==> now.slots == screen.slots
            &&& scale_120 != screen.scale_120 ==> !now.slots.first.allocated
                && !now.slots.second.allocated && now.slots.first.last_drawn is None
                && now.slots.second.last_drawn is None
            &&& now == (Screen { scale_120, slots: now.slots, ..screen })
        }),
{
}

/// A screen whose name is on the list of the covered ones is off the display after
/// the report, and one whose name is not is on it. What changes for the worse loses
/// its buffers and has to be configured anew, what changes for the better starts from
/// nothing, and what does not change is left alone. The layout is what it was.
pub proof fn covered_screens_step_aside(screen: Screen, names: Seq<String>)
    ensures
        ({
            let now = reported(screen, names);
            let covered = exists|k: int| 0 <= k < names.len() && (#[trigger] names[k])@ == screen.name@;
            &&& now.hidden == covered
            &&& covered == screen.hidden ==> now == screen
            &&& covered != screen.hidden ==> {
                &&& !now.configured
                &&& !now.slots.first.allocated && !now.slots.second.allocated
                &&& now.slots.first.last_drawn is None && now.slots.second.last_drawn is None
                &&& covered ==> now.size == screen.size && now.next_slot == screen.next_slot
                &&& !covered ==> now.size == (0i32, 0i32) && now.next_slot == Side::First
            }
            &&& now.id == screen.id
            &&& now.output == screen.output
            &&& now.name == screen.name
            &&& now.viewport == screen.viewport
            &&& now.scale_120 == screen.scale_120
            &&& now.position == screen.position
            &&& now.area == screen.area
        }),
{
}

/// The screens that a report names as taken off are those that were shown and are
/// covered, and those it names as put back are those that were off and are not.
pub proof fn a_report_names_what_changes(screens: Seq<Screen>, names: Seq<String>, id: ScreenId)
    ensures
        changed(screens, names, true).contains(id) <==> exists|i: int|
            0 <= i < screens.len() && (#[trigger] screens[i]).id == id && !screens[i].hidden && is_named(
                names,
                screens[i].name@,
            ),
        changed(screens, names, false).contains(id) <==> exists|i: int|
            0 <= i < screens.len() && (#[trigger] screens[i]).id == id && screens[i].hidden && !is_named(
                names,
                screens[i].name@,
            ),
        forall|name: Seq<char>| #[trigger]
            is_named(names, name) <==> exists|k: int| 0 <= k < names.len() && (#[trigger] names[k])@ == name,
    decreases screens.len(),
{
    if screens.len() > 0 {
        let rest = screens.drop_last();
        let last = screens.len() - 1;
        a_report_names_what_changes(rest, names, id);
        assert forall|k: int| 0 <= k < rest.len() implies #[trigger] screens[k] == rest[k] by {}
        report_grows(screens, names, id, true);
        report_grows(screens, names, id, false);
        if exists|i: int|
            0 <= i < screens.len() && (#[trigger] screens[i]).id == id && !screens[i].hidden && is_named(
                names,
                screens[i].name@,
            ) {
            let i = choose|i: int|
                0 <= i < screens.len() && (#[trigger] screens[i]).id == id && !screens[i].hidden
                    && is_named(names, screens[i].name@);
            if i < last {
                assert(rest[i] == screens[i]);
            }
        }
        if exists|i: int|
            0 <= i < screens.len() && (#[trigger] screens[i]).id == id && screens[i].hidden && !is_named(
                names,
                screens[i].name@,
            ) {
            let i = choose|i: int|
                0 <= i < screens.len() && (#[trigger] screens[i]).id == id && screens[i].hidden
                    && !is_named(names, screens[i].name@);
            if i < last {
                assert(rest[i] == screens[i]);
            }
        }
        assert(screens[last] == screens.last());
    }
}

/// One more screen adds its id to a report, or nothing.
proof fn report_grows(screens: Seq<Screen>, names: Seq<String>, id: ScreenId, hidden: bool)
    requires
        screens.len() > 0,
    ensures
        changed(screens, names, hidden).contains(id) <==> {
            ||| changed(screens.drop_last(), names, hidden).contains(id)
            ||| screens.last().id == id && screens.last().hidden != hidden && is_named(
                names,
                screens.last().name@,
            ) == hidden
        },
{
    let before = changed(screens.drop_last(), names, hidden);
    let now = changed(screens, names, hidden);
    if now.len() > before.len() {
        assert(now == before.push(screens.last().id));
        assert(now[before.len() as int] == screens.last().id);
        if before.contains(id) {
            let k = choose|k: int| 0 <= k < before.len() && before[k] == id;
            assert(now[k] == id);
        }
        if now.contains(id) {
            let k = choose|k: int| 0 <= k < now.len() && now[k] == id;
            if k < before.len() {
                assert(before[k] == id);
            }
        }
    }
}

/// Taken off the display, a screen loses its buffers and has to be configured anew;
/// rebuilt, it also forgets its size. Where it is and how much of the layout it takes up
/// stay.
pub proof fn screens_start_over(screen: Screen)
    ensures
        !screen.unmapped().configured,
        !screen.unmapped().slots.first.allocated && screen.unmapped().slots.first.last_drawn is None,
        !screen.unmapped().slots.second.allocated && screen.unmapped().slots.second.last_drawn is None,
        screen.unmapped() == (Screen { slots: screen.unmapped().slots, configured: false, ..screen }),
        screen.rebuilt() == (Screen {
            slots: screen.unmapped().slots,
            size: (0, 0),
            next_slot: Side::First,
            configured: false,
            ..screen
        }),
{
}

/// The two buffers are kept apart: replacing one leaves the other as it was.
pub proof fn buffers_are_kept_apart(slots: Slots, slot: Slot)
    ensures
        slots.at(Side::First) == slots.first,
        slots.at(Side::Second) == slots.second,
        slots.with(Side::First, slot).first == slot,
        slots.with(Side::First, slot).second == slots.second,
        slots.with(Side::Second, slot).second == slot,
        slots.with(Side::Second, slot).first == slots.first,
        opposite(Side::First) == Side::Second,
        opposite(Side::Second) == Side::First,
{
}

} // verus!
