//! What holds of the overlay across monitors, whatever happens to them.

use vstd::prelude::*;

use crate::overlay::{
    Gone, Overlay, bounds_of, changed, configured_at, extent_of, is_named, is_placed, reported,
    scaled_to, the_layout_is_the_bounding_box,
};
use crate::rounding::{magnitude, rounded, saturated};
use crate::screen::{
    SCALE_DENOMINATOR, Screen, coordinates_are_closest, device_coordinate, empty_slots, scaled,
};

verus! {

/// A position on a placed screen, taken relative to the layout's origin, is
/// within the layout's size.
pub proof fn a_cursor_on_a_screen_is_in_the_layout(screens: Seq<Screen>, i: int, x: int, y: int)
    requires
        0 <= i < screens.len(),
        is_placed(screens[i]),
        extent_of(screens[i]).left <= x < extent_of(screens[i]).right,
        extent_of(screens[i]).top <= y < extent_of(screens[i]).bottom,
    ensures
        ({
            let layout = bounds_of(screens);
            &&& 0 <= x - layout.left < layout.right - layout.left
            &&& 0 <= y - layout.top < layout.bottom - layout.top
        }),
{
    the_layout_is_the_bounding_box(screens);
}

/// Whether a screen's buffers hold one pixel per logical pixel.
pub open spec fn unscaled(screen: Screen) -> bool {
    !screen.viewport || screen.scale_120 == SCALE_DENOMINATOR
}

/// Whether a coordinate of the layout can be told in a screen's own pixels, `from`
/// being where the screen begins.
pub open spec fn tellable(screen: Screen, from: int, place: int) -> bool {
    &&& i32::MIN <= place - from <= i32::MAX
    &&& screen.viewport ==> 120 * i32::MIN <= (place - from) * screen.scale_120 <= 120 * i32::MAX
}

/// Whether a coordinate of a screen's buffers shows a place of the layout: taken back
/// by the scale, it is at most half a device pixel off, and not at all where the
/// buffers are not scaled.
pub open spec fn shows(screen: Screen, from: int, device: int, place: int) -> bool {
    &&& screen.viewport ==> -60 <= 120 * device - (place - from) * screen.scale_120 <= 60
    &&& unscaled(screen) ==> from + device == place
}

/// A sprite's coordinate in a screen's buffers shows its place in the layout.
proof fn a_coordinate_shows_its_place(screen: Screen, from: int, place: int)
    requires
        tellable(screen, from, place),
    ensures
        screen.viewport ==> shows(
            screen,
            from,
            device_coordinate(place - from, screen.scale_120 as int),
            place,
        ),
{
    if screen.viewport {
        let (local, scale) = (place - from, screen.scale_120 as int);
        let size = magnitude(local);
        assert(size * scale == local * scale || size * scale == -(local * scale)) by (nonlinear_arith)
            requires
                size == local || size == -local,
        ;
        coordinates_are_closest(local, scale);
        let (top, bottom) = scaled(local, scale);
        assert(saturated(rounded(top, bottom)) == rounded(top, bottom));
        if unscaled(screen) {
            assert(local * scale == 120 * local) by (nonlinear_arith)
                requires
                    scale == 120,
            ;
        }
    }
}

/// A sprite is drawn on every screen where it is in the layout, to within half a
/// device pixel. So one that lies across a monitor edge is drawn at the same place on
/// both sides, and the two halves meet at the seam.
pub proof fn the_halves_meet_at_the_seam(
    overlay: Overlay,
    i: int,
    j: int,
    width: u32,
    height: u32,
    x: int,
    y: int,
)
    requires
        0 <= i < overlay.screens@.len(),
        0 <= j < overlay.screens@.len(),
        ({
            let layout = bounds_of(overlay.screens@);
            let (one, two) = (overlay.screens@[i], overlay.screens@[j]);
            &&& tellable(one, one.position.0 as int, layout.left + x)
            &&& tellable(one, one.position.1 as int, layout.top + y)
            &&& tellable(two, two.position.0 as int, layout.left + x)
            &&& tellable(two, two.position.1 as int, layout.top + y)
        }),
    ensures
        ({
            let layout = bounds_of(overlay.screens@);
            let (one, two) = (overlay.screens@[i], overlay.screens@[j]);
            let (here, there) = (
                one.placement_of(
                    overlay.config.scale,
                    width,
                    height,
                    overlay.local(i, x, y).0,
                    overlay.local(i, x, y).1,
                ).target,
                two.placement_of(
                    overlay.config.scale,
                    width,
                    height,
                    overlay.local(j, x, y).0,
                    overlay.local(j, x, y).1,
                ).target,
            );
            &&& shows(one, one.position.0 as int, here.x as int, layout.left + x)
            &&& shows(one, one.position.1 as int, here.y as int, layout.top + y)
            &&& shows(two, two.position.0 as int, there.x as int, layout.left + x)
            &&& shows(two, two.position.1 as int, there.y as int, layout.top + y)
            &&& unscaled(one) && unscaled(two) ==> one.position.0 + here.x == two.position.0 + there.x
                && one.position.1 + here.y == two.position.1 + there.y
        }),
{
    let layout = bounds_of(overlay.screens@);
    let (one, two) = (overlay.screens@[i], overlay.screens@[j]);
    a_coordinate_shows_its_place(one, one.position.0 as int, layout.left + x);
    a_coordinate_shows_its_place(one, one.position.1 as int, layout.top + y);
    a_coordinate_shows_its_place(two, two.position.0 as int, layout.left + x);
    a_coordinate_shows_its_place(two, two.position.1 as int, layout.top + y);
}

/// After a report a screen is hidden exactly if it is on the list, and reporting
/// the same list again changes nothing.
pub proof fn a_report_settles(screen: Screen, names: Seq<String>)
    ensures
        reported(screen, names).hidden == is_named(names, screen.name@),
        reported(reported(screen, names), names) == reported(screen, names),
{
}

/// A report that repeats the one before takes nothing off and puts nothing back.
pub proof fn a_repeated_report_is_no_news(
    screens: Seq<Screen>,
    after: Seq<Screen>,
    names: Seq<String>,
    hidden: bool,
)
    requires
        after.len() == screens.len(),
        forall|i: int|
            0 <= i < after.len() ==> #[trigger] after[i] == reported(screens[i], names),
    ensures
        changed(after, names, hidden).len() == 0,
    decreases after.len(),
{
    if after.len() > 0 {
        let last = after.len() - 1;
        a_report_settles(screens[last], names);
        a_repeated_report_is_no_news(screens.drop_last(), after.drop_last(), names, hidden);
    }
}

/// A name that no screen goes by makes no difference to a report.
pub proof fn unknown_names_are_ignored(screens: Seq<Screen>, names: Seq<String>, stray: String)
    requires
        forall|i: int| 0 <= i < screens.len() ==> (#[trigger] screens[i]).name@ != stray@,
    ensures
        forall|i: int|
            0 <= i < screens.len() ==> reported(#[trigger] screens[i], names.push(stray)) == reported(
                screens[i],
                names,
            ),
        changed(screens, names.push(stray), true) == changed(screens, names, true),
        changed(screens, names.push(stray), false) == changed(screens, names, false),
    decreases screens.len(),
{
    let longer = names.push(stray);
    assert forall|i: int| 0 <= i < screens.len() implies is_named(
        longer,
        (#[trigger] screens[i]).name@,
    ) == is_named(names, screens[i].name@) by {
        let name = screens[i].name@;
        if is_named(names, name) {
            let k = choose|k: int| 0 <= k < names.len() && (#[trigger] names[k])@ == name;
            assert(longer[k]@ == name);
        }
        if is_named(longer, name) {
            let k = choose|k: int| 0 <= k < longer.len() && (#[trigger] longer[k])@ == name;
            assert(names[k]@ == name);
        }
    }
    if screens.len() > 0 {
        let rest = screens.drop_last();
        assert(forall|i: int| 0 <= i < rest.len() ==> #[trigger] rest[i] == screens[i]);
        unknown_names_are_ignored(rest, names, stray);
        assert(screens[screens.len() - 1] == screens.last());
    }
}

/// A screen that shows something fullscreen is not drawn on, and one that is
/// shown again is not drawn on before the compositor has configured it.
pub proof fn a_covered_screen_is_left_alone(screen: Screen, names: Seq<String>)
    ensures
        is_named(names, screen.name@) ==> !reported(screen, names).drawable(),
        screen.hidden ==> !reported(screen, names).drawable(),
        !is_named(names, screen.name@) && !screen.hidden ==> reported(screen, names) == screen,
{
}

/// Buffers never outlive the size they were made for: whatever changes the size
/// that buffers must have also lets go of those there are.
pub proof fn buffers_fit_the_screen(screen: Screen, size: (u32, u32), scale_120: u32)
    ensures
        configured_at(screen, size).device_size_of() == screen.device_size_of() || configured_at(
            screen,
            size,
        ).slots == empty_slots(),
        scaled_to(screen, scale_120).device_size_of() == screen.device_size_of() || scaled_to(
            screen,
            scale_120,
        ).slots == empty_slots(),
        screen.rebuilt().slots == empty_slots(),
        screen.unmapped().slots == empty_slots(),
{
}

/// While one screen is left, losing another is not the end.
pub proof fn losing_one_screen_is_not_the_end(screens: Seq<Screen>, gone: Gone, i: int)
    requires
        0 <= i < screens.len(),
        !gone.takes(screens[i]),
    ensures
        screens.filter(|screen: Screen| !gone.takes(screen)).len() > 0,
{
    let keep = |screen: Screen| !gone.takes(screen);
    screens.lemma_filter_contains(keep, i);
    assert(screens.filter(keep).contains(screens[i]));
}

} // verus!
