//! Screens, the layout they make up, and drawing across them.

use nekors::bytes::CastError;
use nekors::canvas::Canvas;
use nekors::layer::{Layer, LayerArg};
use nekors::overlay::{idle_timeout, Gone, Overlay, OverlayConfig, StartError};
use nekors::screen::{
    clear, repaint, repaint_bytes, Frame, Placement, Rect, Screen, ScreenId, Side, Slots,
    SCALE_DENOMINATOR,
};
use nekors::sprite::{Palette, Sprite};

fn overlay() -> Overlay {
    Overlay::new(OverlayConfig::default(), false)
}

/// Two monitors side by side, the left one left of the global origin.
fn two_screens() -> Overlay {
    let mut overlay = overlay();
    let left = overlay.add_screen(10, Some("HDMI-A-1".to_owned()), Some((-1920, 0))).expect("left");
    let right = overlay.add_screen(11, Some("DP-1".to_owned()), Some((0, 200))).expect("right");
    overlay.configure(left, (1920, 1080));
    overlay.configure(right, (2560, 1440));
    overlay
}

/// A sprite that is all outline.
fn block() -> Sprite {
    Sprite {
        name: "block".to_owned(),
        width: 2,
        height: 2,
        bits: vec![0b11, 0b11],
        mask: vec![0b11, 0b11],
    }
}

fn names(list: &[&str]) -> Vec<String> {
    list.iter().map(|name| (*name).to_owned()).collect()
}

#[test]
fn an_overlay_is_set_up_over_everything_by_default() {
    let config = OverlayConfig::default();
    assert_eq!(config.layer, Layer::Overlay);
    assert_eq!(config.output, None);
    assert_eq!(config.scale, 1);
    assert_eq!(config.palette.background, 0xffff_ffff);
    assert_eq!(config.palette.outline, 0xff00_0000);
    assert_eq!(config.idle_after, None);
}

#[test]
fn layers_carry_over_from_the_command_line() {
    assert_eq!(Layer::from(LayerArg::Background), Layer::Background);
    assert_eq!(Layer::from(LayerArg::Bottom), Layer::Bottom);
    assert_eq!(Layer::from(LayerArg::Top), Layer::Top);
    assert_eq!(Layer::from(LayerArg::Overlay), Layer::Overlay);
}

#[test]
fn the_layout_is_the_box_around_all_configured_screens() {
    let mut overlay = two_screens();
    assert_eq!(overlay.bounds(), (-1920, 0, 1920 + 2560, 200 + 1440));
    assert_eq!(overlay.origin(), (-1920, 0));
    assert_eq!(overlay.size(), (4480, 1640));
    assert_eq!(overlay.screen_count(), 2);
    assert!(overlay.any_configured() && !overlay.waiting());
    // One that is not configured yet does not count.
    overlay.add_screen(12, None, Some((9000, 9000)));
    assert_eq!(overlay.size(), (4480, 1640));
    assert_eq!(overlay.screens[2].name, "?");
}

#[test]
fn an_overlay_without_screens_is_empty() {
    let overlay = overlay();
    assert_eq!(overlay.bounds(), (0, 0, 0, 0));
    assert!(!overlay.any_configured());
    assert!(overlay.waiting());
    assert!(!overlay.closed());
    assert!(!overlay.session_idle());
    assert_eq!(overlay.start_error(), Some(StartError::NoOutputs));
}

#[test]
fn an_overlay_can_be_confined_to_one_output() {
    let config = OverlayConfig { output: Some("DP-1".to_owned()), ..OverlayConfig::default() };
    let mut overlay = Overlay::new(config, false);
    assert_eq!(overlay.start_error(), Some(StartError::NoSuchOutput));
    assert_eq!(overlay.add_screen(1, Some("HDMI-A-1".to_owned()), None), None);
    assert_eq!(overlay.add_screen(2, None, None), None);
    // A name that turns up later is still the one asked for.
    assert_eq!(overlay.update_output(2, Some("DP-1".to_owned()), None), Some(ScreenId(0)));
    assert_eq!(overlay.start_error(), None);
    assert_eq!(overlay.screen_count(), 1);
    assert_eq!(overlay.screens[0].position, (0, 0));
}

#[test]
fn an_output_gets_only_one_screen() {
    let mut overlay = two_screens();
    assert_eq!(overlay.add_screen(10, Some("HDMI-A-1".to_owned()), None), None);
    assert_eq!(overlay.add_screen(12, None, None), Some(ScreenId(2)));
    assert_eq!(overlay.screen_count(), 3);
}

#[test]
fn a_rearranged_monitor_moves_in_the_layout() {
    let mut overlay = two_screens();
    assert_eq!(overlay.update_output(10, Some("HDMI-A-1".to_owned()), Some((2560, 0))), None);
    assert_eq!(overlay.bounds(), (0, 0, 2560 + 1920, 1640));
    assert_eq!(overlay.find_output(10), Some(0));
    assert_eq!(overlay.find_output(99), None);
    assert_eq!(overlay.find(ScreenId(1)), Some(1));
}

#[test]
fn only_losing_the_last_screen_is_the_end() {
    let mut overlay = two_screens();
    overlay.remove(Gone::Output(10));
    assert!(!overlay.closed());
    assert_eq!(overlay.screen_count(), 1);
    assert_eq!(overlay.origin(), (0, 200));
    overlay.remove(Gone::Surface(ScreenId(5)));
    assert_eq!(overlay.screen_count(), 1);
    overlay.remove(Gone::Surface(ScreenId(1)));
    assert!(overlay.closed() && !overlay.waiting());
}

#[test]
fn a_resize_lets_go_of_the_buffers() {
    let mut overlay = Overlay::new(OverlayConfig::default(), true);
    let id = overlay.add_screen(1, None, None).expect("a screen");
    assert_eq!(overlay.configure(id, (800, 600)), Some((800, 600)));
    overlay.screens[0].allocated(Side::First);
    // The same size again is no news.
    assert_eq!(overlay.configure(id, (800, 600)), None);
    assert!(overlay.screens[0].slots.first.allocated);
    assert_eq!(overlay.configure(id, (u32::MAX, 600)), Some((i32::MAX, 600)));
    assert!(!overlay.screens[0].slots.first.allocated);
    assert_eq!(overlay.configure(ScreenId(9), (1, 1)), None);
}

#[test]
fn a_new_scale_lets_go_of_the_buffers() {
    let mut overlay = Overlay::new(OverlayConfig::default(), true);
    let id = overlay.add_screen(1, None, None).expect("a screen");
    // It can arrive before the first configure, when there is no size yet.
    assert_eq!(overlay.prefer_scale(id, 180), None);
    overlay.configure(id, (800, 600));
    overlay.screens[0].allocated(Side::Second);
    assert_eq!(overlay.prefer_scale(id, 180), None);
    assert!(overlay.screens[0].slots.second.allocated);
    assert_eq!(overlay.prefer_scale(id, 240), Some((800, 600)));
    assert!(!overlay.screens[0].slots.second.allocated);
    assert_eq!(overlay.screens[0].device_size(), (1600, 1200));
    assert_eq!(overlay.prefer_scale(ScreenId(9), 120), None);
}

#[test]
fn fullscreen_outputs_are_stepped_off_and_come_back() {
    let mut overlay = two_screens();
    let changes = overlay.hide_outputs(&names(&["DP-1", "unplugged"]));
    assert_eq!(changes.hidden, [ScreenId(1)]);
    assert_eq!(changes.shown, []);
    assert!(overlay.screens[1].hidden && !overlay.screens[1].configured);
    assert_eq!(overlay.draw(&block(), 0, 0)[1], None);
    // The layout stays what it is: the animal walks its usual route across it.
    assert_eq!(overlay.bounds(), (-1920, 0, 4480, 1640));
    // The same report again is no news.
    let changes = overlay.hide_outputs(&names(&["unplugged", "DP-1"]));
    assert_eq!((changes.hidden.len(), changes.shown.len()), (0, 0));
    let changes = overlay.hide_outputs(&[]);
    assert_eq!(changes.hidden, []);
    assert_eq!(changes.shown, [ScreenId(1)]);
    assert!(!overlay.screens[1].hidden);
    assert_eq!(overlay.bounds(), (-1920, 0, 4480, 1640));
    // It is drawn on again once it is configured.
    assert_eq!(overlay.draw(&block(), 0, 0)[1], None);
    assert_eq!(overlay.configure(ScreenId(1), (2560, 1440)), None);
    assert!(overlay.draw(&block(), 0, 0)[1].is_some());
}

#[test]
fn a_sprite_across_the_seam_is_drawn_on_both_screens() {
    let overlay = two_screens();
    assert!(overlay.sprite_fits(2, 2));
    let placements = overlay.draw(&block(), 1919, 300);
    let left = placements[0].expect("left");
    let right = placements[1].expect("right");
    assert_eq!(left.target, Rect { x: 1919, y: 300, width: 2, height: 2 });
    assert_eq!(right.target, Rect { x: -1, y: 100, width: 2, height: 2 });
    assert_eq!(left.device_size, (1920, 1080));
    assert!(left.target.hits(1920, 1080) && right.target.hits(2560, 1440));
}

#[test]
fn a_huge_scale_does_not_fit() {
    let config = OverlayConfig { scale: u32::MAX, ..OverlayConfig::default() };
    let mut overlay = Overlay::new(config, false);
    assert!(overlay.sprite_fits(32, 32));
    let id = overlay.add_screen(1, None, None).expect("a screen");
    overlay.configure(id, (800, 600));
    assert!(!overlay.sprite_fits(32, 32));
}

#[test]
fn idleness_is_asked_for_in_milliseconds() {
    assert_eq!(idle_timeout(1_500_000_000), 1500);
    assert_eq!(idle_timeout(999_999), 0);
    assert_eq!(idle_timeout(u128::MAX), u32::MAX);
}

#[test]
fn the_seat_is_not_idle_unless_that_was_asked_for() {
    let mut overlay = overlay();
    overlay.set_session_idle(true);
    assert!(!overlay.session_idle());
}

#[test]
fn a_shown_screen_gets_its_destination_again() {
    let mut overlay = Overlay::new(OverlayConfig::default(), true);
    let id = overlay.add_screen(1, Some("DP-1".to_owned()), Some((7, 7))).expect("a screen");
    assert_eq!(overlay.configure(id, (800, 600)), Some((800, 600)));
    overlay.hide_outputs(&names(&["DP-1"]));
    assert_eq!((overlay.origin(), overlay.size()), ((7, 7), (800, 600)));
    overlay.hide_outputs(&[]);
    assert_eq!((overlay.origin(), overlay.size()), ((7, 7), (800, 600)));
    // The new surface's viewport has to be told, though the size is the old one.
    assert_eq!(overlay.configure(id, (800, 600)), Some((800, 600)));
}

#[test]
fn an_output_is_taken_on_once() {
    let config = OverlayConfig { output: Some("DP-1".to_owned()), ..OverlayConfig::default() };
    let mut overlay = Overlay::new(config, false);
    assert!(!overlay.would_take_on(1, &None));
    assert!(!overlay.would_take_on(1, &Some("DP-2".to_owned())));
    assert!(overlay.would_take_on(1, &Some("DP-1".to_owned())));
    overlay.add_screen(1, Some("DP-1".to_owned()), None);
    assert!(!overlay.would_take_on(1, &Some("DP-1".to_owned())));
}

#[test]
fn the_seat_goes_idle_and_comes_back() {
    let config = OverlayConfig { idle_after: Some(1), ..OverlayConfig::default() };
    let mut overlay = Overlay::new(config, false);
    overlay.set_session_idle(true);
    assert!(overlay.session_idle());
    overlay.set_session_idle(false);
    assert!(!overlay.session_idle());
}

/// A screen with a viewport at a scale in 120ths.
fn scaled(scale_120: u32) -> Screen {
    Screen {
        id: ScreenId(0),
        output: 1,
        name: "DP-1".to_owned(),
        viewport: true,
        scale_120,
        position: (0, 0),
        size: (801, 600),
        area: Some((801, 600)),
        slots: Slots::empty(),
        next_slot: Side::First,
        configured: true,
        hidden: false,
    }
}

#[test]
fn buffers_are_rounded_up_and_sprites_to_the_nearest() {
    assert_eq!(SCALE_DENOMINATOR, 120);
    let screen = scaled(150);
    assert_eq!(screen.device_size(), (1002, 750));
    assert_eq!(screen.pixel_scale(1), 1);
    assert_eq!(screen.pixel_scale(2), 3);
    assert_eq!(screen.pixel_scale(0), 1);
    assert_eq!(screen.destination(), Some((801, 600)));
    let placement = screen.place(2, 32, 32, 10, -10).expect("drawable");
    assert_eq!(placement.pixel_scale, 3);
    assert_eq!(placement.target, Rect { x: 13, y: -13, width: 96, height: 96 });
    // Without a viewport the compositor does the scaling.
    let plain = Screen { viewport: false, ..scaled(150) };
    assert_eq!(plain.device_size(), (801, 600));
    assert_eq!(plain.destination(), None);
    assert_eq!(plain.place(1, 32, 32, 10, -10).expect("drawable").target.x, 10);
}

#[test]
fn buffers_are_as_large_as_a_multiplication_gives() {
    // Eleven tenths are a little too large as a number, and so are some products.
    let screen = Screen { size: (800, 600), ..scaled(132) };
    assert_eq!(screen.device_size(), (881, 660));
    let screen = Screen { size: (2560, 1440), ..scaled(132) };
    assert_eq!(screen.device_size(), (2816, 1585));
    for scale_120 in (1..400).chain([u32::MAX]) {
        let factor = f64::from(scale_120) / 120.0;
        for (width, height) in [(0, 1), (1, 7), (800, 600), (1920, 1080), (3840, 2160), (i32::MAX, 99)] {
            let screen = Screen { size: (width, height), ..scaled(scale_120) };
            let wanted = |logical: i32| (f64::from(logical) * factor).ceil() as i32;
            assert_eq!(screen.device_size(), (wanted(width), wanted(height)), "{scale_120}");
        }
        for scale in [1, 2, 3, 16] {
            let wanted = (f64::from(scale) * factor).round().max(1.0);
            assert_eq!(f64::from(screen_scale(scale_120, scale)), wanted.min(f64::from(i32::MAX)));
        }
    }
}

fn screen_scale(scale_120: u32, scale: u32) -> u32 {
    scaled(scale_120).pixel_scale(scale)
}

#[test]
fn sprites_are_placed_to_the_nearest_device_pixel() {
    for scale_120 in [60, 90, 110, 120, 132, 150, 173, 180, 240, 359] {
        let factor = f64::from(scale_120) / 120.0;
        for x in (-2000..2000).chain([i32::MIN, i32::MAX]) {
            let placement = scaled(scale_120).place(1, 0, 0, x, -2).expect("drawable");
            assert_eq!(placement.target.x, (f64::from(x) * factor).round() as i32, "{x} at {scale_120}");
            assert_eq!(placement.target.y, (-2.0 * factor).round() as i32);
        }
    }
}

#[test]
fn a_buffer_is_never_too_small() {
    for scale_120 in 1..500i64 {
        let (width, _) = Screen { size: (1277, 1), ..scaled(scale_120 as u32) }.device_size();
        let (device, exact) = (120 * i64::from(width), 1277 * scale_120);
        assert!(exact <= device && device <= exact + 120, "{scale_120}");
    }
}

#[test]
fn the_halves_meet_at_the_seam_whatever_the_scales() {
    let mut overlay = Overlay::new(OverlayConfig::default(), true);
    let left = overlay.add_screen(10, Some("HDMI-A-1".to_owned()), Some((-1920, 0))).expect("left");
    let right = overlay.add_screen(11, Some("DP-1".to_owned()), Some((0, 200))).expect("right");
    overlay.configure(left, (1920, 1080));
    overlay.configure(right, (2560, 1440));
    overlay.prefer_scale(left, 132);
    overlay.prefer_scale(right, 173);
    for (x, y) in [(1919, 300), (1890, 333), (1905, 201), (1912, 1079)] {
        let placements = overlay.draw(&block(), x, y);
        for (i, place) in [(0, (x, y)), (1, (x - 1920, y - 200))] {
            let target = placements[i].expect("drawable").target;
            let scale = overlay.screens[i].scale_120 as i32;
            assert!((120 * target.x - place.0 * scale).abs() <= 60, "{x}");
            assert!((120 * target.y - place.1 * scale).abs() <= 60, "{y}");
        }
    }
}

#[test]
fn hitting_is_sharing_a_pixel() {
    let rect = Rect { x: -2, y: 3, width: 2, height: 2 };
    assert!(!rect.hits(10, 10));
    assert!(Rect { x: -1, ..rect }.hits(10, 10));
    assert!(Rect { x: 9, ..rect }.hits(10, 10));
    assert!(!Rect { x: 10, ..rect }.hits(10, 10));
    assert!(!Rect { x: 0, y: 10, ..rect }.hits(10, 10));
    // Nothing has no pixels.
    assert!(!Rect { x: 5, y: 5, width: 0, height: 3 }.hits(10, 10));
    assert!(!Rect { x: 5, y: 5, width: 3, height: 0 }.hits(10, 10));
    assert!(!Rect { x: -1, y: -1, width: 3, height: 3 }.hits(0, 10));
    assert!(!Rect { x: i32::MAX, y: 0, width: i32::MAX, height: 1 }.hits(10, 10));
}

#[test]
fn frames_alternate_between_two_buffers() {
    let mut screen = scaled(120);
    let here = screen.place(1, 32, 32, 5, 5).expect("drawable");
    let there = screen.place(1, 32, 32, 50, 50).expect("drawable");
    let away = screen.place(1, 32, 32, 5000, 5).expect("drawable");
    // Nowhere near, and never was.
    assert_eq!(screen.begin_frame(&away, true, true), Frame::Untouched);
    // No buffers yet.
    assert_eq!(screen.begin_frame(&here, true, true), Frame::Busy);
    screen.allocated(Side::First);
    screen.allocated(Side::Second);
    assert_eq!(
        screen.begin_frame(&here, true, true),
        Frame::Paint { side: Side::First, stale: (None, None) },
    );
    assert_eq!(
        screen.begin_frame(&there, false, true),
        Frame::Paint { side: Side::Second, stale: (None, Some(here.target)) },
    );
    // The other one is taken if the preferred one is still held.
    assert_eq!(screen.begin_frame(&here, false, false), Frame::Busy);
    assert_eq!(
        screen.begin_frame(&away, false, true),
        Frame::Paint { side: Side::Second, stale: (Some(there.target), Some(here.target)) },
    );
    assert_eq!(
        screen.begin_frame(&away, true, true),
        Frame::Paint { side: Side::First, stale: (Some(here.target), Some(away.target)) },
    );
    // Both buffers have been wiped: nothing left to do here.
    assert_eq!(screen.begin_frame(&away, true, true), Frame::Untouched);
    screen.lost(Side::First);
    assert!(!screen.slots.first.allocated);
}

#[test]
fn an_empty_sprite_touches_nothing() {
    let mut screen = scaled(120);
    screen.allocated(Side::First);
    screen.allocated(Side::Second);
    let nothing = screen.place(1, 0, 32, 5, 5).expect("drawable");
    assert_eq!(screen.begin_frame(&nothing, true, true), Frame::Untouched);
    assert_eq!(screen.next_slot, Side::First);
    assert_eq!(screen.slots.first.last_drawn, None);
}

/// The buffers of a screen after a frame, painted as the screen says.
fn paint(screen: &mut Screen, buffers: &mut [Vec<u32>; 2], x: i32, y: i32) -> Option<usize> {
    let palette = Palette { background: 7, outline: 9 };
    let placement = screen.place(1, 2, 2, x, y).expect("drawable");
    let (width, height) = placement.device_size;
    for (index, side) in [Side::First, Side::Second].into_iter().enumerate() {
        if !screen.slots.get(side).allocated {
            buffers[index] = vec![0; (width * height) as usize];
            screen.allocated(side);
        }
    }
    match screen.begin_frame(&placement, true, true) {
        Frame::Paint { side, stale } => {
            let index = if side == Side::First { 0 } else { 1 };
            let mut canvas = Canvas { pixels: &mut buffers[index], stride: width as usize };
            repaint(&mut canvas, stale, &block(), &placement, palette);
            Some(index)
        }
        _ => None,
    }
}

#[test]
fn every_frame_shows_the_sprite_alone() {
    let mut overlay = Overlay::new(OverlayConfig::default(), true);
    let id = overlay.add_screen(1, None, None).expect("a screen");
    let mut buffers = [Vec::new(), Vec::new()];
    for (round, size) in [(8, 8), (8, 8), (6, 10)].into_iter().enumerate() {
        overlay.configure(id, size);
        if round == 2 {
            overlay.prefer_scale(id, 60);
        }
        for step in 0..6 {
            let screen = &mut overlay.screens[0];
            let (width, height) = screen.device_size();
            let target = screen.place(1, 2, 2, step, step).expect("drawable").target;
            if let Some(index) = paint(screen, &mut buffers, step, step) {
                assert_eq!(buffers[index].len(), (width * height) as usize);
                for (i, pixel) in buffers[index].iter().enumerate() {
                    let (x, y) = (i as i32 % width, i as i32 / width);
                    let inside = (target.x..target.x + 2).contains(&x)
                        && (target.y..target.y + 2).contains(&y);
                    assert_eq!(*pixel, if inside { 9 } else { 0 });
                }
            }
            if step == 3 {
                overlay.screens[0].lost(Side::Second);
            }
        }
    }
}

#[test]
fn clearing_is_clipped() {
    let mut pixels = vec![7u32; 16];
    clear(&mut Canvas { pixels: &mut pixels, stride: 4 }, Rect { x: -1, y: 2, width: 3, height: 9 });
    assert_eq!(pixels, [7, 7, 7, 7, 7, 7, 7, 7, 0, 0, 7, 7, 0, 0, 7, 7]);
}

fn at(x: i32, y: i32) -> Placement {
    Placement {
        device_size: (4, 4),
        pixel_scale: 1,
        target: Rect { x, y, width: 2, height: 2 },
    }
}

#[test]
fn a_frame_shows_the_sprite_alone() {
    let palette = Palette { background: 7, outline: 9 };
    let mut pixels = vec![0u32; 16];
    let mut canvas = Canvas { pixels: &mut pixels, stride: 4 };
    repaint(&mut canvas, (None, None), &block(), &at(0, 0), palette);
    repaint(&mut canvas, (Some(at(0, 0).target), None), &block(), &at(1, 1), palette);
    assert_eq!(pixels, [0, 0, 0, 0, 0, 9, 9, 0, 0, 9, 9, 0, 0, 0, 0, 0]);
}

#[test]
fn damage_covers_every_change() {
    let palette = Palette { background: 7, outline: 9 };
    // What is on screen, and the other buffer with an older frame.
    let mut shown = vec![0u32; 16];
    repaint(&mut Canvas { pixels: &mut shown, stride: 4 }, (None, None), &block(), &at(2, 0), palette);
    let mut next = vec![0u32; 16];
    repaint(&mut Canvas { pixels: &mut next, stride: 4 }, (None, None), &block(), &at(0, 0), palette);
    let stale = (Some(at(0, 0).target), Some(at(2, 0).target));
    repaint(&mut Canvas { pixels: &mut next, stride: 4 }, stale, &block(), &at(2, 2), palette);
    let damaged = |x: usize, y: usize| {
        [at(2, 0).target, at(2, 2).target].iter().any(|rect| {
            let (x, y) = (x as i32, y as i32);
            rect.x <= x && x < rect.x + rect.width && rect.y <= y && y < rect.y + rect.height
        })
    };
    for i in 0..16 {
        assert!(shown[i] == next[i] || damaged(i % 4, i / 4), "pixel {i}");
    }
    assert_ne!(shown, next);
}

#[test]
fn a_cursor_on_a_screen_is_in_the_layout() {
    let overlay = two_screens();
    let (origin, size) = (overlay.origin(), overlay.size());
    for cursor in [(-1920, 0), (-1, 1079), (0, 200), (2559, 1639)] {
        let (x, y) = (cursor.0 - origin.0, cursor.1 - origin.1);
        assert!(0 <= x && x < size.0 && 0 <= y && y < size.1, "{cursor:?}");
    }
}

/// Bytes that are not aligned to a pixel, at an offset from some that are.
fn repaint_at(bytes: &mut [u8], offset: usize, length: usize) -> Result<(), CastError> {
    let start = bytes.as_ptr().align_offset(4) + offset;
    repaint_bytes(
        &mut bytes[start..start + length],
        4,
        (None, None),
        &block(),
        &at(3, 0),
        Palette { background: 0, outline: 0x1122_3344 },
    )
}

#[test]
fn a_frame_is_painted_into_bytes() {
    let mut bytes = vec![0xaau8; 72];
    let start = bytes.as_ptr().align_offset(4);
    assert_eq!(repaint_at(&mut bytes, 0, 64), Ok(()));
    let pixel = 0x1122_3344u32.to_ne_bytes();
    assert_eq!(bytes[start + 12..start + 16], pixel);
    assert_eq!(bytes[start + 28..start + 32], pixel);
    assert_eq!(bytes[start..start + 12], [0xaa; 12]);
    assert_eq!(bytes[start + 16..start + 28], [0xaa; 12]);
    assert_eq!(bytes[start + 32..start + 64], [0xaa; 32]);
}

#[test]
fn bytes_that_are_no_pixels_are_left_alone() {
    let mut bytes = vec![0xaau8; 72];
    assert_eq!(repaint_at(&mut bytes, 0, 63), Err(CastError::Ragged));
    assert_eq!(repaint_at(&mut bytes, 1, 64), Err(CastError::Misaligned));
    assert_eq!(bytes, [0xaa; 72]);
}
