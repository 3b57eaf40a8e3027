use ascii_campfire::badapple::BadApplePlayer;
use ascii_campfire::overlay::{format_time, render, render_clock, render_clock_at, render_quote, ClockReading};
use ascii_campfire::renderer::{Cell, Color, Renderer};
use ascii_campfire::scene::OverlayKind;

#[test]
fn format_time_pads_single_digits() {
    assert_eq!(format_time(1, 2, 3), "01:02:03");
}

#[test]
fn format_time_correct_length() {
    assert_eq!(format_time(12, 5, 9).len(), 8);
}

#[test]
fn format_time_keeps_wide_values() {
    assert_eq!(format_time(0, 59, 10), "00:59:10");
    assert_eq!(format_time(123, 0, 7), "123:00:07");
}

fn row_text(r: &Renderer, y: u16) -> String {
    (0..r.width()).map(|x| r.cell_at(x, y).ch).collect()
}

#[test]
fn quote_is_centred_on_fifth_row() {
    let mut r = Renderer::new_headless(20, 10);
    render_quote(&mut r, "hello");
    assert_eq!(row_text(&r, 2), "       hello        ");
    assert_eq!(r.cell_at(7, 2).color, Color::Rgb { r: 180, g: 160, b: 120 });
}

#[test]
fn clock_draws_time_and_date() {
    let mut r = Renderer::new_headless(20, 10);
    render_clock_at(&mut r, 9, 5, 0, "Apr 01 2026");
    assert_eq!(row_text(&r, 2), "      09:05:00      ");
    assert_eq!(row_text(&r, 3), "    Apr 01 2026     ");
    assert_eq!(r.cell_at(6, 2).color, Color::Cyan);
    assert_eq!(r.cell_at(4, 3).color, Color::DarkCyan);
}

#[test]
fn no_overlay_draws_nothing() {
    let mut r = Renderer::new_headless(8, 4);
    let mut none: Option<BadApplePlayer> = None;
    render(&mut r, OverlayKind::Nothing, &mut none, None);
    for y in 0..4 {
        assert_eq!(row_text(&r, y), "        ");
    }
}

#[test]
fn missing_animation_shows_hint() {
    let mut r = Renderer::new_headless(40, 6);
    let mut none: Option<BadApplePlayer> = None;
    render(&mut r, OverlayKind::BadApple, &mut none, None);
    assert_eq!(row_text(&r, 3), "     Place badapple.txt in assets/      ");
    assert!(none.is_none());
}

#[test]
fn animation_frame_is_centred_and_advances() {
    let mut p = Some(BadApplePlayer::from_text("ab\ncd\n---\nef").unwrap());
    let mut r = Renderer::new_headless(6, 4);
    r.put_str(0, 1, "######", Color::Red);
    render(&mut r, OverlayKind::BadApple, &mut p, None);
    assert_eq!(row_text(&r, 0), "      ");
    assert_eq!(row_text(&r, 1), "  ab  ");
    assert_eq!(row_text(&r, 2), "  cd  ");
    assert_eq!(r.cell_at(0, 1), Cell { ch: ' ', color: Color::Reset });
    assert_eq!(r.cell_at(2, 1), Cell { ch: 'a', color: Color::White });
    assert_eq!(p.as_ref().unwrap().current_lines(), &["ef"]);
}

#[test]
fn animation_frame_larger_than_screen_is_cut() {
    let mut p = Some(BadApplePlayer::from_text("abcdef\n123456\nxyz").unwrap());
    let mut r = Renderer::new_headless(4, 2);
    render(&mut r, OverlayKind::BadApple, &mut p, None);
    assert_eq!(row_text(&r, 0), "abcd");
    assert_eq!(row_text(&r, 1), "1234");
    // a single frame loops back onto itself
    assert_eq!(p.as_ref().unwrap().current_lines(), &["abcdef", "123456", "xyz"]);
}

fn at(year: i32, month: u32, day: u32, hour: u32, minute: u32, second: u32) -> ClockReading {
    ClockReading { hour, minute, second, year, month, day }
}

#[test]
fn clock_shows_given_time_and_date() {
    let mut r = Renderer::new_headless(30, 10);
    render_clock(&mut r, at(2026, 4, 1, 9, 5, 7));
    assert_eq!(row_text(&r, 2), "           09:05:07           ");
    assert_eq!(row_text(&r, 3), "         Apr 01 2026          ");
}

#[test]
fn clock_overlay_uses_the_reading_or_draws_nothing() {
    let mut none: Option<BadApplePlayer> = None;
    let mut r = Renderer::new_headless(30, 10);
    render(&mut r, OverlayKind::Clock, &mut none, Some(at(999, 12, 31, 23, 59, 0)));
    assert_eq!(row_text(&r, 2), "           23:59:00           ");
    assert_eq!(row_text(&r, 3), "         Dec 31 0999          ");
    let mut r2 = Renderer::new_headless(30, 10);
    render(&mut r2, OverlayKind::Clock, &mut none, None);
    assert_eq!(row_text(&r2, 2).trim(), "");
}

#[test]
fn clock_year_past_9999_has_a_sign() {
    let mut r = Renderer::new_headless(30, 10);
    render_clock(&mut r, at(12345, 6, 9, 0, 0, 0));
    assert_eq!(row_text(&r, 3).trim(), "Jun 09 +12345");
}

#[test]
fn clock_year_before_zero_has_a_minus_sign() {
    let mut r = Renderer::new_headless(30, 10);
    render_clock(&mut r, at(-4, 2, 29, 1, 2, 3));
    assert_eq!(row_text(&r, 3).trim(), "Feb 29 -0004");
}

#[test]
fn clock_leap_day_only_in_leap_years() {
    let mut r = Renderer::new_headless(30, 10);
    render_clock(&mut r, at(2024, 2, 29, 12, 0, 0));
    assert_eq!(row_text(&r, 3).trim(), "Feb 29 2024");
    let mut r2 = Renderer::new_headless(30, 10);
    render_clock(&mut r2, at(1900, 2, 29, 12, 0, 0));
    assert_eq!(row_text(&r2, 2).trim(), "12:00:00");
    assert_eq!(row_text(&r2, 3).trim(), "");
}

#[test]
fn clock_with_no_such_month_draws_only_the_time() {
    let mut r = Renderer::new_headless(30, 10);
    render_clock(&mut r, at(2026, 13, 1, 7, 8, 9));
    assert_eq!(row_text(&r, 2).trim(), "07:08:09");
    assert_eq!(row_text(&r, 3).trim(), "");
}
