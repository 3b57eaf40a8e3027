use vstd::prelude::*;
use vstd::utf8::encode_utf8;
use chrono::NaiveDate;
use crate::renderer::{Renderer, Cell, Color, Glyph, glyph, draw, text_glyphs, cell_index, lemma_draw_append, lemma_draw_step, lemma_draw_len, lemma_draw_run, lemma_draw_rows};
use crate::scene::OverlayKind;
use crate::sky::sat_sub;
use crate::text::{pad2, push_decimal, string_from_chars, chars_of, decimal};
use crate::badapple::BadApplePlayer;

verus! {

/// The clock text `HH:MM:SS`, each part at least two digits.
pub open spec fn time_text(h: u32, m: u32, s: u32) -> Seq<char> {
    pad2(h as nat) + seq![':'] + pad2(m as nat) + seq![':'] + pad2(s as nat)
}

proof fn lemma_pad2_len(n: nat)
    requires
        n < 100,
    ensures
        pad2(n).len() == 2,
{
    if n >= 10 {
        assert(decimal(n / 10).len() == 1);
    }
}

/// A time whose hours, minutes and seconds each have at most two digits is written
/// as exactly eight characters, `HH:MM:SS`, with `:` in the third and sixth places.
pub proof fn lemma_time_text_shape(h: u32, m: u32, s: u32)
    requires
        h < 100,
        m < 100,
        s < 100,
    ensures
        time_text(h, m, s).len() == 8,
        time_text(h, m, s)[2] == ':',
        time_text(h, m, s)[5] == ':',
{
    lemma_pad2_len(h as nat);
    lemma_pad2_len(m as nat);
    lemma_pad2_len(s as nat);
}

fn push_pad2(out: &mut Vec<char>, n: u32)
    ensures
        final(out)@ == old(out)@ + pad2(n as nat),
{
    if n < 10 {
        out.push('0');
    }
    push_decimal(out, n as u64);
    proof {
        assert(final(out)@ =~= old(out)@ + pad2(n as nat));
    }
}

/// Formats a time of day as `HH:MM:SS`.
pub fn format_time(h: u32, m: u32, s: u32) -> (t: String)
    ensures
        t@ == time_text(h, m, s),
{
    let mut v: Vec<char> = Vec::new();
    push_pad2(&mut v, h);
    v.push(':');
    push_pad2(&mut v, m);
    v.push(':');
    push_pad2(&mut v, s);
    assert(v@ =~= time_text(h, m, s));
    string_from_chars(&v)
}

/// Number of bytes of `s` in UTF-8, which `str::len` reports.
pub open spec fn byte_len(s: Seq<char>) -> usize {
    encode_utf8(s).len() as usize
}

/// The column at which a text of `len` bytes is centred on a screen `w` wide
/// (the length taken as a `u16`).
pub open spec fn centered_x(w: int, len: usize) -> int {
    sat_sub(w, (len as u16) as int) / 2
}

pub open spec fn quote_color() -> Color {
    Color::Rgb { r: 180, g: 160, b: 120 }
}

/// A quote centred on row `h / 5`.
pub open spec fn quote_glyphs(w: int, h: int, text: Seq<char>) -> Seq<Glyph> {
    text_glyphs(centered_x(w, byte_len(text)), h / 5, text, quote_color(), w)
}

/// The time centred on row `h / 5` and the date centred below it.
pub open spec fn clock_glyphs(w: int, h: int, time: Seq<char>, date: Seq<char>) -> Seq<Glyph> {
    text_glyphs(centered_x(w, byte_len(time)), h / 5, time, Color::Cyan, w) + text_glyphs(
        centered_x(w, byte_len(date)),
        h / 5 + 1,
        date,
        Color::DarkCyan,
        w,
    )
}

/// A reading of the local clock: the time of day and the calendar date.
#[derive(Clone, Copy, Debug)]
pub struct ClockReading {
    pub hour: u32,
    pub minute: u32,
    pub second: u32,
    pub year: i32,
    pub month: u32,
    pub day: u32,
}

/// The strftime pattern of the clock's date line, as in `Apr 01 2026`.
pub const DATE_PATTERN: &'static str = "%b %d %Y";

/// The characters of `DATE_PATTERN`.
pub open spec fn date_pattern() -> Seq<char> {
    seq!['%', 'b', ' ', '%', 'd', ' ', '%', 'Y']
}

/// Leap years of the proleptic Gregorian calendar.
pub open spec fn is_leap_year(y: int) -> bool {
    y % 4 == 0 && (y % 100 != 0 || y % 400 == 0)
}

pub open spec fn days_in_month(y: int, m: int) -> int {
    if m == 2 {
        if is_leap_year(y) {
            29
        } else {
            28
        }
    } else if m == 4 || m == 6 || m == 9 || m == 11 {
        30
    } else {
        31
    }
}

/// A day of the proleptic Gregorian calendar within chrono's years, from -262143
/// (262144 BCE) to 262142.
pub open spec fn is_calendar_date(y: i32, m: u32, d: u32) -> bool {
    &&& -262143 <= y <= 262142
    &&& 1 <= m <= 12
    &&& 1 <= d <= days_in_month(y as int, m as int)
}

/// The English abbreviation that `%b` writes for month `m` (1 to 12).
pub open spec fn month_abbrev(m: u32) -> Seq<char> {
    if m == 1 {
        seq!['J', 'a', 'n']
    } else if m == 2 {
        seq!['F', 'e', 'b']
    } else if m == 3 {
        seq!['M', 'a', 'r']
    } else if m == 4 {
        seq!['A', 'p', 'r']
    } else if m == 5 {
        seq!['M', 'a', 'y']
    } else if m == 6 {
        seq!['J', 'u', 'n']
    } else if m == 7 {
        seq!['J', 'u', 'l']
    } else if m == 8 {
        seq!['A', 'u', 'g']
    } else if m == 9 {
        seq!['S', 'e', 'p']
    } else if m == 10 {
        seq!['O', 'c', 't']
    } else if m == 11 {
        seq!['N', 'o', 'v']
    } else {
        seq!['D', 'e', 'c']
    }
}

/// `n` zero-padded to at least four digits.
pub open spec fn pad4(n: nat) -> Seq<char> {
    if n < 10 {
        seq!['0', '0', '0'] + decimal(n)
    } else if n < 100 {
        seq!['0', '0'] + decimal(n)
    } else if n < 1000 {
        seq!['0'] + decimal(n)
    } else {
        decimal(n)
    }
}

/// What `%Y` writes: four digits for the years 0 to 9999, otherwise a sign and at
/// least four digits.
pub open spec fn year_text(y: int) -> Seq<char> {
    if 0 <= y < 10000 {
        pad4(y as nat)
    } else if y > 0 {
        seq!['+'] + pad4(y as nat)
    } else {
        seq!['-'] + pad4((-y) as nat)
    }
}

/// A date as `%b %d %Y` writes it: month abbreviation, space, two-digit day, space,
/// year.
pub open spec fn date_text(y: i32, m: u32, d: u32) -> Seq<char> {
    month_abbrev(m) + seq![' '] + pad2(d as nat) + seq![' '] + year_text(y as int)
}

/// `NaiveDate::from_ymd_opt`, then `format` with the date pattern, as a `String`.
/// chrono gives no date where the day is not in its calendar (`is_calendar_date`);
/// for the others it writes the English month abbreviation, the zero-padded day and
/// the year (`date_text`).
#[verifier::external_body]
fn format_date(year: i32, month: u32, day: u32, pattern: &str) -> (s: Option<String>)
    requires
        pattern@ == date_pattern(),
    ensures
        s is Some <==> is_calendar_date(year, month, day),
        s matches Some(t) ==> t@ == date_text(year, month, day),
{
    match NaiveDate::from_ymd_opt(year, month, day) {
        Some(d) => Some(d.format(pattern).to_string()),
        None => None,
    }
}

/// The clock's date line for a reading: its date, or nothing where the reading names
/// no day of the calendar.
pub open spec fn date_line(c: ClockReading) -> Seq<char> {
    if is_calendar_date(c.year, c.month, c.day) {
        date_text(c.year, c.month, c.day)
    } else {
        Seq::empty()
    }
}

/// The glyphs of the clock for a reading.
pub open spec fn reading_glyphs(w: int, h: int, c: ClockReading) -> Seq<Glyph> {
    clock_glyphs(w, h, time_text(c.hour, c.minute, c.second), date_line(c))
}

/// Draws a quote centred near the top of the screen.
pub fn render_quote(renderer: &mut Renderer, text: &str)
    requires
        old(renderer).wf(),
    ensures
        final(renderer).wf(),
        final(renderer).w() == old(renderer).w(),
        final(renderer).h() == old(renderer).h(),
        final(renderer).shown() == old(renderer).shown(),
        final(renderer).cells() == draw(
            old(renderer).cells(),
            old(renderer).w(),
            old(renderer).h(),
            quote_glyphs(old(renderer).w(), old(renderer).h(), text@),
        ),
{
    let w = renderer.width();
    let h = renderer.height();
    let x = w.saturating_sub(text.len() as u16) / 2;
    let y = h / 5;
    renderer.put_str(x, y, text, Color::Rgb { r: 180, g: 160, b: 120 });
}

/// Draws the given time and date centred near the top of the screen.
pub fn render_clock_at(renderer: &mut Renderer, hour: u32, minute: u32, second: u32, date: &str)
    requires
        old(renderer).wf(),
    ensures
        final(renderer).wf(),
        final(renderer).w() == old(renderer).w(),
        final(renderer).h() == old(renderer).h(),
        final(renderer).shown() == old(renderer).shown(),
        final(renderer).cells() == draw(
            old(renderer).cells(),
            old(renderer).w(),
            old(renderer).h(),
            clock_glyphs(old(renderer).w(), old(renderer).h(), time_text(hour, minute, second), date@),
        ),
{
    let ghost c0 = renderer.cells();
    let time_str = format_time(hour, minute, second);
    let w = renderer.width();
    let h = renderer.height();
    let y = h / 5;
    let tx = w.saturating_sub(time_str.as_str().len() as u16) / 2;
    renderer.put_str(tx, y, time_str.as_str(), Color::Cyan);
    let dx = w.saturating_sub(date.len() as u16) / 2;
    renderer.put_str(dx, y + 1, date, Color::DarkCyan);
    proof {
        lemma_draw_append(
            c0,
            w as int,
            h as int,
            text_glyphs(tx as int, y as int, time_str@, Color::Cyan, w as int),
            text_glyphs(dx as int, y + 1, date@, Color::DarkCyan, w as int),
        );
    }
}

/// Draws the time of day and the date of a clock reading centred near the top of the
/// screen.
pub fn render_clock(renderer: &mut Renderer, c: ClockReading)
    requires
        old(renderer).wf(),
    ensures
        final(renderer).wf(),
        final(renderer).w() == old(renderer).w(),
        final(renderer).h() == old(renderer).h(),
        final(renderer).shown() == old(renderer).shown(),
        final(renderer).cells() == draw(
            old(renderer).cells(),
            old(renderer).w(),
            old(renderer).h(),
            reading_glyphs(old(renderer).w(), old(renderer).h(), c),
        ),
{
    let pattern = DATE_PATTERN;
    proof {
        reveal_strlit("%b %d %Y");
        assert(pattern@ =~= date_pattern());
    }
    match format_date(c.year, c.month, c.day, pattern) {
        Some(date) => render_clock_at(renderer, c.hour, c.minute, c.second, date.as_str()),
        None => {
            let empty = "";
            proof {
                reveal_strlit("");
                assert(empty@ =~= date_line(c));
            }
            render_clock_at(renderer, c.hour, c.minute, c.second, empty);
        },
    }
}

/// What the animation overlay shows while no animation file could be loaded.
pub const BADAPPLE_HINT: &'static str = "Place badapple.txt in assets/";

/// The hint centred on the middle row.
pub open spec fn hint_glyphs(w: int, h: int) -> Seq<Glyph> {
    text_glyphs(centered_x(w, BADAPPLE_HINT.len()), h / 2, BADAPPLE_HINT@, Color::DarkGrey, w)
}

/// One line of an animation frame on row `row` of a screen `w` wide: the line centred
/// in white (cut at the right edge), then blanks in the default colour to the right of
/// it and to its left, so that nothing of an earlier frame stays on the row.
pub open spec fn frame_line_glyphs(line: Seq<char>, row: int, w: int) -> Seq<Glyph> {
    let lw = line.len() as int;
    let x_off = if w > lw { (w - lw) / 2 } else { 0 };
    let n = if lw <= w - x_off { lw } else { w - x_off };
    Seq::new(n as nat, |j: int| glyph(x_off + j, row, line[j], Color::White)) + Seq::new(
        sat_sub(w, x_off + lw) as nat,
        |k: int| glyph(x_off + lw + k, row, ' ', Color::Reset),
    ) + Seq::new(x_off as nat, |k: int| glyph(k, row, ' ', Color::Reset))
}

/// The rows of an animation frame that fit on an `h`-row screen, centred vertically.
pub open spec fn frame_rows(lines: Seq<Seq<char>>, w: int, h: int) -> Seq<Seq<Glyph>> {
    let y_off = if h > lines.len() { (h - lines.len()) / 2 } else { 0 };
    let n = if lines.len() <= h - y_off { lines.len() as int } else { h - y_off };
    Seq::new(n as nat, |i: int| frame_line_glyphs(lines[i], y_off + i, w))
}

pub open spec fn frame_glyphs(lines: Seq<Seq<char>>, w: int, h: int) -> Seq<Glyph> {
    frame_rows(lines, w, h).flatten()
}

fn draw_frame_line(renderer: &mut Renderer, line: &String, row: u16)
    requires
        old(renderer).wf(),
    ensures
        final(renderer).wf(),
        final(renderer).w() == old(renderer).w(),
        final(renderer).h() == old(renderer).h(),
        final(renderer).shown() == old(renderer).shown(),
        final(renderer).cells() == draw(
            old(renderer).cells(),
            old(renderer).w(),
            old(renderer).h(),
            frame_line_glyphs(line@, row as int, old(renderer).w()),
        ),
{
    let ghost c0 = renderer.cells();
    let ghost wi = renderer.w();
    let ghost hi = renderer.h();
    let w = renderer.width() as usize;
    let chars = chars_of(line.as_str());
    let line_w = chars.len();
    let x_off: usize = if w > line_w {
        (w - line_w) / 2
    } else {
        0
    };
    let n: usize = if line_w <= w - x_off {
        line_w
    } else {
        w - x_off
    };
    let ghost lw = line_w as int;
    let ghost ga = Seq::new(n as nat, |j: int| glyph(x_off + j, row as int, line@[j], Color::White));
    let ghost gb = Seq::new(
        sat_sub(wi, x_off + lw) as nat,
        |k: int| glyph(x_off + lw + k, row as int, ' ', Color::Reset),
    );
    let ghost gc = Seq::new(x_off as nat, |k: int| glyph(k, row as int, ' ', Color::Reset));
    assert(frame_line_glyphs(line@, row as int, wi) == ga + gb + gc);
    // the line itself
    let mut j: usize = 0;
    assert(ga.take(0) =~= Seq::<Glyph>::empty());
    while j < n
        invariant
            renderer.wf(),
            renderer.w() == wi,
            renderer.h() == hi,
            renderer.shown() == old(renderer).shown(),
            c0 == old(renderer).cells(),
            w == wi,
            chars@ == line@,
            n <= line_w,
            line_w == chars@.len(),
            x_off + n <= w,
            ga == Seq::new(n as nat, |j: int| glyph(x_off + j, row as int, line@[j], Color::White)),
            j <= n,
            renderer.cells() == draw(c0, wi, hi, ga.take(j as int)),
        decreases n - j,
    {
        renderer.put((x_off + j) as u16, row, chars[j], Color::White);
        proof {
            lemma_draw_step(c0, wi, hi, ga, j as int);
        }
        j += 1;
    }
    assert(ga.take(n as int) =~= ga);
    // blanks to the right
    let ghost c1 = renderer.cells();
    let filled = x_off + line_w;
    let mut col = filled;
    let ghost nb = sat_sub(wi, x_off + lw);
    assert(gb.take(0) =~= Seq::<Glyph>::empty());
    while col < w
        invariant
            renderer.wf(),
            renderer.w() == wi,
            renderer.h() == hi,
            renderer.shown() == old(renderer).shown(),
            w == wi,
            filled == x_off + lw,
            nb == sat_sub(wi, x_off + lw),
            gb == Seq::new(nb as nat, |k: int| glyph(x_off + lw + k, row as int, ' ', Color::Reset)),
            filled <= col,
            col <= w || col == filled,
            col < w ==> col - filled <= nb,
            renderer.cells() == draw(c1, wi, hi, gb.take(col - filled)),
        decreases w - col,
    {
        renderer.put(col as u16, row, ' ', Color::Reset);
        proof {
            lemma_draw_step(c1, wi, hi, gb, col - filled);
            assert(gb.take(col - filled + 1) == gb.take((col + 1) - filled));
        }
        col += 1;
    }
    proof {
        if filled < w {
            assert(col == w);
            assert(gb.take(col - filled) =~= gb);
        } else {
            assert(nb == 0);
            assert(gb.take(col - filled) =~= gb);
        }
        lemma_draw_append(c0, wi, hi, ga, gb);
    }
    // blanks to the left
    let ghost c2 = renderer.cells();
    let mut k: usize = 0;
    assert(gc.take(0) =~= Seq::<Glyph>::empty());
    while k < x_off
        invariant
            renderer.wf(),
            renderer.w() == wi,
            renderer.h() == hi,
            renderer.shown() == old(renderer).shown(),
            w == wi,
            x_off <= w,
            gc == Seq::new(x_off as nat, |k: int| glyph(k, row as int, ' ', Color::Reset)),
            k <= x_off,
            renderer.cells() == draw(c2, wi, hi, gc.take(k as int)),
        decreases x_off - k,
    {
        renderer.put(k as u16, row, ' ', Color::Reset);
        proof {
            lemma_draw_step(c2, wi, hi, gc, k as int);
        }
        k += 1;
    }
    assert(gc.take(x_off as int) =~= gc);
    proof {
        lemma_draw_append(c0, wi, hi, ga + gb, gc);
    }
}

/// Draws the animation's current frame centred on the screen and moves to the next
/// frame; without an animation, draws the hint of where to put its file.
pub fn render_badapple(renderer: &mut Renderer, player: &mut Option<BadApplePlayer>)
    requires
        old(renderer).wf(),
    ensures
        final(renderer).wf(),
        final(renderer).w() == old(renderer).w(),
        final(renderer).h() == old(renderer).h(),
        final(renderer).shown() == old(renderer).shown(),
        badapple_drawn(*old(player), *final(player), old(renderer).cells(), final(renderer).cells(), old(renderer).w(), old(renderer).h()),
{
    let w = renderer.width();
    let h = renderer.height();
    match player {
        None => {
            let msg = BADAPPLE_HINT;
            let x = w.saturating_sub(msg.len() as u16) / 2;
            renderer.put_str(x, h / 2, msg, Color::DarkGrey);
        },
        Some(p) => {
            let ghost c0 = renderer.cells();
            let ghost wi = renderer.w();
            let ghost hi = renderer.h();
            let lines = p.current_lines();
            let ghost lv = lines.deep_view();
            let ghost rows = frame_rows(lv, wi, hi);
            let frame_h = lines.len();
            let hu = h as usize;
            let y_off: usize = if hu > frame_h {
                (hu - frame_h) / 2
            } else {
                0
            };
            let n: usize = if frame_h <= hu - y_off {
                frame_h
            } else {
                hu - y_off
            };
            assert(rows.len() == n);
            let mut i: usize = 0;
            assert(rows.take(0).flatten() =~= Seq::<Glyph>::empty());
            while i < n
                invariant
                    renderer.wf(),
                    renderer.w() == wi,
                    renderer.h() == hi,
                    renderer.shown() == old(renderer).shown(),
                    c0 == old(renderer).cells(),
                    hu == hi,
                    lv == lines.deep_view(),
                    frame_h == lines@.len(),
                    rows == frame_rows(lv, wi, hi),
                    rows.len() == n,
                    y_off + n <= hu,
                    y_off == (if hi > lv.len() { (hi - lv.len()) / 2 } else { 0 }),
                    i <= n,
                    n <= frame_h,
                    renderer.cells() == draw(c0, wi, hi, rows.take(i as int).flatten()),
                decreases n - i,
            {
                let row = (y_off + i) as u16;
                draw_frame_line(renderer, &lines[i], row);
                proof {
                    assert(lv[i as int] == lines@[i as int]@);
                    assert(rows[i as int] == frame_line_glyphs(lines@[i as int]@, row as int, wi));
                    assert(rows.take(i + 1) =~= rows.take(i as int).push(rows[i as int]));
                    rows.take(i as int).lemma_flatten_push(rows[i as int]);
                    lemma_draw_append(c0, wi, hi, rows.take(i as int).flatten(), rows[i as int]);
                }
                i += 1;
            }
            assert(rows.take(n as int) =~= rows);
            p.advance();
        },
    }
}

/// What the animation overlay does: with no animation it draws the hint and stays
/// without one; with one it draws the current frame and moves to the next.
pub open spec fn badapple_drawn(before: Option<BadApplePlayer>, after: Option<BadApplePlayer>, c0: Seq<crate::renderer::Cell>, c1: Seq<crate::renderer::Cell>, w: int, h: int) -> bool {
    match before {
        None => after is None && c1 == draw(c0, w, h, hint_glyphs(w, h)),
        Some(p) => {
            &&& after is Some
            &&& after->0.frames() == p.frames()
            &&& after->0.current() == (p.current() + 1) % (p.frames().len() as int)
            &&& 0 <= p.current() < p.frames().len()
            &&& c1 == draw(c0, w, h, frame_glyphs(p.frames()[p.current()], w, h))
        },
    }
}


/// Draws the overlay of the given kind on top of the scene. Only the animation
/// overlay uses (and advances) `badapple`, and only the clock uses `clock`, the local
/// date and time read for this frame (without one the clock draws nothing).
pub fn render(
    renderer: &mut Renderer,
    kind: OverlayKind,
    badapple: &mut Option<BadApplePlayer>,
    clock: Option<ClockReading>,
)
    requires
        old(renderer).wf(),
    ensures
        final(renderer).wf(),
        final(renderer).w() == old(renderer).w(),
        final(renderer).h() == old(renderer).h(),
        final(renderer).shown() == old(renderer).shown(),
        match kind {
            OverlayKind::Nothing => final(renderer).cells() == old(renderer).cells() && *final(badapple)
                == *old(badapple),
            OverlayKind::Clock => *final(badapple) == *old(badapple) && match clock {
                None => final(renderer).cells() == old(renderer).cells(),
                Some(c) => final(renderer).cells() == draw(
                    old(renderer).cells(),
                    old(renderer).w(),
                    old(renderer).h(),
                    reading_glyphs(old(renderer).w(), old(renderer).h(), c),
                ),
            },
            OverlayKind::Quote(text) => *final(badapple) == *old(badapple) && final(renderer).cells()
                == draw(
                old(renderer).cells(),
                old(renderer).w(),
                old(renderer).h(),
                quote_glyphs(old(renderer).w(), old(renderer).h(), text@),
            ),
            OverlayKind::BadApple => badapple_drawn(
                *old(badapple),
                *final(badapple),
                old(renderer).cells(),
                final(renderer).cells(),
                old(renderer).w(),
                old(renderer).h(),
            ),
        },
{
    match kind {
        OverlayKind::Nothing => {},
        OverlayKind::Clock => match clock {
            Some(c) => render_clock(renderer, c),
            None => {},
        },
        OverlayKind::Quote(text) => render_quote(renderer, text),
        OverlayKind::BadApple => render_badapple(renderer, badapple),
    }
}

/// The cell in column `x` of a screen `w` wide on a row that shows the animation line
/// `line`: the line is centred (from column `(w - len) / 2` when it is narrower than
/// the screen, from column 0 otherwise) and each of its characters, spaces included,
/// is written in white; the rest of the row is blank in the default colour.
pub open spec fn frame_line_cell(line: Seq<char>, w: int, x: int) -> Cell {
    let lw = line.len() as int;
    let x_off = if w > lw { (w - lw) / 2 } else { 0 };
    if x_off <= x < x_off + lw {
        Cell { ch: line[x - x_off], color: Color::White }
    } else {
        Cell { ch: ' ', color: Color::Reset }
    }
}

proof fn lemma_frame_line_row(line: Seq<char>, row: int, w: int)
    ensures
        forall|j: int|
            0 <= j < frame_line_glyphs(line, row, w).len() ==> (#[trigger] frame_line_glyphs(line, row, w)[j]).y
                == row,
{
    let lw = line.len() as int;
    let x_off = if w > lw { (w - lw) / 2 } else { 0 };
    let n = if lw <= w - x_off { lw } else { w - x_off };
    let ga = Seq::new(n as nat, |j: int| glyph(x_off + j, row, line[j], Color::White));
    let gb = Seq::new(sat_sub(w, x_off + lw) as nat, |k: int| glyph(x_off + lw + k, row, ' ', Color::Reset));
    let gc = Seq::new(x_off as nat, |k: int| glyph(k, row, ' ', Color::Reset));
    let all = frame_line_glyphs(line, row, w);
    assert(all == ga + gb + gc);
    assert forall|j: int| 0 <= j < all.len() implies (#[trigger] all[j]).y == row by {
        if j < ga.len() {
            assert(all[j] == ga[j]);
        } else if j < ga.len() + gb.len() {
            assert(all[j] == gb[j - ga.len()]);
        } else {
            assert(all[j] == gc[j - ga.len() - gb.len()]);
        }
    }
}

/// Drawing one line of an animation frame on row `row` sets every cell of that row
/// to the centred line (`frame_line_cell`), whatever the row held, and leaves the
/// other rows alone.
pub proof fn lemma_frame_line_cells(cells: Seq<Cell>, w: int, h: int, line: Seq<char>, row: int, x: int, y: int)
    requires
        cells.len() == w * h,
        0 <= x < w,
        0 <= y < h,
    ensures
        draw(cells, w, h, frame_line_glyphs(line, row, w))[cell_index(w, x, y)] == if y == row {
            frame_line_cell(line, w, x)
        } else {
            cells[cell_index(w, x, y)]
        },
{
    let lw = line.len() as int;
    let x_off = if w > lw { (w - lw) / 2 } else { 0 };
    let n = if lw <= w - x_off { lw } else { w - x_off };
    let ga = Seq::new(n as nat, |j: int| glyph(x_off + j, row, line[j], Color::White));
    let gb = Seq::new(sat_sub(w, x_off + lw) as nat, |k: int| glyph(x_off + lw + k, row, ' ', Color::Reset));
    let gc = Seq::new(x_off as nat, |k: int| glyph(k, row, ' ', Color::Reset));
    assert(frame_line_glyphs(line, row, w) == ga + gb + gc);
    lemma_draw_append(cells, w, h, ga + gb, gc);
    lemma_draw_append(cells, w, h, ga, gb);
    let da = draw(cells, w, h, ga);
    let db = draw(da, w, h, gb);
    lemma_draw_len(cells, w, h, ga);
    lemma_draw_len(da, w, h, gb);
    lemma_draw_run(cells, w, h, ga, x_off, row, x, y);
    lemma_draw_run(da, w, h, gb, x_off + lw, row, x, y);
    lemma_draw_run(db, w, h, gc, 0, row, x, y);
}

/// What drawing an animation frame leaves on the screen: the frame's lines are
/// centred vertically (from row `(h - lines) / 2` when the frame is shorter than the
/// screen, from row 0 otherwise), every cell of each of their rows holds the centred
/// line (`frame_line_cell`), spaces included, whatever it held before, and the other
/// rows keep what they held.
pub proof fn lemma_frame_cells(cells: Seq<Cell>, w: int, h: int, lines: Seq<Seq<char>>, x: int, y: int)
    requires
        cells.len() == w * h,
        0 <= x < w,
        0 <= y < h,
    ensures
        ({
            let y_off = if h > lines.len() { (h - lines.len()) / 2 } else { 0 };
            draw(cells, w, h, frame_glyphs(lines, w, h))[cell_index(w, x, y)] == if y_off <= y < y_off
                + lines.len() {
                frame_line_cell(lines[y - y_off], w, x)
            } else {
                cells[cell_index(w, x, y)]
            }
        }),
{
    let y_off = if h > lines.len() { (h - lines.len()) / 2 } else { 0 };
    let rows = frame_rows(lines, w, h);
    assert forall|i: int, j: int| 0 <= i < rows.len() && 0 <= j < rows[i].len() implies (
    #[trigger] rows[i][j]).y == y_off + i by {
        lemma_frame_line_row(lines[i], y_off + i, w);
    }
    lemma_draw_rows(cells, w, h, rows, y_off, x, y);
    if y_off <= y < y_off + rows.len() {
        lemma_frame_line_cells(cells, w, h, lines[y - y_off], y, x, y);
    }
}

} // verus!
