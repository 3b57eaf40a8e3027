use vstd::prelude::*;
use crate::renderer::{Renderer, Color, Glyph, glyph, draw, text_glyphs, lemma_draw_append, lemma_draw_step};
use crate::sky::sat_sub;
use crate::text::chars_of;
use crate::scene::SkyVariant;

verus! {

// ── Seated figures ─────────────────────────────────────────────────────────

pub open spec fn figure_left_spec() -> Seq<&'static str> {
    seq![" o ", "/|\\", "/ \\"]
}

pub open spec fn figure_right_spec() -> Seq<&'static str> {
    seq![" o ", "/|\\", "\\ /"]
}

/// The figure seated left of the fire.
pub fn figure_left() -> (a: &'static [&'static str])
    ensures
        a@ == figure_left_spec(),
{
    let a: &'static [&'static str] = &[" o ", "/|\\", "/ \\"];
    assert(a@ =~= figure_left_spec());
    a
}

/// The figure seated right of the fire.
pub fn figure_right() -> (a: &'static [&'static str])
    ensures
        a@ == figure_right_spec(),
{
    let a: &'static [&'static str] = &[" o ", "/|\\", "\\ /"];
    assert(a@ =~= figure_right_spec());
    a
}

/// The rows of some ASCII art drawn in `color` from column `x`, row `y` down.
pub open spec fn art_rows(art: Seq<&'static str>, x: int, y: int, color: Color, w: int) -> Seq<Seq<Glyph>> {
    Seq::new(art.len(), |i: int| text_glyphs(x, y + i, art[i]@, color, w))
}

/// Draws ASCII art line by line from column `x`, row `y` down.
fn draw_art(renderer: &mut Renderer, art: &[&'static str], x: u16, y: u16, color: Color)
    requires
        old(renderer).wf(),
        y + art@.len() <= u16::MAX + 1,
    ensures
        final(renderer).wf(),
        final(renderer).w() == old(renderer).w(),
        final(renderer).h() == old(renderer).h(),
        final(renderer).shown() == old(renderer).shown(),
        final(renderer).cells() == draw(
            old(renderer).cells(),
            old(renderer).w(),
            old(renderer).h(),
            art_rows(art@, x as int, y as int, color, old(renderer).w()).flatten(),
        ),
{
    let ghost c0 = renderer.cells();
    let ghost wi = renderer.w();
    let ghost hi = renderer.h();
    let ghost rows = art_rows(art@, x as int, y as int, color, wi);
    let n = art.len();
    let mut i: usize = 0;
    assert(rows.take(0).flatten() =~= Seq::<Glyph>::empty());
    while i < n
        invariant
            renderer.wf(),
            renderer.w() == wi,
            renderer.h() == hi,
            renderer.shown() == old(renderer).shown(),
            c0 == old(renderer).cells(),
            rows == art_rows(art@, x as int, y as int, color, wi),
            n == art@.len(),
            y + n <= u16::MAX + 1,
            i <= n,
            renderer.cells() == draw(c0, wi, hi, rows.take(i as int).flatten()),
        decreases n - i,
    {
        renderer.put_str(x, y + i as u16, art[i], color);
        proof {
            assert(rows.take(i + 1) =~= rows.take(i as int).push(rows[i as int]));
            rows.take(i as int).lemma_flatten_push(rows[i as int]);
            lemma_draw_append(c0, wi, hi, rows.take(i as int).flatten(), rows[i as int]);
        }
        i += 1;
    }
    assert(rows.take(n as int) =~= rows);
}

/// Two seated figures, ten columns either side of the fire's base and two rows above
/// the ground; the right one kept four columns from the right edge.
pub open spec fn figures_glyphs(w: int, base_x: u16, ground_y: u16) -> Seq<Glyph> {
    let gy = sat_sub(ground_y as int, 2);
    let lx = sat_sub(base_x as int, 10);
    let rx = if base_x + 10 <= sat_sub(w, 4) { base_x + 10 } else { sat_sub(w, 4) };
    art_rows(figure_left_spec(), lx, gy, Color::DarkGrey, w).flatten() + art_rows(
        figure_right_spec(),
        rx,
        gy,
        Color::DarkGrey,
        w,
    ).flatten()
}

/// Draws the seated figures beside the fire.
pub fn render_figures(renderer: &mut Renderer, base_x: u16, ground_y: u16)
    requires
        old(renderer).wf(),
        base_x + 10 <= u16::MAX,
    ensures
        final(renderer).wf(),
        final(renderer).w() == old(renderer).w(),
        final(renderer).h() == old(renderer).h(),
        final(renderer).shown() == old(renderer).shown(),
        final(renderer).cells() == draw(
            old(renderer).cells(),
            old(renderer).w(),
            old(renderer).h(),
            figures_glyphs(old(renderer).w(), base_x, ground_y),
        ),
{
    let ghost c0 = renderer.cells();
    let w = renderer.width();
    let offset: u16 = 10;
    let lx = base_x.saturating_sub(offset);
    let gy = ground_y.saturating_sub(2);
    draw_art(renderer, figure_left(), lx, gy, Color::DarkGrey);
    let rx = if base_x + offset <= w.saturating_sub(4) {
        base_x + offset
    } else {
        w.saturating_sub(4)
    };
    draw_art(renderer, figure_right(), rx, gy, Color::DarkGrey);
    proof {
        lemma_draw_append(
            c0,
            w as int,
            renderer.h(),
            art_rows(figure_left_spec(), lx as int, gy as int, Color::DarkGrey, w as int).flatten(),
            art_rows(figure_right_spec(), rx as int, gy as int, Color::DarkGrey, w as int).flatten(),
        );
    }
}

// ── Sleeping cat ───────────────────────────────────────────────────────────

pub open spec fn cat_inhale_spec() -> Seq<&'static str> {
    seq![r" /\_/\ ", r"( -.- )", r" (> <)_/", r"  ~~~ "]
}

pub open spec fn cat_exhale_spec() -> Seq<&'static str> {
    seq![r" /\_/\ ", r"( -.- )", r" ()_()_/", r"  ~~~ "]
}

/// The cat breathing in.
pub fn cat_inhale() -> (a: &'static [&'static str])
    ensures
        a@ == cat_inhale_spec(),
{
    let a: &'static [&'static str] = &[r" /\_/\ ", r"( -.- )", r" (> <)_/", r"  ~~~ "];
    assert(a@ =~= cat_inhale_spec());
    a
}

/// The cat breathing out.
pub fn cat_exhale() -> (a: &'static [&'static str])
    ensures
        a@ == cat_exhale_spec(),
{
    let a: &'static [&'static str] = &[r" /\_/\ ", r"( -.- )", r" ()_()_/", r"  ~~~ "];
    assert(a@ =~= cat_exhale_spec());
    a
}

/// The snoring text, which cycles through `z`, `zZ`, `zZz` and nothing, each for 20
/// frames.
pub open spec fn snore_text(snore_frame: u64) -> Seq<char> {
    let phase = (snore_frame / 20) % 4;
    if phase == 0 {
        seq!['z']
    } else if phase == 1 {
        seq!['z', 'Z']
    } else if phase == 2 {
        seq!['z', 'Z', 'z']
    } else {
        Seq::empty()
    }
}

pub open spec fn cat_color() -> Color {
    Color::Rgb { r: 180, g: 140, b: 100 }
}

/// The cat lying on the ground eight columns right of the fire's base, its lowest row
/// on row `ground_y + 2`, and its snoring one row above it, eight columns to the right
/// (the column taken as a `u16`); the snoring is left out when the cat reaches row 0.
pub open spec fn cat_glyphs(w: int, inhale: bool, snore_frame: u64, base_x: u16, ground_y: u16) -> Seq<Glyph> {
    let art = if inhale { cat_inhale_spec() } else { cat_exhale_spec() };
    let cx = base_x + 8;
    let cy = sat_sub(ground_y + 3, 4);
    let body = art_rows(art, cx, cy, cat_color(), w).flatten();
    if cy >= 1 {
        body + text_glyphs((cx + 8) % 0x10000, cy - 1, snore_text(snore_frame), Color::DarkGrey, w)
    } else {
        body
    }
}

/// Draws the sleeping cat, breathing in or out, with its snoring.
pub fn render_cat(renderer: &mut Renderer, inhale: bool, snore_frame: u64, base_x: u16, ground_y: u16)
    requires
        old(renderer).wf(),
        base_x + 8 <= u16::MAX,
        ground_y + 3 <= u16::MAX,
    ensures
        final(renderer).wf(),
        final(renderer).w() == old(renderer).w(),
        final(renderer).h() == old(renderer).h(),
        final(renderer).shown() == old(renderer).shown(),
        final(renderer).cells() == draw(
            old(renderer).cells(),
            old(renderer).w(),
            old(renderer).h(),
            cat_glyphs(old(renderer).w(), inhale, snore_frame, base_x, ground_y),
        ),
{
    let ghost c0 = renderer.cells();
    let ghost wi = renderer.w();
    let ghost hi = renderer.h();
    let art = if inhale {
        cat_inhale()
    } else {
        cat_exhale()
    };
    let cx = base_x + 8;
    let base_bottom = ground_y + 3;
    let cy = base_bottom.saturating_sub(art.len() as u16);
    draw_art(renderer, art, cx, cy, Color::Rgb { r: 180, g: 140, b: 100 });
    let zzz_x: i32 = cx as i32 + 8;
    let zzz_y: i32 = cy as i32 - 1;
    if zzz_x >= 0 && zzz_y >= 0 {
        let phase = (snore_frame / 20) % 4;
        let txt = if phase == 0 {
            "z"
        } else if phase == 1 {
            "zZ"
        } else if phase == 2 {
            "zZz"
        } else {
            ""
        };
        proof {
            reveal_strlit("z");
            reveal_strlit("zZ");
            reveal_strlit("zZz");
            reveal_strlit("");
            assert(txt@ =~= snore_text(snore_frame));
        }
        let ghost c1 = renderer.cells();
        let zx = ((zzz_x as u32) % 0x10000) as u16;
        renderer.put_str(zx, zzz_y as u16, txt, Color::DarkGrey);
        proof {
            let art_s = if inhale {
                cat_inhale_spec()
            } else {
                cat_exhale_spec()
            };
            lemma_draw_append(
                c0,
                wi,
                hi,
                art_rows(art_s, cx as int, cy as int, cat_color(), wi).flatten(),
                text_glyphs(zx as int, zzz_y as int, txt@, Color::DarkGrey, wi),
            );
        }
    }
}

// ── Airplane ───────────────────────────────────────────────────────────────

pub open spec fn airplane_art_spec() -> Seq<&'static str> {
    seq![r"  __", r" \  \     _ _", r"  \**\ ___\/ \", r"X*#####*+^^\_\", r"  o/\  \", r"     \__\"]
}

/// The airplane's picture, row by row.
pub fn airplane_art() -> (a: &'static [&'static str])
    ensures
        a@ == airplane_art_spec(),
{
    let a: &'static [&'static str] = &[
        r"  __",
        r" \  \     _ _",
        r"  \**\ ___\/ \",
        r"X*#####*+^^\_\",
        r"  o/\  \",
        r"     \__\",
    ];
    assert(a@ =~= airplane_art_spec());
    a
}

/// The longest of the first `n` rows of `art`, in bytes.
pub open spec fn max_row_len(art: Seq<&'static str>, n: int) -> int
    decreases n,
{
    if n <= 0 {
        0
    } else {
        let m = max_row_len(art, n - 1);
        let l = art[n - 1].len() as int;
        if l > m {
            l
        } else {
            m
        }
    }
}

/// The width of the airplane's picture: its longest row, in bytes.
pub fn airplane_art_width() -> (w: usize)
    ensures
        w == max_row_len(airplane_art_spec(), airplane_art_spec().len() as int),
{
    let art = airplane_art();
    let mut m: usize = 0;
    let mut i: usize = 0;
    while i < art.len()
        invariant
            art@ == airplane_art_spec(),
            i <= art@.len(),
            m == max_row_len(art@, i as int),
        decreases art@.len() - i,
    {
        let l = art[i].len();
        if l > m {
            m = l;
        }
        i += 1;
    }
    m
}

/// A glyph that lands on no screen, for a character that is not drawn.
pub open spec fn skipped(y: int) -> Glyph {
    glyph(-1, y, ' ', Color::Reset)
}

/// The character at position `j` of row `i` of the airplane, drawn with its left edge
/// at column `sx` and its top at row `y`: spaces and columns left of the screen are
/// not drawn, and the column is taken as a `u16`.
pub open spec fn airplane_glyph(row: Seq<char>, sx: i32, y: int, j: int) -> Glyph {
    let col = sx + j;
    if row[j] != ' ' && col >= 0 {
        glyph(col % 0x10000, y, row[j], Color::DarkGrey)
    } else {
        skipped(y)
    }
}

pub open spec fn airplane_rows(sx: i32, y: u16) -> Seq<Seq<Glyph>> {
    let art = airplane_art_spec();
    Seq::new(
        art.len(),
        |i: int| Seq::new(art[i]@.len(), |j: int| airplane_glyph(art[i]@, sx, y + i, j)),
    )
}

/// Draws the airplane with its left edge at column `sx` (which may be off screen)
/// and its top at row `y`.
pub fn render_airplane(renderer: &mut Renderer, sx: i32, y: u16)
    requires
        old(renderer).wf(),
        y + 6 <= u16::MAX + 1,
        sx + 13 <= i32::MAX,
    ensures
        final(renderer).wf(),
        final(renderer).w() == old(renderer).w(),
        final(renderer).h() == old(renderer).h(),
        final(renderer).shown() == old(renderer).shown(),
        final(renderer).cells() == draw(
            old(renderer).cells(),
            old(renderer).w(),
            old(renderer).h(),
            airplane_rows(sx, y).flatten(),
        ),
{
    let ghost c0 = renderer.cells();
    let ghost wi = renderer.w();
    let ghost hi = renderer.h();
    let ghost rows = airplane_rows(sx, y);
    let art = airplane_art();
    let n = art.len();
    let mut i: usize = 0;
    assert(rows.take(0).flatten() =~= Seq::<Glyph>::empty());
    while i < n
        invariant
            renderer.wf(),
            renderer.w() == wi,
            renderer.h() == hi,
            renderer.shown() == old(renderer).shown(),
            c0 == old(renderer).cells(),
            rows == airplane_rows(sx, y),
            art@ == airplane_art_spec(),
            n == art@.len(),
            n == 6,
            y + 6 <= u16::MAX + 1,
            sx + 13 <= i32::MAX,
            i <= n,
            renderer.cells() == draw(c0, wi, hi, rows.take(i as int).flatten()),
        decreases n - i,
    {
        let row_y = y + i as u16;
        let chars = chars_of(art[i]);
        let ghost c1 = renderer.cells();
        let ghost gs = rows[i as int];
        proof {
            reveal_strlit(r"  __");
            reveal_strlit(r" \  \     _ _");
            reveal_strlit(r"  \**\ ___\/ \");
            reveal_strlit(r"X*#####*+^^\_\");
            reveal_strlit(r"  o/\  \");
            reveal_strlit(r"     \__\");
            assert(chars@.len() <= 14);
        }
        let m = chars.len();
        let mut j: usize = 0;
        assert(gs.take(0) =~= Seq::<Glyph>::empty());
        while j < m
            invariant
                renderer.wf(),
                renderer.w() == wi,
                renderer.h() == hi,
                renderer.shown() == old(renderer).shown(),
                chars@ == art@[i as int]@,
                m == chars@.len(),
                m <= 14,
                sx + 13 <= i32::MAX,
                gs == Seq::new(m as nat, |j: int| airplane_glyph(chars@, sx, row_y as int, j)),
                j <= m,
                renderer.cells() == draw(c1, wi, hi, gs.take(j as int)),
            decreases m - j,
        {
            let ch = chars[j];
            assert(j < 14);
            let col: i32 = sx + j as i32;
            if ch != ' ' && col >= 0 {
                let cu = ((col as u32) % 0x10000) as u16;
                if cu < renderer.width() {
                    renderer.put(cu, row_y, ch, Color::DarkGrey);
                }
            }
            proof {
                lemma_draw_step(c1, wi, hi, gs, j as int);
            }
            j += 1;
        }
        assert(gs.take(m as int) =~= gs);
        proof {
            assert(rows.take(i + 1) =~= rows.take(i as int).push(rows[i as int]));
            rows.take(i as int).lemma_flatten_push(rows[i as int]);
            lemma_draw_append(c0, wi, hi, rows.take(i as int).flatten(), rows[i as int]);
        }
        i += 1;
    }
    assert(rows.take(n as int) =~= rows);
}


// ── Shooting star ──────────────────────────────────────────────────────────

/// The look of point `i` of a shooting star: a white head, then a pale dash, then
/// grey dots.
pub open spec fn star_tail_style(i: int) -> (char, Color) {
    if i == 0 {
        ('*', Color::White)
    } else if i == 1 {
        ('-', Color::Rgb { r: 200, g: 200, b: 255 })
    } else {
        ('.', Color::DarkGrey)
    }
}

/// Point `i` of a shooting star at column and row `p`: points left of or above the
/// screen are not drawn, and the column and row are taken as `u16`.
pub open spec fn star_tail_glyph(i: int, p: (i32, i32)) -> Glyph {
    if p.0 < 0 || p.1 < 0 {
        skipped(0)
    } else {
        glyph(p.0 as int % 0x10000, p.1 as int % 0x10000, star_tail_style(i).0, star_tail_style(i).1)
    }
}

pub open spec fn star_tail_glyphs(tail: Seq<(i32, i32)>) -> Seq<Glyph> {
    Seq::new(tail.len(), |i: int| star_tail_glyph(i, tail[i]))
}

/// Draws a shooting star from the positions of its head and of the points of its tail.
pub fn render_shooting_star(renderer: &mut Renderer, tail: &[(i32, i32)])
    requires
        old(renderer).wf(),
    ensures
        final(renderer).wf(),
        final(renderer).w() == old(renderer).w(),
        final(renderer).h() == old(renderer).h(),
        final(renderer).shown() == old(renderer).shown(),
        final(renderer).cells() == draw(
            old(renderer).cells(),
            old(renderer).w(),
            old(renderer).h(),
            star_tail_glyphs(tail@),
        ),
{
    let ghost c0 = renderer.cells();
    let ghost wi = renderer.w();
    let ghost hi = renderer.h();
    let ghost gs = star_tail_glyphs(tail@);
    let mut i: usize = 0;
    assert(gs.take(0) =~= Seq::<Glyph>::empty());
    while i < tail.len()
        invariant
            renderer.wf(),
            renderer.w() == wi,
            renderer.h() == hi,
            renderer.shown() == old(renderer).shown(),
            c0 == old(renderer).cells(),
            gs == star_tail_glyphs(tail@),
            i <= tail@.len(),
            renderer.cells() == draw(c0, wi, hi, gs.take(i as int)),
        decreases tail@.len() - i,
    {
        let (col, row) = tail[i];
        if col >= 0 && row >= 0 {
            let cu = ((col as u32) % 0x10000) as u16;
            let ru = ((row as u32) % 0x10000) as u16;
            if cu < renderer.width() {
                let (ch, color) = if i == 0 {
                    ('*', Color::White)
                } else if i == 1 {
                    ('-', Color::Rgb { r: 200, g: 200, b: 255 })
                } else {
                    ('.', Color::DarkGrey)
                };
                renderer.put(cu, ru, ch, color);
            }
        }
        proof {
            lemma_draw_step(c0, wi, hi, gs, i as int);
        }
        i += 1;
    }
    assert(gs.take(tail@.len() as int) =~= gs);
}

// ── Which sky effects run ───────────────────────────────────────────────────

/// Airplanes fly in every scene that is not indoors.
pub fn airplane_in_sky(sky: SkyVariant) -> (b: bool)
    ensures
        b == (sky != SkyVariant::Indoor),
{
    sky != SkyVariant::Indoor
}

/// Shooting stars appear only in the night sky.
pub fn shooting_star_in_sky(sky: SkyVariant) -> (b: bool)
    ensures
        b == (sky == SkyVariant::Night),
{
    sky == SkyVariant::Night
}


/// What to do with the list of an ambient effect (fireflies, raindrops, the cat) when
/// the scene's flag for it is known.
#[derive(Clone, Copy, Debug, PartialEq, Eq, Structural)]
pub enum EffectAction {
    /// The effect is wanted and there is none: create it.
    Fill,
    /// The effect is not wanted: remove it.
    Clear,
    /// Keep what there is.
    Keep,
}

/// An effect the scene wants is created when there is none yet and otherwise kept as
/// it is; an effect the scene does not want is removed.
pub fn effect_action(wanted: bool, present: bool) -> (a: EffectAction)
    ensures
        a == (if wanted && !present {
            EffectAction::Fill
        } else if !wanted {
            EffectAction::Clear
        } else {
            EffectAction::Keep
        }),
{
    if wanted && !present {
        EffectAction::Fill
    } else if !wanted {
        EffectAction::Clear
    } else {
        EffectAction::Keep
    }
}

} // verus!
