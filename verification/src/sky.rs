use vstd::prelude::*;
use crate::renderer::{Renderer, Cell, Color, Glyph, glyph, draw, row_glyphs, cell_index, lemma_draw_append, lemma_draw_step, lemma_draw_run, lemma_draw_rows, lemma_draw_len};
use crate::scene::SkyVariant;

verus! {

/// Whether the star walk places a star at step `phase` (mod 10) of its pattern.
pub open spec fn star_pattern(phase: nat) -> bool {
    phase == 0 || phase == 3 || phase == 5 || phase == 9
}

/// Steps of 7 (mod 65536) from column `x` before the walk reaches column 65535.
pub open spec fn row_steps(x: u16) -> u64 {
    (((0xFFFF - x) * 28087) % 0x10000) as u64
}

proof fn lemma_row_steps_u64(x: u64)
    by (bit_vector)
    requires
        x < 0xFFFF,
    ensures
        (((0xFFFFu64 - x) as u64 * 28087u64) as u64 % 0x10000u64) as u64 > 0u64,
        (((0xFFFFu64 - ((x + 7u64) as u64 % 0x10000u64) as u64) as u64 * 28087u64) as u64
            % 0x10000u64) as u64 == ((((0xFFFFu64 - x) as u64 * 28087u64) as u64 % 0x10000u64) as u64
            - 1u64) as u64,
{
}

pub proof fn lemma_row_steps(x: u16)
    requires
        x != 0xFFFFu16,
    ensures
        row_steps(x) > 0,
        row_steps(((x + 7) % 0x10000) as u16) == row_steps(x) - 1,
{
    lemma_row_steps_u64(x as u64);
}

/// The star positions from the walk's state onwards: the walk starts at column 3,
/// row 1; at each step it places a star if the pattern says so, moves 7 columns right
/// (in `u16` arithmetic, which wraps), and when it reaches `width` goes to column
/// `x % 5 + 1` two rows down; it stops at row `limit`.
pub open spec fn star_walk(width: u16, limit: int, x: u16, y: int, phase: nat) -> Seq<(u16, u16)>
    decreases limit + 1 - y, row_steps(x),
{
    if y >= limit || x == 0xFFFF || phase >= 10 || y < 0 {
        Seq::empty()
    } else {
        let here = if star_pattern(phase) {
            seq![(x, y as u16)]
        } else {
            Seq::empty()
        };
        let nx = ((x as u32 + 7) % 0x10000) as u16;
        let np = (phase + 1) % 10;
        if nx >= width {
            here + star_walk(width, limit, ((nx % 5) + 1) as u16, y + 2, np)
        } else {
            proof {
                lemma_row_steps(x);
            }
            here + star_walk(width, limit, nx, y, np)
        }
    }
}

/// The stars for a sky of the given width above ground row `ground_y`.
pub open spec fn sky_stars(width: u16, ground_y: u16) -> Seq<(u16, u16)> {
    star_walk(width, sat_sub(ground_y as int, 2), 3, 1, 0)
}

/// `a - b`, or 0 when `b > a`.
pub open spec fn sat_sub(a: int, b: int) -> int {
    if a >= b {
        a - b
    } else {
        0
    }
}


/// Whether a star at column `x` is dimmed in animation frame `frame`: stars twinkle
/// every 30 frames, staggered by column.
pub open spec fn twinkle_dim(x: u16, frame: u64) -> bool {
    (x + frame / 30) % 3 == 0
}

/// The stars, each a `*`, or a `.` while it is dimmed.
pub open spec fn star_glyphs(stars: Seq<(u16, u16)>, frame: u64) -> Seq<Glyph> {
    Seq::new(stars.len(), |i: int| star_glyph(stars[i], frame))
}

pub open spec fn star_glyph(star: (u16, u16), frame: u64) -> Glyph {
    glyph(star.0 as int, star.1 as int, if twinkle_dim(star.0, frame) { '.' } else { '*' }, Color::White)
}

/// The moon `(C)` at row 1, six columns from the right edge.
pub open spec fn moon_glyphs(width: u16) -> Seq<Glyph> {
    let mx = sat_sub(width as int, 6);
    seq![
        glyph(mx, 1, '(', Color::Yellow),
        glyph(mx + 1, 1, 'C', Color::Yellow),
        glyph(mx + 2, 1, ')', Color::Yellow),
    ]
}

/// The ground line: `_` along row `ground_y`.
pub open spec fn ground_glyphs(width: u16, ground_y: u16) -> Seq<Glyph> {
    row_glyphs(ground_y as int, width as int, '_', Color::DarkGrey)
}

pub open spec fn night_glyphs(stars: Seq<(u16, u16)>, width: u16, ground_y: u16, frame: u64) -> Seq<Glyph> {
    star_glyphs(stars, frame) + moon_glyphs(width) + ground_glyphs(width, ground_y)
}

/// The band of row `y` out of the six that span rows `0..ground_y`.
pub open spec fn dawn_band(y: int, ground_y: int) -> int {
    let b = y * 6 / (if ground_y > 1 { ground_y } else { 1 });
    if b < 5 {
        b
    } else {
        5
    }
}

/// The colour and character of each dawn band, from dark blue at the top to orange
/// at the horizon.
pub open spec fn dawn_style(band: int) -> (Color, char) {
    if band <= 1 {
        (Color::DarkBlue, ' ')
    } else if band == 2 {
        (Color::Blue, '~')
    } else if band == 3 {
        (Color::Rgb { r: 100, g: 60, b: 20 }, '-')
    } else if band == 4 {
        (Color::Rgb { r: 180, g: 80, b: 20 }, '-')
    } else {
        (Color::Rgb { r: 220, g: 120, b: 40 }, '~')
    }
}

pub open spec fn dawn_row(width: u16, ground_y: u16, y: int) -> Seq<Glyph> {
    let st = dawn_style(dawn_band(y, ground_y as int));
    row_glyphs(y, width as int, st.1, st.0)
}

pub open spec fn dawn_rows(width: u16, ground_y: u16) -> Seq<Seq<Glyph>> {
    Seq::new(ground_y as nat, |y: int| dawn_row(width, ground_y, y))
}

pub open spec fn dawn_glyphs(width: u16, ground_y: u16) -> Seq<Glyph> {
    dawn_rows(width, ground_y).flatten() + ground_glyphs(width, ground_y)
}

pub open spec fn overcast_rows(width: u16, ground_y: u16) -> Seq<Seq<Glyph>> {
    Seq::new(ground_y as nat, |y: int| row_glyphs(y, width as int, ' ', Color::DarkGrey))
}

pub open spec fn overcast_glyphs(width: u16, ground_y: u16) -> Seq<Glyph> {
    overcast_rows(width, ground_y).flatten() + ground_glyphs(width, ground_y)
}

/// What the sky of each variant draws; an indoor sky draws nothing.
pub open spec fn sky_glyphs(stars: Seq<(u16, u16)>, width: u16, variant: SkyVariant, ground_y: u16, frame: u64) -> Seq<Glyph> {
    match variant {
        SkyVariant::Night => night_glyphs(stars, width, ground_y, frame),
        SkyVariant::Dawn => dawn_glyphs(width, ground_y),
        SkyVariant::Overcast => overcast_glyphs(width, ground_y),
        SkyVariant::Indoor => Seq::empty(),
    }
}

fn dawn_band_of(y: u16, ground_y: u16) -> (b: usize)
    requires
        y < ground_y,
    ensures
        b == dawn_band(y as int, ground_y as int),
        b <= 5,
{
    let rows: usize = if ground_y as usize > 1 {
        ground_y as usize
    } else {
        1
    };
    let b = (y as usize) * 6 / rows;
    if b < 5 {
        b
    } else {
        5
    }
}

fn dawn_band_style(band: usize) -> (s: (Color, char))
    ensures
        s == dawn_style(band as int),
{
    if band <= 1 {
        (Color::DarkBlue, ' ')
    } else if band == 2 {
        (Color::Blue, '~')
    } else if band == 3 {
        (Color::Rgb { r: 100, g: 60, b: 20 }, '-')
    } else if band == 4 {
        (Color::Rgb { r: 180, g: 80, b: 20 }, '-')
    } else {
        (Color::Rgb { r: 220, g: 120, b: 40 }, '~')
    }
}

/// The sky's star field, fixed for a screen size so that stars do not move.
pub struct SkyState {
    stars: Vec<(u16, u16)>,
    width: u16,
    height: u16,
}

impl SkyState {
    pub closed spec fn stars(&self) -> Seq<(u16, u16)> {
        self.stars@
    }

    pub closed spec fn sky_width(&self) -> u16 {
        self.width
    }

    pub closed spec fn sky_height(&self) -> u16 {
        self.height
    }

    /// The star field for a `width` x `height` screen whose ground is row `ground_y`.
    pub fn new(width: u16, height: u16, ground_y: u16) -> (s: Self)
        ensures
            s.stars() == sky_stars(width, ground_y),
            s.sky_width() == width,
            s.sky_height() == height,
    {
        let limit = ground_y.saturating_sub(2);
        let mut stars: Vec<(u16, u16)> = Vec::new();
        let mut x: u16 = 3;
        let mut y: u16 = 1;
        let mut phase: usize = 0;
        let ghost all = star_walk(width, limit as int, 3, 1, 0);
        assert(stars@ + star_walk(width, limit as int, x, y as int, phase as nat) =~= all);
        while y < limit
            invariant
                all == star_walk(width, limit as int, 3, 1, 0),
                stars@ + star_walk(width, limit as int, x, y as int, phase as nat) == all,
                x != 0xFFFF,
                phase < 10,
                1 <= y,
                limit <= 0xFFFD,
            decreases limit + 1 - y, row_steps(x),
        {
            let ghost before = stars@;
            let ghost rest = star_walk(width, limit as int, x, y as int, phase as nat);
            if phase == 0 || phase == 3 || phase == 5 || phase == 9 {
                stars.push((x, y));
            }
            proof {
                lemma_row_steps(x);
            }
            x = ((x as u32 + 7) % 0x10000) as u16;
            if x >= width {
                x = (x % 5) + 1;
                y += 2;
            }
            phase = (phase + 1) % 10;
            proof {
                assert(before + rest =~= all);
                assert(stars@ + star_walk(width, limit as int, x, y as int, phase as nat) =~= all);
            }
        }
        assert(star_walk(width, limit as int, x, y as int, phase as nat) =~= Seq::<(u16, u16)>::empty());
        assert(stars@ =~= all);
        SkyState { stars, width, height }
    }

    /// Rebuilds the star field for a new screen size.
    pub fn resize(&mut self, width: u16, height: u16, ground_y: u16)
        ensures
            final(self).stars() == sky_stars(width, ground_y),
            final(self).sky_width() == width,
            final(self).sky_height() == height,
    {
        *self = SkyState::new(width, height, ground_y);
    }

    /// Draws the sky of the given variant above ground row `ground_y` for animation
    /// frame `frame`.
    pub fn render(&self, renderer: &mut Renderer, variant: SkyVariant, ground_y: u16, frame: u64)
        requires
            old(renderer).wf(),
        ensures
            final(renderer).wf(),
            final(renderer).w() == old(renderer).w(),
            final(renderer).h() == old(renderer).h(),
            final(renderer).shown() == old(renderer).shown(),
            final(renderer).cells() == draw(
                old(renderer).cells(),
                old(renderer).w(),
                old(renderer).h(),
                sky_glyphs(self.stars(), self.sky_width(), variant, ground_y, frame),
            ),
    {
        match variant {
            SkyVariant::Night => self.render_night(renderer, ground_y, frame),
            SkyVariant::Dawn => self.render_dawn(renderer, ground_y),
            SkyVariant::Overcast => self.render_overcast(renderer, ground_y),
            SkyVariant::Indoor => {
                assert(sky_glyphs(self.stars(), self.sky_width(), variant, ground_y, frame) =~= Seq::<
                    Glyph,
                >::empty());
            },
        }
    }

    fn render_night(&self, renderer: &mut Renderer, ground_y: u16, frame: u64)
        requires
            old(renderer).wf(),
        ensures
            final(renderer).wf(),
            final(renderer).w() == old(renderer).w(),
            final(renderer).h() == old(renderer).h(),
            final(renderer).shown() == old(renderer).shown(),
            final(renderer).cells() == draw(
                old(renderer).cells(),
                old(renderer).w(),
                old(renderer).h(),
                night_glyphs(self.stars(), self.sky_width(), ground_y, frame),
            ),
    {
        let ghost c0 = renderer.cells();
        let ghost w = renderer.w();
        let ghost h = renderer.h();
        let ghost sg = star_glyphs(self.stars(), frame);
        let n = self.stars.len();
        let mut i: usize = 0;
        assert(sg.take(0) =~= Seq::<Glyph>::empty());
        while i < n
            invariant
                renderer.wf(),
                renderer.w() == w,
                renderer.h() == h,
                renderer.shown() == old(renderer).shown(),
                c0 == old(renderer).cells(),
                sg == star_glyphs(self.stars(), frame),
                n == self.stars().len(),
                i <= n,
                renderer.cells() == draw(c0, w, h, sg.take(i as int)),
            decreases n - i,
        {
            let (x, y) = self.stars[i];
            let dim = (x as u64 + frame / 30) % 3 == 0;
            let ch = if dim {
                '.'
            } else {
                '*'
            };
            renderer.put(x, y, ch, Color::White);
            proof {
                lemma_draw_step(c0, w, h, sg, i as int);
            }
            i += 1;
        }
        assert(sg.take(n as int) =~= sg);
        let mx = self.width.saturating_sub(6);
        let ghost mg = moon_glyphs(self.sky_width());
        let ghost c1 = renderer.cells();
        assert(mx == sat_sub(self.width as int, 6));
        renderer.put(mx, 1, '(', Color::Yellow);
        assert(renderer.cells() == draw(c1, w, h, mg.take(1))) by {
            lemma_draw_step(c1, w, h, mg, 0);
            assert(mg.take(0) =~= Seq::<Glyph>::empty());
        }
        renderer.put(mx + 1, 1, 'C', Color::Yellow);
        assert(renderer.cells() == draw(c1, w, h, mg.take(2))) by {
            lemma_draw_step(c1, w, h, mg, 1);
        }
        renderer.put(mx + 2, 1, ')', Color::Yellow);
        assert(renderer.cells() == draw(c1, w, h, mg)) by {
            lemma_draw_step(c1, w, h, mg, 2);
            assert(mg.take(3) =~= mg);
        }
        proof {
            lemma_draw_append(c0, w, h, sg, mg);
        }
        renderer.fill_row(ground_y, self.width, '_', Color::DarkGrey);
        proof {
            lemma_draw_append(c0, w, h, sg + mg, row_glyphs(ground_y as int, self.width as int, '_', Color::DarkGrey));
        }
    }

    /// Fills rows `0..ground_y` band by band, then draws the ground line.
    fn render_dawn(&self, renderer: &mut Renderer, ground_y: u16)
        requires
            old(renderer).wf(),
        ensures
            final(renderer).wf(),
            final(renderer).w() == old(renderer).w(),
            final(renderer).h() == old(renderer).h(),
            final(renderer).shown() == old(renderer).shown(),
            final(renderer).cells() == draw(
                old(renderer).cells(),
                old(renderer).w(),
                old(renderer).h(),
                dawn_glyphs(self.sky_width(), ground_y),
            ),
    {
        let ghost c0 = renderer.cells();
        let ghost w = renderer.w();
        let ghost h = renderer.h();
        let ghost rows = dawn_rows(self.sky_width(), ground_y);
        let mut y: u16 = 0;
        assert(rows.take(0).flatten() =~= Seq::<Glyph>::empty());
        while y < ground_y
            invariant
                renderer.wf(),
                renderer.w() == w,
                renderer.h() == h,
                renderer.shown() == old(renderer).shown(),
                c0 == old(renderer).cells(),
                rows == dawn_rows(self.sky_width(), ground_y),
                y <= ground_y,
                renderer.cells() == draw(c0, w, h, rows.take(y as int).flatten()),
            decreases ground_y - y,
        {
            let band = dawn_band_of(y, ground_y);
            let (color, ch) = dawn_band_style(band);
            renderer.fill_row(y, self.width, ch, color);
            proof {
                assert(rows.take(y + 1) =~= rows.take(y as int).push(rows[y as int]));
                rows.take(y as int).lemma_flatten_push(rows[y as int]);
                lemma_draw_append(c0, w, h, rows.take(y as int).flatten(), rows[y as int]);
            }
            y += 1;
        }
        assert(rows.take(ground_y as int) =~= rows);
        renderer.fill_row(ground_y, self.width, '_', Color::DarkGrey);
        proof {
            lemma_draw_append(c0, w, h, rows.flatten(), row_glyphs(ground_y as int, self.width as int, '_', Color::DarkGrey));
        }
    }

    /// Fills rows `0..ground_y` with grey blanks, then draws the ground line.
    fn render_overcast(&self, renderer: &mut Renderer, ground_y: u16)
        requires
            old(renderer).wf(),
        ensures
            final(renderer).wf(),
            final(renderer).w() == old(renderer).w(),
            final(renderer).h() == old(renderer).h(),
            final(renderer).shown() == old(renderer).shown(),
            final(renderer).cells() == draw(
                old(renderer).cells(),
                old(renderer).w(),
                old(renderer).h(),
                overcast_glyphs(self.sky_width(), ground_y),
            ),
    {
        let ghost c0 = renderer.cells();
        let ghost w = renderer.w();
        let ghost h = renderer.h();
        let ghost rows = overcast_rows(self.sky_width(), ground_y);
        let mut y: u16 = 0;
        assert(rows.take(0).flatten() =~= Seq::<Glyph>::empty());
        while y < ground_y
            invariant
                renderer.wf(),
                renderer.w() == w,
                renderer.h() == h,
                renderer.shown() == old(renderer).shown(),
                c0 == old(renderer).cells(),
                rows == overcast_rows(self.sky_width(), ground_y),
                y <= ground_y,
                renderer.cells() == draw(c0, w, h, rows.take(y as int).flatten()),
            decreases ground_y - y,
        {
            renderer.fill_row(y, self.width, ' ', Color::DarkGrey);
            proof {
                assert(rows.take(y + 1) =~= rows.take(y as int).push(rows[y as int]));
                rows.take(y as int).lemma_flatten_push(rows[y as int]);
                lemma_draw_append(c0, w, h, rows.take(y as int).flatten(), rows[y as int]);
            }
            y += 1;
        }
        assert(rows.take(ground_y as int) =~= rows);
        renderer.fill_row(ground_y, self.width, '_', Color::DarkGrey);
        proof {
            lemma_draw_append(c0, w, h, rows.flatten(), row_glyphs(ground_y as int, self.width as int, '_', Color::DarkGrey));
        }
    }
}


proof fn lemma_walk_rows(width: u16, limit: int, x: u16, y: int, phase: nat)
    requires
        1 <= y,
        y % 2 == 1,
        limit <= 0xFFFD,
    ensures
        forall|i: int|
            0 <= i < star_walk(width, limit, x, y, phase).len() ==> {
                let s = #[trigger] star_walk(width, limit, x, y, phase)[i];
                &&& y <= s.1 < limit
                &&& s.1 % 2 == 1
                &&& (width > 5 && x < width ==> s.0 < width)
            },
        forall|i: int, j: int|
            0 <= i < j < star_walk(width, limit, x, y, phase).len() ==> (#[trigger] star_walk(
                width,
                limit,
                x,
                y,
                phase,
            )[i]).1 <= (#[trigger] star_walk(width, limit, x, y, phase)[j]).1,
    decreases limit + 1 - y, row_steps(x),
{
    let all = star_walk(width, limit, x, y, phase);
    if y >= limit || x == 0xFFFF || phase >= 10 || y < 0 {
    } else {
        let nx = ((x as u32 + 7) % 0x10000) as u16;
        let np = (phase + 1) % 10;
        let here = if star_pattern(phase) {
            seq![(x, y as u16)]
        } else {
            Seq::empty()
        };
        let (rx, ry) = if nx >= width {
            (((nx % 5) + 1) as u16, y + 2)
        } else {
            lemma_row_steps(x);
            (nx, y)
        };
        let rest = star_walk(width, limit, rx, ry, np);
        lemma_walk_rows(width, limit, rx, ry, np);
        assert(all == here + rest);
        assert forall|i: int| 0 <= i < all.len() implies {
            let s = #[trigger] all[i];
            &&& y <= s.1 < limit
            &&& s.1 % 2 == 1
            &&& (width > 5 && x < width ==> s.0 < width)
        } by {
            if i >= here.len() {
                assert(all[i] == rest[i - here.len()]);
            }
        }
        assert forall|i: int, j: int| 0 <= i < j < all.len() implies (#[trigger] all[i]).1 <= (
        #[trigger] all[j]).1 by {
            if i >= here.len() {
                assert(all[i] == rest[i - here.len()]);
            }
            assert(all[j] == rest[j - here.len()]);
        }
    }
}

/// Whether star `a` comes before star `b` in reading order: an earlier row, or the
/// same row further left.
pub open spec fn reads_before(a: (u16, u16), b: (u16, u16)) -> bool {
    a.1 < b.1 || (a.1 == b.1 && a.0 < b.0)
}

proof fn lemma_walk_order(width: u16, limit: int, x: u16, y: int, phase: nat)
    requires
        width <= 65528,
        1 <= x,
        x < width || x <= 5,
        limit <= 0xFFFD,
    ensures
        forall|i: int|
            0 <= i < star_walk(width, limit, x, y, phase).len() ==> {
                let s = #[trigger] star_walk(width, limit, x, y, phase)[i];
                &&& 1 <= s.0
                &&& (s.1 > y || (s.1 == y && s.0 >= x))
            },
        forall|i: int, j: int|
            0 <= i < j < star_walk(width, limit, x, y, phase).len() ==> reads_before(
                #[trigger] star_walk(width, limit, x, y, phase)[i],
                #[trigger] star_walk(width, limit, x, y, phase)[j],
            ),
    decreases limit + 1 - y, row_steps(x),
{
    let all = star_walk(width, limit, x, y, phase);
    if y >= limit || x == 0xFFFF || phase >= 10 || y < 0 {
    } else {
        let nx = ((x as u32 + 7) % 0x10000) as u16;
        assert(nx == x + 7);
        let np = (phase + 1) % 10;
        let here = if star_pattern(phase) {
            seq![(x, y as u16)]
        } else {
            Seq::empty()
        };
        let (rx, ry) = if nx >= width {
            (((nx % 5) + 1) as u16, y + 2)
        } else {
            lemma_row_steps(x);
            (nx, y)
        };
        let rest = star_walk(width, limit, rx, ry, np);
        lemma_walk_order(width, limit, rx, ry, np);
        assert(all == here + rest);
        assert forall|i: int| 0 <= i < all.len() implies {
            let s = #[trigger] all[i];
            &&& 1 <= s.0
            &&& (s.1 > y || (s.1 == y && s.0 >= x))
        } by {
            if i >= here.len() {
                assert(all[i] == rest[i - here.len()]);
            }
        }
        assert forall|i: int, j: int| 0 <= i < j < all.len() implies reads_before(
            #[trigger] all[i],
            #[trigger] all[j],
        ) by {
            assert(all[j] == rest[j - here.len()]);
            if i >= here.len() {
                assert(all[i] == rest[i - here.len()]);
            }
        }
    }
}

/// Every star lies in the sky, from row 1 down to (not including) the two rows above
/// the ground line, so stars never overlap the ground or the fire base; stars sit on
/// odd rows, within the screen's width when it is more than five columns, and come
/// row by row from the top. On a screen at most 65528 columns wide no star is in the
/// first column and the stars come in reading order, each once.
pub proof fn lemma_stars_above_ground(width: u16, ground_y: u16)
    ensures
        forall|i: int|
            0 <= i < sky_stars(width, ground_y).len() ==> {
                let s = #[trigger] sky_stars(width, ground_y)[i];
                &&& 1 <= s.1 && s.1 + 2 < ground_y
                &&& s.1 % 2 == 1
                &&& (width > 5 ==> s.0 < width)
            },
        forall|i: int, j: int|
            0 <= i < j < sky_stars(width, ground_y).len() ==> (#[trigger] sky_stars(width, ground_y)[i]).1
                <= (#[trigger] sky_stars(width, ground_y)[j]).1,
        width <= 65528 ==> forall|i: int|
            0 <= i < sky_stars(width, ground_y).len() ==> 1 <= (#[trigger] sky_stars(width, ground_y)[i]).0,
        width <= 65528 ==> forall|i: int, j: int|
            0 <= i < j < sky_stars(width, ground_y).len() ==> reads_before(
                #[trigger] sky_stars(width, ground_y)[i],
                #[trigger] sky_stars(width, ground_y)[j],
            ),
{
    lemma_walk_rows(width, sat_sub(ground_y as int, 2), 3, 1, 0);
    if width <= 65528 {
        lemma_walk_order(width, sat_sub(ground_y as int, 2), 3, 1, 0);
    }
}

/// The cell a dawn sky above ground row `g` shows on row `y < g`: six bands share the
/// sky rows in proportion, row `y` lying in band `6 * y / g` (the last band taking
/// the rounding): blank dark blue for the top two, then blue `~`, the two brown and
/// rust `-` bands, and the orange `~` band only where `6 * y >= 5 * g`.
pub open spec fn dawn_sky_cell(y: int, g: int) -> Cell {
    if 6 * y < 2 * g {
        Cell { ch: ' ', color: Color::DarkBlue }
    } else if 6 * y < 3 * g {
        Cell { ch: '~', color: Color::Blue }
    } else if 6 * y < 4 * g {
        Cell { ch: '-', color: Color::Rgb { r: 100, g: 60, b: 20 } }
    } else if 6 * y < 5 * g {
        Cell { ch: '-', color: Color::Rgb { r: 180, g: 80, b: 20 } }
    } else {
        Cell { ch: '~', color: Color::Rgb { r: 220, g: 120, b: 40 } }
    }
}

proof fn lemma_dawn_band_rows(y: int, g: int)
    requires
        0 <= y < g,
    ensures
        dawn_style(dawn_band(y, g)) == (dawn_sky_cell(y, g).color, dawn_sky_cell(y, g).ch),
{
    let d = if g > 1 { g } else { 1 };
    vstd::arithmetic::div_mod::lemma_fundamental_div_mod(6 * y, d);
    vstd::arithmetic::div_mod::lemma_mod_pos_bound(6 * y, d);
    let q = (6 * y) / d;
    let r = (6 * y) % d;
    assert(g == d || (g == 1 && y == 0));
    if g > 1 {
        assert((q <= 1 <==> 6 * y < 2 * g) && (q <= 2 <==> 6 * y < 3 * g) && (q <= 3 <==> 6 * y < 4 * g)
            && (q <= 4 <==> 6 * y < 5 * g)) by (nonlinear_arith)
            requires
                6 * y == g * q + r,
                0 <= r < g,
                g > 0,
        ;
    }
}

/// What a dawn sky leaves on the screen: across the sky's width, each row above the
/// ground row `g` shows its band (`dawn_sky_cell`), row `g` the ground line of `_`,
/// and every other cell keeps what it held.
pub proof fn lemma_dawn_cells(cells: Seq<Cell>, w: int, h: int, width: u16, g: u16, x: int, y: int)
    requires
        cells.len() == w * h,
        0 <= x < w,
        0 <= y < h,
    ensures
        draw(cells, w, h, dawn_glyphs(width, g))[cell_index(w, x, y)] == if x < width && y < g {
            dawn_sky_cell(y, g as int)
        } else if x < width && y == g {
            Cell { ch: '_', color: Color::DarkGrey }
        } else {
            cells[cell_index(w, x, y)]
        },
{
    let rows = dawn_rows(width, g);
    let ground = ground_glyphs(width, g);
    lemma_draw_append(cells, w, h, rows.flatten(), ground);
    let mid = draw(cells, w, h, rows.flatten());
    lemma_draw_rows(cells, w, h, rows, 0, x, y);
    lemma_draw_len(cells, w, h, rows.flatten());
    lemma_draw_run(mid, w, h, ground, 0, g as int, x, y);
    if y < g {
        lemma_draw_run(cells, w, h, rows[y], 0, y, x, y);
        lemma_dawn_band_rows(y, g as int);
    }
}

} // verus!
