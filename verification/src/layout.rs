use vstd::prelude::*;
use crate::renderer::{Renderer, Color, Glyph, draw, text_glyphs, lemma_draw_append};
use crate::scene::{SceneConfig, SCENE_COUNT, key_scene, scene_config, scene_for_key, scene_spec};
use crate::sky::sat_sub;
use crate::text::{decimal, push_decimal, string_from_chars};

verus! {

/// The ground row: the screen height scaled by the scene's fraction, rounded down.
pub fn ground_y(height: u16, config: &SceneConfig) -> (gy: u16)
    requires
        config.ground_y_permille <= 1000,
    ensures
        gy == height * config.ground_y_permille / 1000,
{
    proof {
        assert(height * config.ground_y_permille <= 65535 * 1000) by (nonlinear_arith)
            requires
                height <= 65535,
                config.ground_y_permille <= 1000,
        ;
        assert(height * config.ground_y_permille / 1000 <= height) by (nonlinear_arith)
            requires
                config.ground_y_permille <= 1000,
                height >= 0,
        ;
    }
    ((height as u64 * config.ground_y_permille as u64) / 1000) as u16
}

/// The column of the fire's base: the middle of the screen.
pub fn base_x(width: u16) -> (x: u16)
    ensures
        x == width / 2,
{
    width / 2
}

pub open spec fn base_color() -> Color {
    Color::Rgb { r: 100, g: 70, b: 30 }
}

/// The fire base's lines, each centred on column `bx`, from row `gy + 1` down.
pub open spec fn base_rows(art: Seq<&'static str>, bx: u16, gy: u16, w: int) -> Seq<Seq<Glyph>> {
    Seq::new(
        art.len(),
        |i: int|
            text_glyphs(
                sat_sub(bx as int, ((art[i].len() as u16) / 2) as int),
                gy + 1 + i,
                art[i]@,
                base_color(),
                w,
            ),
    )
}

/// Draws the scene's fire base under the fire.
pub fn render_base(renderer: &mut Renderer, config: &SceneConfig, bx: u16, gy: u16)
    requires
        old(renderer).wf(),
        gy + config.base_art@.len() <= u16::MAX,
    ensures
        final(renderer).wf(),
        final(renderer).w() == old(renderer).w(),
        final(renderer).h() == old(renderer).h(),
        final(renderer).shown() == old(renderer).shown(),
        final(renderer).cells() == draw(
            old(renderer).cells(),
            old(renderer).w(),
            old(renderer).h(),
            base_rows(config.base_art@, bx, gy, old(renderer).w()).flatten(),
        ),
{
    let ghost c0 = renderer.cells();
    let ghost wi = renderer.w();
    let ghost hi = renderer.h();
    let ghost rows = base_rows(config.base_art@, bx, gy, wi);
    let n = config.base_art.len();
    let mut i: usize = 0;
    assert(rows.take(0).flatten() =~= Seq::<Glyph>::empty());
    while i < n
        invariant
            renderer.wf(),
            renderer.w() == wi,
            renderer.h() == hi,
            renderer.shown() == old(renderer).shown(),
            c0 == old(renderer).cells(),
            rows == base_rows(config.base_art@, bx, gy, wi),
            n == config.base_art@.len(),
            gy + n <= u16::MAX,
            i <= n,
            renderer.cells() == draw(c0, wi, hi, rows.take(i as int).flatten()),
        decreases n - i,
    {
        let line = config.base_art[i];
        let x = bx.saturating_sub(line.len() as u16 / 2);
        renderer.put_str(x, gy + 1 + i as u16, line, Color::Rgb { r: 100, g: 70, b: 30 });
        proof {
            assert(rows.take(i + 1) =~= rows.take(i as int).push(rows[i as int]));
            rows.take(i as int).lemma_flatten_push(rows[i as int]);
            lemma_draw_append(c0, wi, hi, rows.take(i as int).flatten(), rows[i as int]);
        }
        i += 1;
    }
    assert(rows.take(n as int) =~= rows);
}

/// The key reminder at the bottom right of the screen.
pub const HUD_HINT: &'static str = "1-6:switch  q:quit";

/// The scene label: the scene's number in brackets, then its name.
pub open spec fn hud_label(active_idx: usize, name: Seq<char>) -> Seq<char> {
    seq!['['] + decimal(active_idx as nat + 1) + seq![']', ' '] + name
}

/// The status line on the bottom row: the scene label from column 1 and the key
/// reminder ending one column before the right edge. Nothing on a screen without rows.
pub open spec fn hud_glyphs(w: int, h: int, active_idx: usize, name: Seq<char>) -> Seq<Glyph> {
    if h == 0 {
        Seq::empty()
    } else {
        text_glyphs(1, h - 1, hud_label(active_idx, name), Color::DarkCyan, w) + text_glyphs(
            sat_sub(w, (((HUD_HINT.len() as u16) + 1) as u16) as int),
            h - 1,
            HUD_HINT@,
            Color::DarkGrey,
            w,
        )
    }
}

/// Draws the status line: the active scene's number and name, and the keys.
pub fn render_hud(renderer: &mut Renderer, config: &SceneConfig, active_idx: usize)
    requires
        old(renderer).wf(),
        active_idx < usize::MAX,
    ensures
        final(renderer).wf(),
        final(renderer).w() == old(renderer).w(),
        final(renderer).h() == old(renderer).h(),
        final(renderer).shown() == old(renderer).shown(),
        final(renderer).cells() == draw(
            old(renderer).cells(),
            old(renderer).w(),
            old(renderer).h(),
            hud_glyphs(old(renderer).w(), old(renderer).h(), active_idx, config.name@),
        ),
{
    let h = renderer.height();
    let w = renderer.width();
    if h == 0 {
        assert(hud_glyphs(w as int, h as int, active_idx, config.name@) =~= Seq::<Glyph>::empty());
        return ;
    }
    let ghost c0 = renderer.cells();
    let mut v: Vec<char> = Vec::new();
    v.push('[');
    push_decimal(&mut v, (active_idx + 1) as u64);
    v.push(']');
    v.push(' ');
    let name_chars = crate::text::chars_of(config.name);
    let mut i: usize = 0;
    let ghost v0 = v@;
    while i < name_chars.len()
        invariant
            v@ == v0 + name_chars@.take(i as int),
            i <= name_chars@.len(),
        decreases name_chars@.len() - i,
    {
        v.push(name_chars[i]);
        proof {
            assert(name_chars@.take(i + 1) =~= name_chars@.take(i as int).push(name_chars@[i as int]));
        }
        i += 1;
    }
    assert(name_chars@.take(name_chars@.len() as int) =~= name_chars@);
    assert(v@ =~= hud_label(active_idx, config.name@));
    let label = string_from_chars(&v);
    renderer.put_str(1, h - 1, label.as_str(), Color::DarkCyan);
    let hint = HUD_HINT;
    proof {
        reveal_strlit("1-6:switch  q:quit");
        assert(hint@.len() == 18);
        assert(vstd::string::is_ascii(hint));
        vstd::string::is_ascii_spec_bytes(hint);
        assert(hint.len() == 18);
    }
    let hx = w.saturating_sub(hint.len() as u16 + 1);
    renderer.put_str(hx, h - 1, hint, Color::DarkGrey);
    proof {
        lemma_draw_append(
            c0,
            w as int,
            h as int,
            text_glyphs(1, h - 1, hud_label(active_idx, config.name@), Color::DarkCyan, w as int),
            text_glyphs(hx as int, h - 1, HUD_HINT@, Color::DarkGrey, w as int),
        );
    }
}

/// What a key press does.
#[derive(Clone, Copy, Debug, PartialEq, Eq, Structural)]
pub enum KeyAction {
    Quit,
    SelectScene(usize),
    Ignore,
}

/// `q` or `Q` quits, as does `c` with Control; `1` to `6` select the scene of that
/// number (counting from 0 in the action); other keys do nothing.
pub open spec fn key_action_spec(ch: char, control: bool) -> KeyAction {
    if ch == 'q' || ch == 'Q' {
        KeyAction::Quit
    } else if ch == 'c' && control {
        KeyAction::Quit
    } else if '1' <= ch && ch <= '6' {
        KeyAction::SelectScene((ch as int - '1' as int) as usize)
    } else {
        KeyAction::Ignore
    }
}

/// The key bindings: `q` and `Q` quit whether or not Control is held, as does `c`
/// with Control; `1` to `6` select scenes 0 to 5; every other key does nothing.
pub proof fn lemma_key_bindings()
    ensures
        forall|control: bool|
            #[trigger] key_action_spec('q', control) == KeyAction::Quit && key_action_spec('Q', control)
                == KeyAction::Quit,
        key_action_spec('c', true) == KeyAction::Quit,
        key_action_spec('c', false) == KeyAction::Ignore,
        forall|ch: char, control: bool|
            '1' <= ch <= '6' ==> #[trigger] key_action_spec(ch, control) == KeyAction::SelectScene(
                (ch as int - '1' as int) as usize,
            ),
        forall|ch: char, control: bool|
            !(ch == 'q' || ch == 'Q' || (ch == 'c' && control) || ('1' <= ch <= '6')) ==> #[trigger] key_action_spec(ch, control)
                == KeyAction::Ignore,
{
}

/// What pressing character key `ch` does, `control` telling whether Control was held.
pub fn key_action(ch: char, control: bool) -> (a: KeyAction)
    ensures
        a == key_action_spec(ch, control),
        a matches KeyAction::SelectScene(i) ==> key_scene(ch) is Some,
        ch == 'q' || ch == 'Q' ==> a == KeyAction::Quit,
        ch == 'c' && control ==> a == KeyAction::Quit,
        '1' <= ch <= '6' ==> a == KeyAction::SelectScene((ch as int - '1' as int) as usize),
        !(ch == 'q' || ch == 'Q' || (ch == 'c' && control) || ('1' <= ch <= '6')) ==> a
            == KeyAction::Ignore,
{
    if ch == 'q' || ch == 'Q' {
        KeyAction::Quit
    } else if ch == 'c' && control {
        KeyAction::Quit
    } else if '1' <= ch && ch <= '6' {
        match scene_for_key(ch) {
            Some(_) => KeyAction::SelectScene((ch as u32 - '1' as u32) as usize),
            None => KeyAction::Ignore,
        }
    } else {
        KeyAction::Ignore
    }
}

/// What the frame loop keeps of the scene and the screen: the active scene and its
/// parameters, the screen size, the ground row and the fire's column.
#[derive(Clone, Copy, Debug)]
pub struct Stage {
    pub scene: usize,
    pub config: SceneConfig,
    pub width: u16,
    pub height: u16,
    pub ground: u16,
    pub base: u16,
}

impl Stage {
    /// The stage shows one of the scenes, with its parameters, and its ground row and
    /// fire column are those of its screen size.
    pub open spec fn laid_out(self) -> bool {
        &&& self.scene < SCENE_COUNT
        &&& self.config == scene_spec(self.scene as int)
        &&& self.ground == self.height * self.config.ground_y_permille / 1000
        &&& self.base == self.width / 2
    }

    fn layout(scene: usize, width: u16, height: u16) -> (s: Stage)
        requires
            scene < SCENE_COUNT,
        ensures
            s.laid_out(),
            s.scene == scene,
            s.width == width,
            s.height == height,
    {
        let config = scene_config(scene);
        assert(config.ground_y_permille <= 1000);
        let ground = ground_y(height, &config);
        let base = base_x(width);
        Stage { scene, config, width, height, ground, base }
    }

    /// The first scene on a screen of the given size.
    pub fn new(width: u16, height: u16) -> (s: Stage)
        ensures
            s.laid_out(),
            s.scene == 0,
            s.width == width,
            s.height == height,
    {
        Self::layout(0, width, height)
    }

    /// Switches to scene `i` where there is one, and says whether it did; otherwise
    /// the stage stays as it was.
    pub fn select_scene(&mut self, i: usize) -> (changed: bool)
        requires
            old(self).laid_out(),
        ensures
            final(self).laid_out(),
            changed == (i < SCENE_COUNT),
            changed ==> final(self).scene == i && final(self).width == old(self).width
                && final(self).height == old(self).height,
            !changed ==> *final(self) == *old(self),
    {
        if i < SCENE_COUNT {
            *self = Self::layout(i, self.width, self.height);
            true
        } else {
            false
        }
    }

    /// Takes a new screen size, keeping the scene.
    pub fn resize(&mut self, width: u16, height: u16)
        requires
            old(self).laid_out(),
        ensures
            final(self).laid_out(),
            final(self).scene == old(self).scene,
            final(self).width == width,
            final(self).height == height,
    {
        *self = Self::layout(self.scene, width, height);
    }
}

} // verus!
