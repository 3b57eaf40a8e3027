use ascii_campfire::ambient::{airplane_art_width, render_airplane, render_cat, render_figures, render_shooting_star};
use ascii_campfire::layout::{ground_y, render_base, render_hud, Stage};
use ascii_campfire::renderer::{Cell, Color, Renderer};
use ascii_campfire::scene::{scene_config, scene_for_key, SCENE_COUNT};

fn row_text(r: &Renderer, y: u16) -> String {
    (0..r.width()).map(|x| r.cell_at(x, y).ch).collect()
}

#[test]
fn hud_shows_scene_and_keys() {
    let mut r = Renderer::new_headless(40, 3);
    let cfg = scene_for_key('2').unwrap();
    render_hud(&mut r, &cfg, 1);
    assert_eq!(row_text(&r, 2), " [2] Bonfire         1-6:switch  q:quit ");
    assert_eq!(r.cell_at(1, 2).color, Color::DarkCyan);
    assert_eq!(r.cell_at(21, 2).color, Color::DarkGrey);
}

#[test]
fn hud_on_empty_screen_does_nothing() {
    let mut r = Renderer::new_headless(10, 0);
    let cfg = scene_for_key('1').unwrap();
    render_hud(&mut r, &cfg, 0);
    assert_eq!(r.height(), 0);
}

#[test]
fn base_art_is_centred_below_ground() {
    let mut r = Renderer::new_headless(20, 6);
    let cfg = scene_for_key('1').unwrap();
    render_base(&mut r, &cfg, 10, 2);
    assert_eq!(row_text(&r, 3), "       /\\/\\/\\       ");
    assert_eq!(row_text(&r, 4), "     /________\\     ");
    assert_eq!(r.cell_at(6, 3).color, Color::Rgb { r: 100, g: 70, b: 30 });
}

#[test]
fn figures_sit_beside_the_fire() {
    let mut r = Renderer::new_headless(30, 10);
    render_figures(&mut r, 15, 8);
    assert_eq!(row_text(&r, 6), "      o                   o   ");
    assert_eq!(row_text(&r, 8), "     / \\                 \\ /  ");
}

#[test]
fn right_figure_stays_inside_the_screen() {
    let mut r = Renderer::new_headless(20, 10);
    render_figures(&mut r, 15, 8);
    // 15 + 10 is past the edge: the figure is drawn from column 16
    assert_eq!(r.cell_at(17, 6).ch, 'o');
}

#[test]
fn cat_breathes_and_snores() {
    let mut r = Renderer::new_headless(40, 12);
    render_cat(&mut r, true, 0, 10, 6);
    assert_eq!(row_text(&r, 5).trim_end(), "                   /\\_/\\");
    assert_eq!(row_text(&r, 7).trim_end(), "                   (> <)_/");
    assert_eq!(r.cell_at(26, 4), Cell { ch: 'z', color: Color::DarkGrey });
    let mut r2 = Renderer::new_headless(40, 12);
    render_cat(&mut r2, false, 45, 10, 6);
    assert_eq!(row_text(&r2, 7).trim_end(), "                   ()_()_/");
    assert_eq!(row_text(&r2, 4).trim_end(), "                          zZz");
    let mut r3 = Renderer::new_headless(40, 12);
    render_cat(&mut r3, false, 60, 10, 6);
    assert_eq!(row_text(&r3, 4).trim(), "");
}

#[test]
fn airplane_is_clipped_at_the_left_edge() {
    assert_eq!(airplane_art_width(), 14);
    let mut r = Renderer::new_headless(10, 8);
    render_airplane(&mut r, -5, 1);
    assert_eq!(row_text(&r, 4), "##*+^^\\_\\ ");
    assert_eq!(r.cell_at(0, 4).color, Color::DarkGrey);
    // spaces in the picture are not drawn
    assert_eq!(r.cell_at(9, 4), Cell::default());
}

#[test]
fn shooting_star_draws_head_and_tail_on_screen_only() {
    let mut r = Renderer::new_headless(10, 5);
    render_shooting_star(&mut r, &[(4, 2), (3, 2), (2, 1), (-1, 1)]);
    assert_eq!(r.cell_at(4, 2), Cell { ch: '*', color: Color::White });
    assert_eq!(r.cell_at(3, 2), Cell { ch: '-', color: Color::Rgb { r: 200, g: 200, b: 255 } });
    assert_eq!(r.cell_at(2, 1), Cell { ch: '.', color: Color::DarkGrey });
    let mut r2 = Renderer::new_headless(10, 5);
    render_shooting_star(&mut r2, &[(12, 2), (9, -1)]);
    for y in 0..5 {
        assert_eq!(row_text(&r2, y), "          ");
    }
}

#[test]
fn stage_starts_on_the_first_scene_with_its_layout() {
    let s = Stage::new(80, 24);
    assert_eq!(s.scene, 0);
    assert_eq!(s.config.name, "Campfire");
    assert_eq!(s.ground, 24 * 720 / 1000);
    assert_eq!(s.base, 40);
}

#[test]
fn stage_switches_only_to_existing_scenes() {
    let mut s = Stage::new(80, 24);
    assert!(s.select_scene(2));
    assert_eq!(s.scene, 2);
    assert_eq!(s.config.name, scene_config(2).name);
    assert_eq!(s.ground, ground_y(24, &scene_config(2)));
    assert!(!s.select_scene(SCENE_COUNT));
    assert_eq!(s.scene, 2);
    assert_eq!((s.width, s.height), (80, 24));
}

#[test]
fn stage_resize_keeps_the_scene_and_moves_ground_and_base() {
    let mut s = Stage::new(80, 24);
    s.select_scene(1);
    s.resize(101, 50);
    assert_eq!(s.scene, 1);
    assert_eq!((s.width, s.height), (101, 50));
    assert_eq!(s.base, 50);
    assert_eq!(s.ground, ground_y(50, &scene_config(1)));
}
