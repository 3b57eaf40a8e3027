use ascii_campfire::renderer::{Cell, Color, Renderer};
use ascii_campfire::scene::SkyVariant;
use ascii_campfire::sky::SkyState;

fn row_text(r: &Renderer, y: u16) -> String {
    (0..r.width()).map(|x| r.cell_at(x, y).ch).collect()
}

#[test]
fn night_sky_has_stars_moon_and_ground() {
    let sky = SkyState::new(20, 10, 8);
    let mut r = Renderer::new_headless(20, 10);
    sky.render(&mut r, SkyVariant::Night, 8, 0);
    // the walk starts at (3, 1) with a star; 3 % 3 == 0 so it is dimmed at frame 0
    assert_eq!(r.cell_at(3, 1), Cell { ch: '.', color: Color::White });
    // moon at six columns from the right edge
    assert_eq!(r.cell_at(14, 1), Cell { ch: '(', color: Color::Yellow });
    assert_eq!(r.cell_at(15, 1).ch, 'C');
    assert_eq!(r.cell_at(16, 1).ch, ')');
    assert_eq!(row_text(&r, 8), "____________________");
    assert_eq!(r.cell_at(0, 8).color, Color::DarkGrey);
    // no star on or just above the ground
    assert_eq!(row_text(&r, 6).trim(), "");
    assert_eq!(row_text(&r, 7).trim(), "");
}

#[test]
fn stars_twinkle_with_frame() {
    let sky = SkyState::new(20, 10, 8);
    let mut r = Renderer::new_headless(20, 10);
    sky.render(&mut r, SkyVariant::Night, 8, 30);
    // frame 30: (3 + 1) % 3 != 0, so the star is bright
    assert_eq!(r.cell_at(3, 1).ch, '*');
}

#[test]
fn star_field_is_deterministic_and_rebuilt_on_resize() {
    let a = SkyState::new(40, 20, 15);
    let mut b = SkyState::new(10, 5, 4);
    b.resize(40, 20, 15);
    let mut ra = Renderer::new_headless(40, 20);
    let mut rb = Renderer::new_headless(40, 20);
    a.render(&mut ra, SkyVariant::Night, 15, 7);
    b.render(&mut rb, SkyVariant::Night, 15, 7);
    for y in 0..20 {
        assert_eq!(row_text(&ra, y), row_text(&rb, y));
    }
}

#[test]
fn dawn_sky_bands() {
    let sky = SkyState::new(4, 7, 6);
    let mut r = Renderer::new_headless(4, 7);
    sky.render(&mut r, SkyVariant::Dawn, 6, 0);
    assert_eq!(r.cell_at(0, 0), Cell { ch: ' ', color: Color::DarkBlue });
    assert_eq!(r.cell_at(0, 2), Cell { ch: '~', color: Color::Blue });
    assert_eq!(r.cell_at(0, 3), Cell { ch: '-', color: Color::Rgb { r: 100, g: 60, b: 20 } });
    assert_eq!(r.cell_at(0, 5), Cell { ch: '~', color: Color::Rgb { r: 220, g: 120, b: 40 } });
    assert_eq!(row_text(&r, 6), "____");
}

#[test]
fn overcast_and_indoor_skies() {
    let sky = SkyState::new(3, 4, 2);
    let mut r = Renderer::new_headless(3, 4);
    sky.render(&mut r, SkyVariant::Overcast, 2, 0);
    assert_eq!(r.cell_at(1, 1), Cell { ch: ' ', color: Color::DarkGrey });
    assert_eq!(row_text(&r, 2), "___");
    let mut r2 = Renderer::new_headless(3, 4);
    sky.render(&mut r2, SkyVariant::Indoor, 2, 0);
    for y in 0..4 {
        for x in 0..3 {
            assert_eq!(r2.cell_at(x, y), Cell::default());
        }
    }
}

#[test]
fn narrow_sky_star_walk_terminates() {
    let sky = SkyState::new(1, 30, 30);
    let mut r = Renderer::new_headless(1, 30);
    sky.render(&mut r, SkyVariant::Night, 29, 0);
    assert_eq!(r.cell_at(0, 29).ch, '_');
}
