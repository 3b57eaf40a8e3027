use ascii_campfire::ambient::{effect_action, EffectAction};
use ascii_campfire::layout::{base_x, ground_y, key_action, KeyAction};
use ascii_campfire::scene::{scene_config, scene_for_key, scenes, OverlayKind, SkyVariant, SCENE_COUNT};

#[test]
fn seven_scenes_defined() {
    assert_eq!(scenes().len(), 7);
}

#[test]
fn key_1_returns_campfire() {
    let s = scene_for_key('1').unwrap();
    assert_eq!(s.name, "Campfire");
}

#[test]
fn key_6_returns_quote() {
    let s = scene_for_key('6').unwrap();
    assert_eq!(s.name, "Quote");
}

#[test]
fn invalid_key_returns_none() {
    assert!(scene_for_key('0').is_none());
    assert!(scene_for_key('8').is_none());
}

#[test]
fn key_7_returns_bad_apple_and_letters_return_none() {
    assert_eq!(scene_for_key('7').unwrap().name, "Bad Apple");
    assert!(scene_for_key('a').is_none());
    assert!(scene_for_key('٣').is_none());
}

#[test]
fn scene_catalogue_matches_keys() {
    let all = scenes();
    assert_eq!(all.len(), SCENE_COUNT);
    for (i, s) in all.iter().enumerate() {
        let key = char::from(b'1' + i as u8);
        assert_eq!(scene_for_key(key).unwrap().name, s.name);
    }
    assert_eq!(all[1].particle_count, 80);
    assert_eq!(all[2].sky, SkyVariant::Indoor);
    assert_eq!(all[3].ambient.rain, true);
    assert_eq!(all[4].overlay, OverlayKind::Clock);
    assert_eq!(all[5].overlay, OverlayKind::Quote("Not all those who wander are lost."));
    assert_eq!(all[0].ground_y_permille, 720);
    assert_eq!(all[6].base_art.len(), 0);
}

#[test]
fn keys_quit_switch_or_do_nothing() {
    assert_eq!(key_action('q', false), KeyAction::Quit);
    assert_eq!(key_action('Q', true), KeyAction::Quit);
    assert_eq!(key_action('c', true), KeyAction::Quit);
    assert_eq!(key_action('c', false), KeyAction::Ignore);
    assert_eq!(key_action('1', false), KeyAction::SelectScene(0));
    assert_eq!(key_action('6', true), KeyAction::SelectScene(5));
    assert_eq!(key_action('7', false), KeyAction::Ignore);
    assert_eq!(key_action('x', false), KeyAction::Ignore);
}

#[test]
fn base_x_is_middle_column() {
    assert_eq!(base_x(80), 40);
    assert_eq!(base_x(81), 40);
    assert_eq!(base_x(0), 0);
}

#[test]
fn ground_row_scales_height() {
    let campfire = scene_for_key('1').unwrap();
    let fireplace = scene_for_key('3').unwrap();
    let apple = scene_for_key('7').unwrap();
    assert_eq!(ground_y(40, &campfire), 28);
    assert_eq!(ground_y(25, &campfire), 18);
    assert_eq!(ground_y(50, &fireplace), 34);
    assert_eq!(ground_y(100, &apple), 99);
    assert_eq!(ground_y(0, &campfire), 0);
    // the same rows as scaling by the fraction in single precision
    for h in 0..=u16::MAX {
        for s in [&campfire, &fireplace, &apple] {
            let ratio = s.ground_y_permille as f32 / 1000.0;
            assert_eq!(ground_y(h, s), (h as f32 * ratio) as u16);
        }
    }
}

#[test]
fn effects_are_created_kept_or_removed() {
    assert_eq!(effect_action(true, false), EffectAction::Fill);
    assert_eq!(effect_action(true, true), EffectAction::Keep);
    assert_eq!(effect_action(false, true), EffectAction::Clear);
    assert_eq!(effect_action(false, false), EffectAction::Clear);
}

#[test]
fn spawn_widths_follow_the_scene_table() {
    // half-widths in thousandths of a column: the fires are 5, 12, 3, 5, 5 and 5 columns wide
    let expected = [2500, 6000, 1500, 2500, 2500, 2500];
    for (i, half) in expected.iter().enumerate() {
        let c = scene_config(i);
        assert_eq!(c.spread_milli, *half);
        assert_eq!(2 * c.spread_milli, [5000, 12000, 3000, 5000, 5000, 5000][i]);
    }
}
