use vstd::prelude::*;

verus! {

/// The sky drawn behind the fire.
#[derive(Clone, Copy, Debug, PartialEq, Eq, Structural)]
pub enum SkyVariant {
    Night,
    Dawn,
    Overcast,
    Indoor,
}

/// Which ambient effects a scene shows.
#[derive(Clone, Copy, Debug, Default, PartialEq, Eq, Structural)]
pub struct AmbientFlags {
    pub rain: bool,
    pub fireflies: bool,
    pub figures: bool,
    pub cat: bool,
}

/// The information drawn on top of a scene.
#[derive(Clone, Copy, Debug, PartialEq)]
pub enum OverlayKind {
    Nothing,
    Clock,
    Quote(&'static str),
    BadApple,
}

/// The parameters of a scene. Fractional quantities are kept in thousandths:
/// `spread_milli` is the horizontal spawn half-width in thousandths of a column (a
/// scene's fire is twice as wide),
/// `base_speed_milli` the upward speed of new particles in thousandths of a row per
/// frame, and `ground_y_permille` the ground row as thousandths of the screen height.
#[derive(Clone, Copy, Debug)]
pub struct SceneConfig {
    pub name: &'static str,
    pub particle_count: usize,
    pub spread_milli: u32,
    pub base_speed_milli: u32,
    pub ground_y_permille: u32,
    pub fps: u16,
    pub sky: SkyVariant,
    pub ambient: AmbientFlags,
    pub overlay: OverlayKind,
    pub base_art: &'static [&'static str],
}

/// Number of scenes in the catalogue.
pub const SCENE_COUNT: usize = 7;

pub open spec fn no_ambient() -> AmbientFlags {
    AmbientFlags { rain: false, fireflies: false, figures: false, cat: false }
}

/// The scene catalogue; scene `i` is selected by key `i + 1`.
pub open spec fn scene_spec(i: int) -> SceneConfig {
    if i == 0 {
        SceneConfig {
            name: "Campfire",
            particle_count: 30,
            spread_milli: 2500,
            base_speed_milli: 600,
            ground_y_permille: 720,
            fps: 15,
            sky: SkyVariant::Night,
            ambient: no_ambient(),
            overlay: OverlayKind::Nothing,
            base_art: &[r" /\/\/\ ", r"/________\"],
        }
    } else if i == 1 {
        SceneConfig {
            name: "Bonfire",
            particle_count: 80,
            spread_milli: 6000,
            base_speed_milli: 900,
            ground_y_permille: 720,
            fps: 15,
            sky: SkyVariant::Night,
            ambient: AmbientFlags { rain: false, fireflies: true, figures: true, cat: false },
            overlay: OverlayKind::Nothing,
            base_art: &[r"  /\/\/\/\  ", r" /\/\/\/\/\ ", r"/____________\"],
        }
    } else if i == 2 {
        SceneConfig {
            name: "Fireplace",
            particle_count: 15,
            spread_milli: 1500,
            base_speed_milli: 500,
            ground_y_permille: 680,
            fps: 15,
            sky: SkyVariant::Indoor,
            ambient: no_ambient(),
            overlay: OverlayKind::Nothing,
            base_art: &[r"|        |", r"|________|", r" \______/ "],
        }
    } else if i == 3 {
        SceneConfig {
            name: "Rainy Night",
            particle_count: 25,
            spread_milli: 2500,
            base_speed_milli: 500,
            ground_y_permille: 720,
            fps: 15,
            sky: SkyVariant::Overcast,
            ambient: AmbientFlags { rain: true, fireflies: false, figures: false, cat: false },
            overlay: OverlayKind::Nothing,
            base_art: &[r" /\/\/\ ", r"/________\"],
        }
    } else if i == 4 {
        SceneConfig {
            name: "Clock",
            particle_count: 30,
            spread_milli: 2500,
            base_speed_milli: 600,
            ground_y_permille: 720,
            fps: 15,
            sky: SkyVariant::Night,
            ambient: AmbientFlags { rain: false, fireflies: false, figures: false, cat: true },
            overlay: OverlayKind::Clock,
            base_art: &[r" /\/\/\ ", r"/________\"],
        }
    } else if i == 5 {
        SceneConfig {
            name: "Quote",
            particle_count: 30,
            spread_milli: 2500,
            base_speed_milli: 600,
            ground_y_permille: 720,
            fps: 15,
            sky: SkyVariant::Dawn,
            ambient: AmbientFlags { rain: false, fireflies: true, figures: false, cat: false },
            overlay: OverlayKind::Quote("Not all those who wander are lost."),
            base_art: &[r" /\/\/\ ", r"/________\"],
        }
    } else {
        SceneConfig {
            name: "Bad Apple",
            particle_count: 0,
            spread_milli: 0,
            base_speed_milli: 0,
            ground_y_permille: 990,
            fps: 30,
            sky: SkyVariant::Indoor,
            ambient: no_ambient(),
            overlay: OverlayKind::BadApple,
            base_art: &[],
        }
    }
}

/// Scene `i` of the catalogue.
pub fn scene_config(i: usize) -> (s: SceneConfig)
    requires
        i < SCENE_COUNT,
    ensures
        s == scene_spec(i as int),
{
    let none = AmbientFlags { rain: false, fireflies: false, figures: false, cat: false };
    if i == 0 {
        SceneConfig {
            name: "Campfire",
            particle_count: 30,
            spread_milli: 2500,
            base_speed_milli: 600,
            ground_y_permille: 720,
            fps: 15,
            sky: SkyVariant::Night,
            ambient: none,
            overlay: OverlayKind::Nothing,
            base_art: &[r" /\/\/\ ", r"/________\"],
        }
    } else if i == 1 {
        SceneConfig {
            name: "Bonfire",
            particle_count: 80,
            spread_milli: 6000,
            base_speed_milli: 900,
            ground_y_permille: 720,
            fps: 15,
            sky: SkyVariant::Night,
            ambient: AmbientFlags { rain: false, fireflies: true, figures: true, cat: false },
            overlay: OverlayKind::Nothing,
            base_art: &[r"  /\/\/\/\  ", r" /\/\/\/\/\ ", r"/____________\"],
        }
    } else if i == 2 {
        SceneConfig {
            name: "Fireplace",
            particle_count: 15,
            spread_milli: 1500,
            base_speed_milli: 500,
            ground_y_permille: 680,
            fps: 15,
            sky: SkyVariant::Indoor,
            ambient: none,
            overlay: OverlayKind::Nothing,
            base_art: &[r"|        |", r"|________|", r" \______/ "],
        }
    } else if i == 3 {
        SceneConfig {
            name: "Rainy Night",
            particle_count: 25,
            spread_milli: 2500,
            base_speed_milli: 500,
            ground_y_permille: 720,
            fps: 15,
            sky: SkyVariant::Overcast,
            ambient: AmbientFlags { rain: true, fireflies: false, figures: false, cat: false },
            overlay: OverlayKind::Nothing,
            base_art: &[r" /\/\/\ ", r"/________\"],
        }
    } else if i == 4 {
        SceneConfig {
            name: "Clock",
            particle_count: 30,
            spread_milli: 2500,
            base_speed_milli: 600,
            ground_y_permille: 720,
            fps: 15,
            sky: SkyVariant::Night,
            ambient: AmbientFlags { rain: false, fireflies: false, figures: false, cat: true },
            overlay: OverlayKind::Clock,
            base_art: &[r" /\/\/\ ", r"/________\"],
        }
    } else if i == 5 {
        SceneConfig {
            name: "Quote",
            particle_count: 30,
            spread_milli: 2500,
            base_speed_milli: 600,
            ground_y_permille: 720,
            fps: 15,
            sky: SkyVariant::Dawn,
            ambient: AmbientFlags { rain: false, fireflies: true, figures: false, cat: false },
            overlay: OverlayKind::Quote("Not all those who wander are lost."),
            base_art: &[r" /\/\/\ ", r"/________\"],
        }
    } else {
        SceneConfig {
            name: "Bad Apple",
            particle_count: 0,
            spread_milli: 0,
            base_speed_milli: 0,
            ground_y_permille: 990,
            fps: 30,
            sky: SkyVariant::Indoor,
            ambient: none,
            overlay: OverlayKind::BadApple,
            base_art: &[],
        }
    }
}

/// The whole scene catalogue, in key order.
pub fn scenes() -> (v: Vec<SceneConfig>)
    ensures
        v.len() == SCENE_COUNT,
        forall|i: int| 0 <= i < SCENE_COUNT ==> #[trigger] v@[i] == scene_spec(i),
{
    let mut v: Vec<SceneConfig> = Vec::new();
    let mut i: usize = 0;
    while i < SCENE_COUNT
        invariant
            i <= SCENE_COUNT,
            v.len() == i,
            forall|j: int| 0 <= j < i ==> #[trigger] v@[j] == scene_spec(j),
        decreases SCENE_COUNT - i,
    {
        v.push(scene_config(i));
        i += 1;
    }
    v
}

/// The scene that key `key` selects: keys `1` to `7` select the scenes in order.
pub open spec fn key_scene(key: char) -> Option<SceneConfig> {
    if '1' <= key && key <= '7' {
        Some(scene_spec(key as int - '1' as int))
    } else {
        None
    }
}

/// The scene selected by a digit key, if any.
pub fn scene_for_key(key: char) -> (s: Option<SceneConfig>)
    ensures
        s == key_scene(key),
{
    if '0' <= key && key <= '9' {
        let idx = (key as u32 - '0' as u32) as usize;
        if idx >= 1 && idx <= SCENE_COUNT {
            Some(scene_config(idx - 1))
        } else {
            None
        }
    } else {
        None
    }
}

/// The scene catalogue, key by key: `1` Campfire, a night sky with stars and a small
/// fire; `2` Bonfire, a large fire with fireflies and seated figures; `3` Fireplace,
/// indoors with a narrow flame; `4` Rainy Night, an overcast sky with falling rain;
/// `5` Clock, a night sky with the time and date above the fire and a sleeping cat;
/// `6` Quote, a dawn sky with fireflies and a quote; `7` Bad Apple, indoors with the
/// text animation and no fire.
pub proof fn lemma_scene_table()
    ensures
        scene_spec(0).name == "Campfire" && scene_spec(0).particle_count == 30
            && scene_spec(0).spread_milli == 2500 && scene_spec(0).base_speed_milli == 600
            && scene_spec(0).ground_y_permille == 720 && scene_spec(0).fps == 15
            && scene_spec(0).sky == SkyVariant::Night && scene_spec(0).ambient == (AmbientFlags {
            rain: false,
            fireflies: false,
            figures: false,
            cat: false,
        }) && scene_spec(0).overlay == OverlayKind::Nothing,
        scene_spec(1).name == "Bonfire" && scene_spec(1).particle_count == 80
            && scene_spec(1).spread_milli == 6000 && scene_spec(1).base_speed_milli == 900
            && scene_spec(1).ground_y_permille == 720 && scene_spec(1).fps == 15
            && scene_spec(1).sky == SkyVariant::Night && scene_spec(1).ambient == (AmbientFlags {
            rain: false,
            fireflies: true,
            figures: true,
            cat: false,
        }) && scene_spec(1).overlay == OverlayKind::Nothing,
        scene_spec(2).name == "Fireplace" && scene_spec(2).particle_count == 15
            && scene_spec(2).spread_milli == 1500 && scene_spec(2).base_speed_milli == 500
            && scene_spec(2).ground_y_permille == 680 && scene_spec(2).fps == 15
            && scene_spec(2).sky == SkyVariant::Indoor && scene_spec(2).ambient == (AmbientFlags {
            rain: false,
            fireflies: false,
            figures: false,
            cat: false,
        }) && scene_spec(2).overlay == OverlayKind::Nothing,
        scene_spec(3).name == "Rainy Night" && scene_spec(3).particle_count == 25
            && scene_spec(3).spread_milli == 2500 && scene_spec(3).base_speed_milli == 500
            && scene_spec(3).ground_y_permille == 720 && scene_spec(3).fps == 15
            && scene_spec(3).sky == SkyVariant::Overcast && scene_spec(3).ambient == (AmbientFlags {
            rain: true,
            fireflies: false,
            figures: false,
            cat: false,
        }) && scene_spec(3).overlay == OverlayKind::Nothing,
        scene_spec(4).name == "Clock" && scene_spec(4).particle_count == 30
            && scene_spec(4).spread_milli == 2500 && scene_spec(4).base_speed_milli == 600
            && scene_spec(4).ground_y_permille == 720 && scene_spec(4).fps == 15
            && scene_spec(4).sky == SkyVariant::Night && scene_spec(4).ambient == (AmbientFlags {
            rain: false,
            fireflies: false,
            figures: false,
            cat: true,
        }) && scene_spec(4).overlay == OverlayKind::Clock,
        scene_spec(5).name == "Quote" && scene_spec(5).particle_count == 30
            && scene_spec(5).spread_milli == 2500 && scene_spec(5).base_speed_milli == 600
            && scene_spec(5).ground_y_permille == 720 && scene_spec(5).fps == 15
            && scene_spec(5).sky == SkyVariant::Dawn && scene_spec(5).ambient == (AmbientFlags {
            rain: false,
            fireflies: true,
            figures: false,
            cat: false,
        }) && scene_spec(5).overlay == OverlayKind::Quote("Not all those who wander are lost."),
        scene_spec(6).name == "Bad Apple" && scene_spec(6).particle_count == 0
            && scene_spec(6).spread_milli == 0 && scene_spec(6).base_speed_milli == 0
            && scene_spec(6).ground_y_permille == 990 && scene_spec(6).fps == 30
            && scene_spec(6).sky == SkyVariant::Indoor && scene_spec(6).ambient == (AmbientFlags {
            rain: false,
            fireflies: false,
            figures: false,
            cat: false,
        }) && scene_spec(6).overlay == OverlayKind::BadApple,
        forall|k: char| '1' <= k <= '7' ==> #[trigger] key_scene(k) == Some(scene_spec(k as int - '1' as int)),
        forall|k: char| !('1' <= k <= '7') ==> #[trigger] key_scene(k) is None,
{
}

} // verus!
