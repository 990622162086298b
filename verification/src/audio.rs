//! Sound identifiers and where their audio files lie among the embedded
//! assets (paths relative to the audio folder).

use vstd::prelude::*;
use vstd::string::*;
use crate::text::push_char;

verus! {

/// The game's biomes.
#[derive(Clone, Copy, Debug, PartialEq, Eq, Hash, Structural)]
pub enum BiomeId {
    OceanDepths,
    CoralReefs,
    TropicalShore,
    Shipwreck,
    ArcticWaters,
    VolcanicVents,
    SunkenRuins,
    Abyss,
}

/// Music tracks.
#[derive(Clone, Copy, Debug, PartialEq, Eq, Hash, Structural)]
pub enum MusicTrack {
    Title,
    GameOver,
    OceanDepths,
    CoralReefs,
    TropicalShore,
    Shipwreck,
    ArcticWaters,
    VolcanicVents,
    SunkenRuins,
    Abyss,
}

/// The file of each music track.
pub open spec fn music_path(t: MusicTrack) -> Seq<char> {
    match t {
        MusicTrack::Title => "music/menu/title.ogg"@,
        MusicTrack::GameOver => "music/menu/game_over.ogg"@,
        MusicTrack::OceanDepths => "music/biomes/ocean_depths.ogg"@,
        MusicTrack::CoralReefs => "music/biomes/coral_reefs.ogg"@,
        MusicTrack::TropicalShore => "music/biomes/tropical_shore.ogg"@,
        MusicTrack::Shipwreck => "music/biomes/shipwreck.ogg"@,
        MusicTrack::ArcticWaters => "music/biomes/arctic_waters.ogg"@,
        MusicTrack::VolcanicVents => "music/biomes/volcanic_vents.ogg"@,
        MusicTrack::SunkenRuins => "music/biomes/sunken_ruins.ogg"@,
        MusicTrack::Abyss => "music/biomes/abyss.ogg"@,
    }
}

/// The track played in each biome: the one of the same name.
pub open spec fn biome_track(b: BiomeId) -> MusicTrack {
    match b {
        BiomeId::OceanDepths => MusicTrack::OceanDepths,
        BiomeId::CoralReefs => MusicTrack::CoralReefs,
        BiomeId::TropicalShore => MusicTrack::TropicalShore,
        BiomeId::Shipwreck => MusicTrack::Shipwreck,
        BiomeId::ArcticWaters => MusicTrack::ArcticWaters,
        BiomeId::VolcanicVents => MusicTrack::VolcanicVents,
        BiomeId::SunkenRuins => MusicTrack::SunkenRuins,
        BiomeId::Abyss => MusicTrack::Abyss,
    }
}

/// Every music track's file lies under `music/` and ends in `.ogg`, and no
/// two tracks share a file.
pub proof fn lemma_music_paths(t1: MusicTrack, t2: MusicTrack)
    ensures
        music_path(t1).len() >= 10,
        music_path(t1).subrange(0, 6) == "music/"@,
        music_path(t1).subrange(music_path(t1).len() - 4, music_path(t1).len() as int) == ".ogg"@,
        t1 != t2 ==> music_path(t1) != music_path(t2),
{
    reveal_strlit("music/");
    reveal_strlit(".ogg");
    reveal_strlit("music/menu/title.ogg");
    reveal_strlit("music/menu/game_over.ogg");
    reveal_strlit("music/biomes/ocean_depths.ogg");
    reveal_strlit("music/biomes/coral_reefs.ogg");
    reveal_strlit("music/biomes/tropical_shore.ogg");
    reveal_strlit("music/biomes/shipwreck.ogg");
    reveal_strlit("music/biomes/arctic_waters.ogg");
    reveal_strlit("music/biomes/volcanic_vents.ogg");
    reveal_strlit("music/biomes/sunken_ruins.ogg");
    reveal_strlit("music/biomes/abyss.ogg");
    let p = music_path(t1);
    assert(p.subrange(0, 6) =~= "music/"@);
    assert(p.subrange(p.len() - 4, p.len() as int) =~= ".ogg"@);
    if t1 != t2 && music_path(t1).len() == music_path(t2).len() {
        assert(music_path(t1)[13] != music_path(t2)[13]);
    }
}

impl MusicTrack {
    /// Every track, for preloading.
    pub const ALL: [MusicTrack; 10] = [
        MusicTrack::Title,
        MusicTrack::GameOver,
        MusicTrack::OceanDepths,
        MusicTrack::CoralReefs,
        MusicTrack::TropicalShore,
        MusicTrack::Shipwreck,
        MusicTrack::ArcticWaters,
        MusicTrack::VolcanicVents,
        MusicTrack::SunkenRuins,
        MusicTrack::Abyss,
    ];

    /// The track's file.
    pub fn asset_path(&self) -> (p: &'static str)
        ensures
            p@ == music_path(*self),
    {
        match self {
            MusicTrack::Title => "music/menu/title.ogg",
            MusicTrack::GameOver => "music/menu/game_over.ogg",
            MusicTrack::OceanDepths => "music/biomes/ocean_depths.ogg",
            MusicTrack::CoralReefs => "music/biomes/coral_reefs.ogg",
            MusicTrack::TropicalShore => "music/biomes/tropical_shore.ogg",
            MusicTrack::Shipwreck => "music/biomes/shipwreck.ogg",
            MusicTrack::ArcticWaters => "music/biomes/arctic_waters.ogg",
            MusicTrack::VolcanicVents => "music/biomes/volcanic_vents.ogg",
            MusicTrack::SunkenRuins => "music/biomes/sunken_ruins.ogg",
            MusicTrack::Abyss => "music/biomes/abyss.ogg",
        }
    }

    /// The track of a biome.
    pub fn from_biome(biome: BiomeId) -> (t: MusicTrack)
        ensures
            t == biome_track(biome),
    {
        match biome {
            BiomeId::OceanDepths => MusicTrack::OceanDepths,
            BiomeId::CoralReefs => MusicTrack::CoralReefs,
            BiomeId::TropicalShore => MusicTrack::TropicalShore,
            BiomeId::Shipwreck => MusicTrack::Shipwreck,
            BiomeId::ArcticWaters => MusicTrack::ArcticWaters,
            BiomeId::VolcanicVents => MusicTrack::VolcanicVents,
            BiomeId::SunkenRuins => MusicTrack::SunkenRuins,
            BiomeId::Abyss => MusicTrack::Abyss,
        }
    }
}

/// Looping ambient layers.
#[derive(Clone, Copy, Debug, PartialEq, Eq, Hash, Structural)]
pub enum AmbientTrack {
    /// Deep underwater atmosphere.
    UnderwaterLoop,
    /// Continuous bubble stream.
    BubblesLoop,
    /// Rain on the water surface.
    RainLoop,
}

/// The files of each ambient layer's variants.
pub open spec fn ambient_paths(t: AmbientTrack) -> Seq<Seq<char>> {
    match t {
        AmbientTrack::UnderwaterLoop => seq![
            "sfx/organized/ambient/underwater_loop_01.ogg"@,
            "sfx/organized/ambient/underwater_loop_02.ogg"@,
        ],
        AmbientTrack::BubblesLoop => seq![
            "sfx/organized/ambient/bubbles_loop_01.ogg"@,
            "sfx/organized/ambient/bubbles_loop_02.ogg"@,
        ],
        AmbientTrack::RainLoop => seq!["sfx/organized/ambient/rain_loop.ogg"@],
    }
}

/// The views of a list of paths.
pub open spec fn path_views(v: Seq<&'static str>) -> Seq<Seq<char>> {
    Seq::new(v.len(), |i: int| v[i]@)
}

impl AmbientTrack {
    /// Every ambient layer, for preloading.
    pub const ALL: [AmbientTrack; 3] = [AmbientTrack::UnderwaterLoop, AmbientTrack::BubblesLoop, AmbientTrack::RainLoop];

    /// The files of the layer's variants.
    pub fn asset_paths(&self) -> (v: Vec<&'static str>)
        ensures
            path_views(v@) == ambient_paths(*self),
    {
        let v = match self {
            AmbientTrack::UnderwaterLoop => vec![
                "sfx/organized/ambient/underwater_loop_01.ogg",
                "sfx/organized/ambient/underwater_loop_02.ogg",
            ],
            AmbientTrack::BubblesLoop => vec![
                "sfx/organized/ambient/bubbles_loop_01.ogg",
                "sfx/organized/ambient/bubbles_loop_02.ogg",
            ],
            AmbientTrack::RainLoop => vec!["sfx/organized/ambient/rain_loop.ogg"],
        };
        assert(path_views(v@) =~= ambient_paths(*self));
        v
    }
}

/// One-shot ambient sounds.
#[derive(Clone, Copy, Debug, PartialEq, Eq, Hash, Structural)]
pub enum AmbientOneShot {
    /// A single bubble pop.
    Bubble,
}

/// The files of each one-shot sound's variants.
pub open spec fn one_shot_paths(s: AmbientOneShot) -> Seq<Seq<char>> {
    match s {
        AmbientOneShot::Bubble => seq![
            "sfx/organized/ambient/bubble_01.ogg"@,
            "sfx/organized/ambient/bubble_02.ogg"@,
            "sfx/organized/ambient/bubble_03.ogg"@,
        ],
    }
}

impl AmbientOneShot {
    /// Every one-shot sound, for preloading.
    pub const ALL: [AmbientOneShot; 1] = [AmbientOneShot::Bubble];

    /// The files of the sound's variants.
    pub fn asset_paths(&self) -> (v: Vec<&'static str>)
        ensures
            path_views(v@) == one_shot_paths(*self),
    {
        let v = match self {
            AmbientOneShot::Bubble => vec![
                "sfx/organized/ambient/bubble_01.ogg",
                "sfx/organized/ambient/bubble_02.ogg",
                "sfx/organized/ambient/bubble_03.ogg",
            ],
        };
        assert(path_views(v@) =~= one_shot_paths(*self));
        v
    }
}

/// Sound effects.
#[derive(Clone, Copy, Debug, PartialEq, Eq, Hash, Structural)]
pub enum SoundId {
    Jump,
    Land,
    WallJump,
    Dive,
    JetBoost,
    GrappleShoot,
    GrappleAttach,
    InkShoot,
    GemCollect,
    Checkpoint,
    LevelComplete,
    BouncePad,
    ExtraLife,
    PlayerHurt,
    PlayerDeath,
    MenuMove,
    MenuSelect,
    MenuBack,
    Pause,
}

/// Each sound's file name start, extension and number of variants.
pub open spec fn sound_info(id: SoundId) -> (Seq<char>, Seq<char>, int) {
    match id {
        SoundId::Jump => ("sfx/organized/player/jump_"@, "wav"@, 3),
        SoundId::Land => ("sfx/organized/player/land_"@, "ogg"@, 3),
        SoundId::WallJump => ("sfx/organized/player/wall_jump_"@, "ogg"@, 2),
        SoundId::Dive => ("sfx/organized/player/dive_"@, "ogg"@, 3),
        SoundId::JetBoost => ("sfx/organized/abilities/jet_boost_sfx_movement_portal"@, "wav"@, 2),
        SoundId::GrappleShoot => ("sfx/organized/abilities/grapple_shoot_sfx_wpn_laser"@, "wav"@, 3),
        SoundId::GrappleAttach => ("sfx/organized/abilities/grapple_attach_"@, "ogg"@, 2),
        SoundId::InkShoot => ("sfx/organized/abilities/ink_shoot_"@, "ogg"@, 3),
        SoundId::GemCollect => ("sfx/organized/collectibles/gem_"@, "wav"@, 3),
        SoundId::Checkpoint => ("sfx/organized/collectibles/fanfare"@, "wav"@, 3),
        SoundId::LevelComplete => ("sfx/organized/collectibles/level_complete_"@, "ogg"@, 1),
        SoundId::BouncePad => ("sfx/organized/collectibles/bounce_"@, "ogg"@, 2),
        SoundId::ExtraLife => ("sfx/organized/collectibles/fanfare"@, "wav"@, 3),
        SoundId::PlayerHurt => ("sfx/organized/damage/hurt_"@, "wav"@, 3),
        SoundId::PlayerDeath => ("sfx/organized/damage/death_sfx_exp_short_"@, "wav"@, 3),
        SoundId::MenuMove => ("sfx/organized/ui/menu_move_"@, "ogg"@, 3),
        SoundId::MenuSelect => ("sfx/organized/ui/menu_select_"@, "ogg"@, 3),
        SoundId::MenuBack => ("sfx/organized/ui/menu_back_"@, "ogg"@, 2),
        SoundId::Pause => ("sfx/organized/ui/pause_"@, "ogg"@, 2),
    }
}

/// The decimal digit `d`.
pub open spec fn digit_char(d: int) -> char {
    (48 + d) as char
}

/// `base`, the number `n` (one digit, or two with a leading zero when
/// `padded`), a dot, and `ext`.
pub open spec fn numbered(base: Seq<char>, n: int, padded: bool, ext: Seq<char>) -> Seq<char> {
    base + (if padded { seq!['0', digit_char(n)] } else { seq![digit_char(n)] }) + seq!['.'] + ext
}

/// The files of each sound's variants: most are numbered from one with two
/// digits; the jet boost, the grapple shot and the fanfares have their own
/// numbers, and the death sounds their own names.
pub open spec fn sound_paths(id: SoundId) -> Seq<Seq<char>> {
    let info = sound_info(id);
    let base = info.0;
    let ext = info.1;
    match id {
        SoundId::JetBoost => seq![numbered(base, 1, false, ext), numbered(base, 3, false, ext)],
        SoundId::GrappleShoot => seq![numbered(base, 3, false, ext), numbered(base, 6, false, ext), numbered(base, 8, false, ext)],
        SoundId::Checkpoint | SoundId::ExtraLife => Seq::new(info.2 as nat, |i: int| numbered(base, i + 1, false, ext)),
        SoundId::PlayerDeath => seq![
            "sfx/organized/damage/death_sfx_exp_short_hard4.wav"@,
            "sfx/organized/damage/death_sfx_exp_short_hard8.wav"@,
            "sfx/organized/damage/death_sfx_exp_short_soft7.wav"@,
        ],
        _ => Seq::new(info.2 as nat, |i: int| numbered(base, i + 1, true, ext)),
    }
}

/// The character of the digit `d`.
fn digit(d: usize) -> (c: char)
    requires
        d <= 9,
    ensures
        c == digit_char(d as int),
{
    match d {
        0 => '0',
        1 => '1',
        2 => '2',
        3 => '3',
        4 => '4',
        5 => '5',
        6 => '6',
        7 => '7',
        8 => '8',
        _ => '9',
    }
}

/// Builds `numbered(base, n, padded, ext)`.
fn numbered_path(base: &str, n: usize, padded: bool, ext: &str) -> (s: String)
    requires
        n <= 9,
    ensures
        s@ == numbered(base@, n as int, padded, ext@),
{
    let mut s = String::from_str(base);
    if padded {
        push_char(&mut s, '0');
    }
    push_char(&mut s, digit(n));
    push_char(&mut s, '.');
    s.append(ext);
    assert(s@ =~= numbered(base@, n as int, padded, ext@));
    s
}

impl SoundId {
    /// The sound's file name start, extension and number of variants.
    fn asset_info(&self) -> (r: (&'static str, &'static str, usize))
        ensures
            r.0@ == sound_info(*self).0,
            r.1@ == sound_info(*self).1,
            r.2 == sound_info(*self).2,
    {
        match self {
            SoundId::Jump => ("sfx/organized/player/jump_", "wav", 3),
            SoundId::Land => ("sfx/organized/player/land_", "ogg", 3),
            SoundId::WallJump => ("sfx/organized/player/wall_jump_", "ogg", 2),
            SoundId::Dive => ("sfx/organized/player/dive_", "ogg", 3),
            SoundId::JetBoost => ("sfx/organized/abilities/jet_boost_sfx_movement_portal", "wav", 2),
            SoundId::GrappleShoot => ("sfx/organized/abilities/grapple_shoot_sfx_wpn_laser", "wav", 3),
            SoundId::GrappleAttach => ("sfx/organized/abilities/grapple_attach_", "ogg", 2),
            SoundId::InkShoot => ("sfx/organized/abilities/ink_shoot_", "ogg", 3),
            SoundId::GemCollect => ("sfx/organized/collectibles/gem_", "wav", 3),
            SoundId::Checkpoint => ("sfx/organized/collectibles/fanfare", "wav", 3),
            SoundId::LevelComplete => ("sfx/organized/collectibles/level_complete_", "ogg", 1),
            SoundId::BouncePad => ("sfx/organized/collectibles/bounce_", "ogg", 2),
            SoundId::ExtraLife => ("sfx/organized/collectibles/fanfare", "wav", 3),
            SoundId::PlayerHurt => ("sfx/organized/damage/hurt_", "wav", 3),
            SoundId::PlayerDeath => ("sfx/organized/damage/death_sfx_exp_short_", "wav", 3),
            SoundId::MenuMove => ("sfx/organized/ui/menu_move_", "ogg", 3),
            SoundId::MenuSelect => ("sfx/organized/ui/menu_select_", "ogg", 3),
            SoundId::MenuBack => ("sfx/organized/ui/menu_back_", "ogg", 2),
            SoundId::Pause => ("sfx/organized/ui/pause_", "ogg", 2),
        }
    }

    /// The files of the sound's variants, as `sound_paths` lists them.
    pub fn variant_paths(&self) -> (v: Vec<String>)
        ensures
            v@.len() == sound_paths(*self).len(),
            forall|i: int| 0 <= i < v@.len() ==> #[trigger] v@[i]@ == sound_paths(*self)[i],
    {
        let (base, ext, count) = self.asset_info();
        let mut v: Vec<String> = Vec::new();
        match self {
            SoundId::JetBoost => {
                v.push(numbered_path(base, 1, false, ext));
                v.push(numbered_path(base, 3, false, ext));
            },
            SoundId::GrappleShoot => {
                v.push(numbered_path(base, 3, false, ext));
                v.push(numbered_path(base, 6, false, ext));
                v.push(numbered_path(base, 8, false, ext));
            },
            SoundId::PlayerDeath => {
                v.push(String::from_str("sfx/organized/damage/death_sfx_exp_short_hard4.wav"));
                v.push(String::from_str("sfx/organized/damage/death_sfx_exp_short_hard8.wav"));
                v.push(String::from_str("sfx/organized/damage/death_sfx_exp_short_soft7.wav"));
            },
            _ => {
                let padded = match self {
                    SoundId::Checkpoint | SoundId::ExtraLife => false,
                    _ => true,
                };
                let mut i: usize = 1;
                while i <= count
                    invariant
                        1 <= i <= count + 1,
                        count <= 3,
                        v@.len() == i - 1,
                        forall|k: int| 0 <= k < v@.len() ==> #[trigger] v@[k]@ == numbered(base@, k + 1, padded, ext@),
                    decreases count + 1 - i,
                {
                    v.push(numbered_path(base, i, padded, ext));
                    i = i + 1;
                }
            },
        }
        v
    }
}

} // verus!
