use octoplat_game::audio::{AmbientOneShot, AmbientTrack, BiomeId, MusicTrack, SoundId};

#[test]
fn music_paths() {
    assert_eq!(MusicTrack::Title.asset_path(), "music/menu/title.ogg");
    assert_eq!(MusicTrack::Abyss.asset_path(), "music/biomes/abyss.ogg");
    assert_eq!(MusicTrack::ALL.len(), 10);
}

#[test]
fn music_for_biome() {
    assert_eq!(MusicTrack::from_biome(BiomeId::Shipwreck), MusicTrack::Shipwreck);
    assert_eq!(MusicTrack::from_biome(BiomeId::OceanDepths).asset_path(), "music/biomes/ocean_depths.ogg");
}

#[test]
fn ambient_paths() {
    assert_eq!(
        AmbientTrack::UnderwaterLoop.asset_paths(),
        vec!["sfx/organized/ambient/underwater_loop_01.ogg", "sfx/organized/ambient/underwater_loop_02.ogg"]
    );
    assert_eq!(AmbientTrack::RainLoop.asset_paths(), vec!["sfx/organized/ambient/rain_loop.ogg"]);
    assert_eq!(AmbientOneShot::Bubble.asset_paths().len(), 3);
    assert_eq!(AmbientTrack::ALL.len(), 3);
    assert_eq!(AmbientOneShot::ALL.len(), 1);
}

#[test]
fn sound_variants_are_numbered_with_two_digits() {
    assert_eq!(
        SoundId::Jump.variant_paths(),
        vec![
            "sfx/organized/player/jump_01.wav".to_string(),
            "sfx/organized/player/jump_02.wav".to_string(),
            "sfx/organized/player/jump_03.wav".to_string(),
        ]
    );
    assert_eq!(SoundId::LevelComplete.variant_paths(), vec!["sfx/organized/collectibles/level_complete_01.ogg".to_string()]);
}

#[test]
fn sound_variants_with_own_numbers() {
    assert_eq!(
        SoundId::JetBoost.variant_paths(),
        vec![
            "sfx/organized/abilities/jet_boost_sfx_movement_portal1.wav".to_string(),
            "sfx/organized/abilities/jet_boost_sfx_movement_portal3.wav".to_string(),
        ]
    );
    assert_eq!(
        SoundId::GrappleShoot.variant_paths(),
        vec![
            "sfx/organized/abilities/grapple_shoot_sfx_wpn_laser3.wav".to_string(),
            "sfx/organized/abilities/grapple_shoot_sfx_wpn_laser6.wav".to_string(),
            "sfx/organized/abilities/grapple_shoot_sfx_wpn_laser8.wav".to_string(),
        ]
    );
    assert_eq!(
        SoundId::ExtraLife.variant_paths(),
        vec![
            "sfx/organized/collectibles/fanfare1.wav".to_string(),
            "sfx/organized/collectibles/fanfare2.wav".to_string(),
            "sfx/organized/collectibles/fanfare3.wav".to_string(),
        ]
    );
    assert_eq!(SoundId::PlayerDeath.variant_paths()[2], "sfx/organized/damage/death_sfx_exp_short_soft7.wav");
}

#[test]
fn music_paths_are_distinct_ogg_files_under_music() {
    let paths: Vec<&str> = MusicTrack::ALL.iter().map(|t| t.asset_path()).collect();
    for (i, p) in paths.iter().enumerate() {
        assert!(p.starts_with("music/") && p.ends_with(".ogg"));
        for q in &paths[i + 1..] {
            assert_ne!(p, q);
        }
    }
}
