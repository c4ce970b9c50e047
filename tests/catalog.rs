use serenit::catalog::{contains_str, default_catalog, default_paths, sound_from_path, sounds_from_paths};
use serenit::sound_manager::SoundManager;

#[test]
fn path_gives_name_category_and_level() {
    let s = sound_from_path("./sounds/nature/waves.mp3").unwrap();
    assert_eq!(s.name(), "waves.mp3");
    assert_eq!(s.path(), "./sounds/nature/waves.mp3");
    assert_eq!(s.category(), "nature");
    assert_eq!(s.volume(), 500);
}

#[test]
fn binaural_and_noise_start_quieter() {
    assert_eq!(sound_from_path("./sounds/binaural/binaural-alpha.wav").unwrap().volume(), 200);
    assert_eq!(sound_from_path("./sounds/noise/pink-noise.wav").unwrap().volume(), 200);
    assert_eq!(sound_from_path("./noise/rain.mp3").unwrap().volume(), 500);
}

#[test]
fn path_at_top_takes_its_folder_as_category() {
    let s = sound_from_path("./sounds/alarm.mp3").unwrap();
    assert_eq!(s.category(), "sounds");
    assert_eq!(s.name(), "alarm.mp3");
    let t = sound_from_path("top/x.mp3").unwrap();
    assert_eq!(t.category(), "top");
}

#[test]
fn path_without_folder_is_refused() {
    assert!(sound_from_path("alarm.mp3").is_none());
    assert!(sound_from_path("").is_none());
}

#[test]
fn substring_search() {
    assert!(contains_str("binaural-beta.wav", "binaural"));
    assert!(contains_str("white-noise.wav", "noise"));
    assert!(!contains_str("nois", "noise"));
    assert!(contains_str("abc", ""));
    assert!(!contains_str("crickets.mp3", "noise"));
}

#[test]
fn paths_without_folder_are_skipped() {
    let paths = vec!["a/x.mp3".to_string(), "y.mp3".to_string(), "b/z.mp3".to_string()];
    let sounds = sounds_from_paths(&paths);
    assert_eq!(sounds.len(), 2);
    assert_eq!(sounds[1].path(), "b/z.mp3");
}

#[test]
fn default_catalog_and_categories() {
    assert_eq!(default_paths().len(), 78);
    let catalog = default_catalog();
    assert_eq!(catalog.len(), 78);
    let m = SoundManager::new(catalog);
    let cats: Vec<&str> = m.categories().iter().map(|c| c.as_str()).collect();
    assert_eq!(
        cats,
        vec!["animals", "binaural", "nature", "noise", "places", "rain", "things", "transport", "urban", "sounds"]
    );
    assert!(m.playing_sounds().is_empty());
}

#[test]
fn demo_starts_its_preset_mix() {
    let mut m = SoundManager::new(default_catalog());
    m.demo();
    assert_eq!(m.playing_sounds().len(), 4);
    assert_eq!(m.get_sinks().len(), 8);
    let mut reg = m.playing_sounds().clone();
    reg.sort_by_key(|e| e.1);
    let order: Vec<&str> = reg.iter().map(|e| e.0.as_str()).collect();
    assert_eq!(
        order,
        vec![
            "./sounds/nature/waves.mp3",
            "./sounds/animals/birds.mp3",
            "./sounds/things/wind-chimes.mp3",
            "./sounds/binaural/binaural-alpha.wav"
        ]
    );
    let vol = |p: &str| m.get_sound_by_path(p).unwrap().volume();
    assert!(m.is_sound_playing("./sounds/nature/waves.mp3"));
    assert_eq!(vol("./sounds/nature/waves.mp3"), 200);
    assert_eq!(vol("./sounds/animals/birds.mp3"), 100);
    assert_eq!(vol("./sounds/things/wind-chimes.mp3"), 0);
    assert_eq!(vol("./sounds/binaural/binaural-alpha.wav"), 50);
}
