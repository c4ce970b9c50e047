use serenit::sound::Sound;
use serenit::sound_manager::{SoundData, SoundManager, SoundManagerError, MAX_SOUNDS};
use serenit::volume::{offset_level, FULL_VOLUME, MASTER_FLOOR};

fn sound(path: &str, category: &str, volume: u32) -> Sound {
    Sound::new(path, path, category, volume)
}

fn three_sounds(capacity: usize) -> SoundManager {
    SoundManager::with_capacity(
        vec![
            sound("waves.mp3", "nature", 500),
            sound("wind.mp3", "nature", 300),
            sound("rain.mp3", "rain", 400),
        ],
        capacity,
    )
}

fn registry(m: &SoundManager) -> Vec<(String, usize)> {
    let mut r = m.playing_sounds().clone();
    r.sort();
    r
}

fn level(m: &SoundManager, path: &str) -> u32 {
    m.get_sound_by_path(path).unwrap().volume()
}

fn assert_consistent(m: &SoundManager) {
    let sinks = m.get_sinks();
    let mut seen = vec![];
    for (path, idx) in m.playing_sounds() {
        assert!(*idx < sinks.len());
        assert_eq!(sinks[*idx].source(), Some(path.as_str()));
        assert!(sinks[*idx].is_playing());
        assert_eq!(sinks[*idx].volume(), level(m, path));
        assert!(!seen.contains(idx));
        seen.push(*idx);
    }
    for (i, s) in sinks.iter().enumerate() {
        if s.is_playing() {
            assert!(seen.contains(&i));
        }
    }
}

#[test]
fn eviction_of_highest_channel_with_two_channels() {
    let mut m = three_sounds(2);
    assert_eq!(m.add_sound("waves.mp3"), Ok(()));
    assert_eq!(registry(&m), vec![("waves.mp3".to_string(), 0)]);
    assert_eq!(m.add_sound("wind.mp3"), Ok(()));
    assert_eq!(
        registry(&m),
        vec![("waves.mp3".to_string(), 0), ("wind.mp3".to_string(), 1)]
    );
    assert_eq!(m.add_sound("rain.mp3"), Err(SoundManagerError::NoAvailableSound));
    assert_eq!(
        registry(&m),
        vec![("rain.mp3".to_string(), 1), ("waves.mp3".to_string(), 0)]
    );
    assert!(!m.is_sound_playing("wind.mp3"));
    assert!(m.is_sound_playing("rain.mp3"));
    assert_eq!(m.get_sinks()[1].volume(), 400);
    assert_consistent(&m);
}

#[test]
fn master_volume_down_stops_at_floor() {
    let mut m = SoundManager::new(vec![sound("quiet.mp3", "misc", 50)]);
    m.toggle_sound("quiet.mp3").unwrap();
    m.adjust_master_volume(-1000);
    assert_eq!(level(&m, "quiet.mp3"), 20);
    assert_eq!(m.get_sinks()[0].volume(), 20);
    assert_eq!(MASTER_FLOOR, 20);
}

#[test]
fn registry_matches_channels_through_operations() {
    let mut m = three_sounds(2);
    assert_consistent(&m);
    m.toggle_sound("waves.mp3").unwrap();
    assert_consistent(&m);
    m.toggle_sound("rain.mp3").unwrap();
    assert_consistent(&m);
    let _ = m.toggle_sound("wind.mp3");
    assert_consistent(&m);
    m.adjust_master_volume(-100);
    assert_consistent(&m);
    m.toggle_pause_play();
    assert_consistent(&m);
    m.toggle_sound("waves.mp3").unwrap();
    assert_consistent(&m);
    m.adjust_sound_volume("wind.mp3", 250);
    assert_consistent(&m);
}

#[test]
fn toggle_twice_restores_registry() {
    let mut m = three_sounds(2);
    m.toggle_sound("waves.mp3").unwrap();
    let before = registry(&m);
    m.toggle_sound("rain.mp3").unwrap();
    assert!(m.is_sound_playing("rain.mp3"));
    m.toggle_sound("rain.mp3").unwrap();
    assert!(!m.is_sound_playing("rain.mp3"));
    assert_eq!(registry(&m), before);
    m.toggle_sound("waves.mp3").unwrap();
    m.toggle_sound("waves.mp3").unwrap();
    assert!(m.is_sound_playing("waves.mp3"));
}

#[test]
fn toggle_twice_after_eviction_keeps_membership() {
    let mut m = three_sounds(2);
    m.toggle_sound("waves.mp3").unwrap();
    m.toggle_sound("wind.mp3").unwrap();
    assert_eq!(m.toggle_sound("rain.mp3"), Err(SoundManagerError::NoAvailableSound));
    assert_eq!(m.toggle_sound("rain.mp3"), Ok(()));
    assert!(!m.is_sound_playing("rain.mp3"));
    assert!(!m.is_sound_playing("wind.mp3"));
    assert_eq!(registry(&m), vec![("waves.mp3".to_string(), 0)]);
}

#[test]
fn full_pool_keeps_its_size() {
    let mut sounds = vec![];
    for i in 0..(MAX_SOUNDS + 1) {
        sounds.push(sound(&format!("s{}.mp3", i), "misc", 500));
    }
    let mut m = SoundManager::new(sounds);
    for i in 0..MAX_SOUNDS {
        assert_eq!(m.add_sound(&format!("s{}.mp3", i)), Ok(()));
    }
    assert_eq!(m.playing_sounds().len(), MAX_SOUNDS);
    let last = format!("s{}.mp3", MAX_SOUNDS);
    assert_eq!(m.add_sound(&last), Err(SoundManagerError::NoAvailableSound));
    assert_eq!(m.playing_sounds().len(), MAX_SOUNDS);
    assert!(!m.is_sound_playing(&format!("s{}.mp3", MAX_SOUNDS - 1)));
    for i in 0..(MAX_SOUNDS - 1) {
        assert!(m.is_sound_playing(&format!("s{}.mp3", i)));
    }
    assert!(m.playing_sounds().contains(&(last, MAX_SOUNDS - 1)));
    assert_consistent(&m);
}

#[test]
fn sound_volume_is_clamped_to_full_range() {
    let mut m = three_sounds(2);
    m.adjust_sound_volume("waves.mp3", 5000);
    assert_eq!(level(&m, "waves.mp3"), FULL_VOLUME);
    m.adjust_sound_volume("waves.mp3", -5000);
    assert_eq!(level(&m, "waves.mp3"), 0);
    m.adjust_sound_volume("waves.mp3", 420);
    assert_eq!(level(&m, "waves.mp3"), 420);
    // the other sounds are untouched
    assert_eq!(level(&m, "wind.mp3"), 300);
    assert_eq!(level(&m, "rain.mp3"), 400);
}

#[test]
fn sound_volume_follows_on_the_channel() {
    let mut m = three_sounds(2);
    m.add_sound("wind.mp3").unwrap();
    m.adjust_sound_volume("wind.mp3", -20);
    assert_eq!(level(&m, "wind.mp3"), 280);
    assert_eq!(m.get_sinks()[0].volume(), 280);
}

#[test]
fn unknown_path_volume_change_is_ignored() {
    let mut m = three_sounds(2);
    m.adjust_sound_volume("nothing.mp3", 100);
    assert_eq!(level(&m, "waves.mp3"), 500);
    assert_eq!(level(&m, "wind.mp3"), 300);
    assert_eq!(level(&m, "rain.mp3"), 400);
}

#[test]
fn master_volume_only_touches_playing_sounds() {
    let mut m = three_sounds(2);
    m.add_sound("waves.mp3").unwrap();
    m.add_sound("rain.mp3").unwrap();
    m.adjust_master_volume(5000);
    assert_eq!(level(&m, "waves.mp3"), FULL_VOLUME);
    assert_eq!(level(&m, "rain.mp3"), FULL_VOLUME);
    assert_eq!(level(&m, "wind.mp3"), 300);
    m.adjust_master_volume(-5000);
    assert_eq!(level(&m, "waves.mp3"), MASTER_FLOOR);
    assert_eq!(level(&m, "rain.mp3"), MASTER_FLOOR);
    assert_eq!(level(&m, "wind.mp3"), 300);
}

#[test]
fn save_then_load_round_trip() {
    let mut m = three_sounds(2);
    m.add_sound("rain.mp3").unwrap();
    m.add_sound("waves.mp3").unwrap();
    m.adjust_sound_volume("rain.mp3", 20);
    let records = m.save_records();
    assert_eq!(records.len(), 2);
    let mut fresh = three_sounds(2);
    fresh.load_records(&records);
    let mut paths: Vec<String> = fresh.playing_sounds().iter().map(|e| e.0.clone()).collect();
    paths.sort();
    assert_eq!(paths, vec!["rain.mp3".to_string(), "waves.mp3".to_string()]);
    assert_eq!(level(&fresh, "rain.mp3"), 420);
    assert_eq!(level(&fresh, "waves.mp3"), 500);
    assert_consistent(&fresh);
}

#[test]
fn save_records_hold_path_and_level() {
    let mut m = three_sounds(2);
    m.add_sound("wind.mp3").unwrap();
    let records = m.save_records();
    assert_eq!(records.len(), 1);
    assert_eq!(records[0].source, "wind.mp3");
    assert_eq!(records[0].volume, 300);
}

#[test]
fn load_places_records_by_position_and_drops_the_rest() {
    let mut m = three_sounds(2);
    m.add_sound("wind.mp3").unwrap();
    let records = vec![
        SoundData { source: "unknown.mp3".to_string(), volume: 100 },
        SoundData { source: "rain.mp3".to_string(), volume: 5000 },
        SoundData { source: "waves.mp3".to_string(), volume: 100 },
    ];
    m.load_records(&records);
    assert_eq!(registry(&m), vec![("rain.mp3".to_string(), 1)]);
    assert_eq!(level(&m, "rain.mp3"), FULL_VOLUME);
    assert_eq!(level(&m, "waves.mp3"), 500);
    assert!(!m.is_sound_playing("wind.mp3"));
    assert!(!m.get_sinks()[0].is_playing());
    assert_consistent(&m);
}

#[test]
fn load_keeps_first_record_of_a_path() {
    let mut m = three_sounds(2);
    let records = vec![
        SoundData { source: "waves.mp3".to_string(), volume: 100 },
        SoundData { source: "waves.mp3".to_string(), volume: 900 },
    ];
    m.load_records(&records);
    assert_eq!(registry(&m), vec![("waves.mp3".to_string(), 0)]);
    assert_eq!(level(&m, "waves.mp3"), 100);
    assert_consistent(&m);
}

#[test]
fn toggle_unknown_sound_fails() {
    let mut m = three_sounds(2);
    assert_eq!(m.toggle_sound("nothing.mp3"), Err(SoundManagerError::SoundDoesNotExists));
    assert!(m.playing_sounds().is_empty());
}

#[test]
fn add_twice_is_already_playing() {
    let mut m = three_sounds(2);
    m.add_sound("waves.mp3").unwrap();
    assert_eq!(m.add_sound("waves.mp3"), Err(SoundManagerError::AlreadyPlaying));
    assert_eq!(registry(&m), vec![("waves.mp3".to_string(), 0)]);
}

#[test]
fn remove_stopped_is_already_stopped() {
    let mut m = three_sounds(2);
    assert_eq!(m.remove_sound("waves.mp3"), Err(SoundManagerError::AlreadyStopped));
    assert_eq!(m.remove_sound("nothing.mp3"), Err(SoundManagerError::SoundDoesNotExists));
}

#[test]
fn removal_frees_the_lowest_channel_for_the_next_sound() {
    let mut m = three_sounds(2);
    m.add_sound("waves.mp3").unwrap();
    m.add_sound("wind.mp3").unwrap();
    m.remove_sound("waves.mp3").unwrap();
    assert!(!m.get_sinks()[0].is_playing());
    m.add_sound("rain.mp3").unwrap();
    assert_eq!(
        registry(&m),
        vec![("rain.mp3".to_string(), 0), ("wind.mp3".to_string(), 1)]
    );
}

#[test]
fn pause_and_resume_all_channels() {
    let mut m = three_sounds(2);
    assert!(!m.is_paused());
    m.add_sound("waves.mp3").unwrap();
    m.add_sound("wind.mp3").unwrap();
    m.toggle_pause_play();
    assert!(m.is_paused());
    assert!(m.is_sound_paused("waves.mp3"));
    assert!(m.is_sound_paused("wind.mp3"));
    assert!(m.is_sound_playing("waves.mp3"));
    m.toggle_pause_play();
    assert!(!m.is_paused());
    assert!(!m.is_sound_paused("waves.mp3"));
    assert!(!m.is_sound_paused("rain.mp3"));
}

#[test]
fn added_sound_plays_unpaused_while_others_are_paused() {
    let mut m = three_sounds(2);
    m.add_sound("waves.mp3").unwrap();
    m.toggle_pause_play();
    m.add_sound("wind.mp3").unwrap();
    assert!(!m.is_sound_paused("wind.mp3"));
    assert!(!m.is_paused());
    m.toggle_pause_play();
    assert!(m.is_sound_paused("waves.mp3"));
    assert!(m.is_sound_paused("wind.mp3"));
}

#[test]
fn duplicate_paths_are_kept_once() {
    let m = SoundManager::new(vec![
        sound("a/x.mp3", "a", 100),
        sound("a/x.mp3", "b", 200),
        sound("c/y.mp3", "c", 300),
    ]);
    assert_eq!(m.get_sound_list().len(), 2);
    assert_eq!(level(&m, "a/x.mp3"), 100);
    assert_eq!(m.categories(), &vec!["a".to_string(), "c".to_string()]);
}

#[test]
fn paths_by_index_and_category() {
    let m = SoundManager::new(vec![
        sound("n/a.mp3", "nature", 500),
        sound("n/b.mp3", "nature", 500),
        sound("r/c.mp3", "rain", 500),
        sound("r/d.mp3", "rain", 500),
    ]);
    assert_eq!(m.get_sound_path_by_index(2), "r/c.mp3");
    assert_eq!(m.get_sound_path_by_index_and_category(1, None), Some("n/b.mp3"));
    assert_eq!(m.get_sound_path_by_index_and_category(0, Some(1)), Some("r/c.mp3"));
    assert_eq!(m.get_sound_path_by_index_and_category(1, Some(1)), Some("r/d.mp3"));
    assert_eq!(m.get_sound_path_by_index_and_category(2, Some(1)), None);
    assert_eq!(m.get_sound_path_by_index_and_category(0, Some(2)), None);
    assert_eq!(m.get_sound_path_by_index_and_category(4, None), None);
}

#[test]
fn category_index_counts_within_the_category() {
    let m = SoundManager::new(vec![
        sound("n/a.mp3", "nature", 500),
        sound("r/c.mp3", "rain", 500),
        sound("n/b.mp3", "nature", 500),
    ]);
    assert_eq!(m.get_sound_path_by_index_and_category(1, Some(0)), Some("n/b.mp3"));
    assert_eq!(m.get_sound_path_by_index_and_category(0, Some(1)), Some("r/c.mp3"));
    assert_eq!(m.get_sound_path_by_index_and_category(1, Some(1)), None);
    assert_eq!(m.get_sound_path_by_index_and_category(2, Some(0)), None);
}

#[test]
fn offset_level_values() {
    assert_eq!(offset_level(500, -300, 0), 200);
    assert_eq!(offset_level(500, 600, 0), 1000);
    assert_eq!(offset_level(50, -1000, 20), 20);
    assert_eq!(offset_level(0, 0, 20), 20);
    assert_eq!(offset_level(1000, i32::MAX, 0), 1000);
    assert_eq!(offset_level(0, i32::MIN, 0), 0);
}
