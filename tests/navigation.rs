use serenit::navigation::{mixer_index, mixer_step, next_category};
use serenit::sound::Sound;
use serenit::sound_manager::SoundManager;

#[test]
fn category_cycle_forward() {
    assert_eq!(next_category(None, 3, false), Some(0));
    assert_eq!(next_category(Some(0), 3, false), Some(1));
    assert_eq!(next_category(Some(2), 3, false), None);
}

#[test]
fn category_cycle_backward() {
    assert_eq!(next_category(None, 3, true), Some(2));
    assert_eq!(next_category(Some(2), 3, true), Some(1));
    assert_eq!(next_category(Some(0), 3, true), None);
}

#[test]
fn no_categories_no_filter() {
    assert_eq!(next_category(None, 0, true), None);
    assert_eq!(next_category(Some(1), 0, false), None);
}

#[test]
fn mixer_index_bounds() {
    assert_eq!(mixer_index(5, 0), None);
    assert_eq!(mixer_index(5, 3), Some(2));
    assert_eq!(mixer_index(1, 3), Some(1));
}

#[test]
fn mixer_steps() {
    assert_eq!(mixer_step(None, 0, true), Some(0));
    assert_eq!(mixer_step(Some(0), 3, true), Some(1));
    assert_eq!(mixer_step(Some(2), 3, true), Some(2));
    assert_eq!(mixer_step(Some(0), 3, false), Some(0));
    assert_eq!(mixer_step(Some(2), 3, false), Some(1));
    assert_eq!(mixer_step(Some(1), 0, false), None);
}

#[test]
fn preset_with_unknown_name_changes_nothing() {
    let mut m = SoundManager::new(vec![Sound::new("a.mp3", "x/a.mp3", "x", 500)]);
    m.play_preset("b.mp3", -100);
    assert!(m.playing_sounds().is_empty());
    assert_eq!(m.get_sound_by_path("x/a.mp3").unwrap().volume(), 500);
    m.play_preset("a.mp3", -100);
    assert!(m.is_sound_playing("x/a.mp3"));
    assert_eq!(m.get_sound_by_path("x/a.mp3").unwrap().volume(), 400);
    assert_eq!(m.get_sinks()[0].volume(), 400);
}
