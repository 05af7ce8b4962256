use riposte_client::music::{era_of_song, Era, GameMusic};

#[test]
fn songs_are_sorted_by_their_directory() {
    assert_eq!(era_of_song("music/ancient/song.ogg"), Some(Era::Ancient));
    assert_eq!(era_of_song("music/classical/a"), Some(Era::Classical));
    assert_eq!(era_of_song("music/medieval/a"), Some(Era::Medieval));
    assert_eq!(era_of_song("music/renaissance/a"), Some(Era::Renaissance));
    assert_eq!(era_of_song("music/industrial/a"), Some(Era::Industrial));
    assert_eq!(era_of_song("music/modern/a"), Some(Era::Modern));
    assert_eq!(era_of_song("music/future"), Some(Era::Future));
}

#[test]
fn other_sounds_are_not_music() {
    assert_eq!(era_of_song("sound/event/move"), None);
    assert_eq!(era_of_song("music"), None);
    assert_eq!(era_of_song("music/"), None);
    assert_eq!(era_of_song("music/space/a"), None);
    assert_eq!(era_of_song("musical/ancient/a"), None);
    assert_eq!(era_of_song("music/Ancient/a"), None);
    assert_eq!(era_of_song("/music/ancient/a"), None);
    assert_eq!(era_of_song(""), None);
}

fn sounds() -> Vec<String> {
    ["music/ancient/a", "sound/event/move", "music/modern/b", "music/ancient/c", "music/none/d"]
        .iter()
        .map(|s| s.to_string())
        .collect()
}

#[test]
fn songs_are_grouped_by_era() {
    let music: GameMusic<u32> = GameMusic::new(&sounds());
    assert!(music.current_song.is_none());
    assert_eq!(music.song_count(Era::Ancient), 2);
    assert_eq!(music.song_count(Era::Modern), 1);
    assert_eq!(music.song_count(Era::Future), 0);
}

#[test]
fn songs_start_in_order_of_listing() {
    let mut music: GameMusic<u32> = GameMusic::new(&sounds());
    assert_eq!(music.start_song(Era::Ancient, 0), "music/ancient/a");
    assert_eq!(music.start_song(Era::Ancient, 1), "music/ancient/c");
    assert_eq!(music.start_song(Era::Modern, 0), "music/modern/b");
}

#[test]
fn a_new_song_starts_when_needed() {
    let mut music: GameMusic<u32> = GameMusic::new(&sounds());
    assert!(music.needs_new_song(Era::Ancient, false));
    assert!(!music.picker_stale(Era::Ancient));
    assert!(music.picker_stale(Era::Modern));
    music.start_song(Era::Ancient, 1);
    music.current_song = Some(7);
    assert!(!music.needs_new_song(Era::Ancient, false));
    assert!(music.needs_new_song(Era::Ancient, true));
    assert!(music.needs_new_song(Era::Classical, false));
    music.start_song(Era::Modern, 0);
    assert!(!music.picker_stale(Era::Modern));
    assert!(music.picker_stale(Era::Ancient));
}

#[test]
fn every_listed_song_is_of_its_era() {
    let mut music: GameMusic<u32> = GameMusic::new(&sounds());
    for era in [Era::Ancient, Era::Modern] {
        for i in 0..music.song_count(era) {
            let song = music.start_song(era, i);
            assert_eq!(era_of_song(&song), Some(era));
            assert!(sounds().contains(&song));
        }
    }
}
