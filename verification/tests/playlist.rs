use ampere_core::{AmpereError, Playlist, PlaylistError, RepeatMode, ShuffleMode};

fn playlist_with(paths: &[&str]) -> Playlist {
    let mut p = Playlist::new();
    for path in paths {
        p.add_file(path.to_string(), true).unwrap();
    }
    p
}

#[test]
fn new_playlist_is_empty() {
    let p = Playlist::new();
    assert!(p.is_empty());
    assert_eq!(p.len(), 0);
    assert_eq!(p.get_current_index(), None);
    assert_eq!(p.get_repeat_mode(), RepeatMode::Off);
    assert_eq!(p.get_shuffle_mode(), ShuffleMode::Off);
}

#[test]
fn add_file_appends_an_entry_without_metadata() {
    let mut p = Playlist::new();
    p.add_file("a.mp3".to_string(), true).unwrap();
    p.add_file("a.mp3".to_string(), true).unwrap();
    assert_eq!(p.len(), 2);
    let es = p.get_entries();
    assert_eq!(es[0].path, "a.mp3");
    assert_eq!(es[1].path, "a.mp3");
    assert_eq!(es[0].title, None);
    assert_eq!(es[0].artist, None);
    assert_eq!(es[0].album, None);
    assert_eq!(es[0].duration, None);
}

#[test]
fn add_file_rejects_a_missing_file() {
    let mut p = Playlist::new();
    assert_eq!(
        p.add_file("missing.mp3".to_string(), false),
        Err(PlaylistError::NotFound)
    );
    assert!(p.is_empty());
}

#[test]
fn remove_out_of_range_is_rejected() {
    let mut p = playlist_with(&["a.mp3", "b.mp3", "c.mp3"]);
    assert_eq!(p.remove_file(5), Err(PlaylistError::OutOfRange));
    let es = p.get_entries();
    assert_eq!(es.len(), 3);
    assert_eq!(es[0].path, "a.mp3");
    assert_eq!(es[1].path, "b.mp3");
    assert_eq!(es[2].path, "c.mp3");
}

#[test]
fn remove_shifts_later_entries_down() {
    let mut p = playlist_with(&["a.mp3", "b.mp3", "c.mp3"]);
    p.remove_file(1).unwrap();
    let es = p.get_entries();
    assert_eq!(es.len(), 2);
    assert_eq!(es[0].path, "a.mp3");
    assert_eq!(es[1].path, "c.mp3");
}

#[test]
fn remove_clamps_a_cursor_left_past_the_end() {
    let mut p = playlist_with(&["a.mp3", "b.mp3", "c.mp3"]);
    p.set_current_index(2).unwrap();
    p.remove_file(2).unwrap();
    assert_eq!(p.get_current_index(), Some(1));
}

#[test]
fn remove_clears_the_cursor_of_an_emptied_playlist() {
    let mut p = playlist_with(&["a.mp3"]);
    p.set_current_index(0).unwrap();
    p.remove_file(0).unwrap();
    assert_eq!(p.get_current_index(), None);
    assert!(p.is_empty());
}

#[test]
fn clear_empties_entries_and_cursor_but_keeps_modes() {
    let mut p = playlist_with(&["a.mp3", "b.mp3"]);
    p.set_current_index(1).unwrap();
    p.set_repeat_mode(RepeatMode::All);
    p.set_shuffle_mode(ShuffleMode::On);
    p.clear();
    assert!(p.is_empty());
    assert_eq!(p.get_current_index(), None);
    assert_eq!(p.get_repeat_mode(), RepeatMode::All);
    assert_eq!(p.get_shuffle_mode(), ShuffleMode::On);
}

#[test]
fn set_current_index_rejects_out_of_range() {
    let mut p = playlist_with(&["a.mp3"]);
    assert_eq!(p.set_current_index(1), Err(PlaylistError::OutOfRange));
    assert_eq!(p.get_current_index(), None);
    p.set_current_index(0).unwrap();
    assert_eq!(p.get_current_index(), Some(0));
}

#[test]
fn current_track_follows_the_cursor() {
    let mut p = playlist_with(&["a.mp3", "b.mp3"]);
    assert!(p.get_current_track().is_none());
    p.set_current_index(1).unwrap();
    assert_eq!(p.get_current_track().unwrap().path, "b.mp3");
    assert_eq!(p.get_current_track_path().unwrap(), "b.mp3");
}

#[test]
fn advance_cycles_through_three_entries_under_repeat_all() {
    let mut p = playlist_with(&["a.mp3", "b.mp3", "c.mp3"]);
    p.set_current_index(0).unwrap();
    p.set_repeat_mode(RepeatMode::All);
    let e = p.get_next_track().unwrap();
    assert_eq!(e.path, "b.mp3");
    assert_eq!(p.get_current_index(), Some(1));
    let e = p.get_next_track().unwrap();
    assert_eq!(e.path, "c.mp3");
    assert_eq!(p.get_current_index(), Some(2));
    let e = p.get_next_track().unwrap();
    assert_eq!(e.path, "a.mp3");
    assert_eq!(p.get_current_index(), Some(0));
}

#[test]
fn advance_stops_at_the_last_index_without_repeat() {
    let mut p = playlist_with(&["a.mp3", "b.mp3"]);
    p.set_current_index(1).unwrap();
    assert!(p.get_next_track().is_none());
    assert_eq!(p.get_current_index(), Some(1));
}

#[test]
fn advance_without_a_cursor_returns_none() {
    let mut p = playlist_with(&["a.mp3"]);
    assert!(p.get_next_track().is_none());
    assert_eq!(p.get_current_index(), None);
}

#[test]
fn advance_on_an_empty_playlist_returns_none() {
    let mut p = Playlist::new();
    assert!(p.get_next_track().is_none());
    assert!(p.get_previous_track().is_none());
}

#[test]
fn retreat_stops_at_the_first_index_without_repeat() {
    let mut p = playlist_with(&["a.mp3", "b.mp3"]);
    p.set_current_index(0).unwrap();
    assert!(p.get_previous_track().is_none());
    assert_eq!(p.get_current_index(), Some(0));
}

#[test]
fn retreat_wraps_to_the_last_index_under_repeat_all() {
    let mut p = playlist_with(&["a.mp3", "b.mp3", "c.mp3"]);
    p.set_current_index(0).unwrap();
    p.set_repeat_mode(RepeatMode::All);
    let e = p.get_previous_track().unwrap();
    assert_eq!(e.path, "c.mp3");
    assert_eq!(p.get_current_index(), Some(2));
}

#[test]
fn advance_then_retreat_restores_the_cursor_in_linear_mode() {
    let mut p = playlist_with(&["a.mp3", "b.mp3", "c.mp3"]);
    p.set_current_index(1).unwrap();
    p.get_next_track().unwrap();
    p.get_previous_track().unwrap();
    assert_eq!(p.get_current_index(), Some(1));
}

#[test]
fn advance_then_retreat_restores_the_cursor_in_shuffle_mode() {
    let mut p = playlist_with(&["a.mp3", "b.mp3", "c.mp3", "d.mp3", "e.mp3", "f.mp3"]);
    p.set_shuffle_mode(ShuffleMode::On);
    p.set_current_index(1).unwrap();
    p.get_next_track().unwrap();
    p.get_previous_track().unwrap();
    assert_eq!(p.get_current_index(), Some(1));
}

#[test]
fn repeat_one_is_not_special_cased_in_traversal() {
    let mut p = playlist_with(&["a.mp3", "b.mp3"]);
    p.set_repeat_mode(RepeatMode::One);
    p.set_current_index(1).unwrap();
    assert!(p.get_next_track().is_none());
    assert_eq!(p.get_current_index(), Some(1));
    p.set_current_index(0).unwrap();
    assert_eq!(p.get_next_track().unwrap().path, "b.mp3");
}

#[test]
fn shuffle_order_for_six_entries_is_the_golden_permutation() {
    // For n = 6 the swap formula (i with (i + 2) mod 6) turns
    // [0, 1, 2, 3, 4, 5] into [0, 1, 4, 5, 2, 3].
    let mut p = playlist_with(&["t0.mp3", "t1.mp3", "t2.mp3", "t3.mp3", "t4.mp3", "t5.mp3"]);
    p.set_shuffle_mode(ShuffleMode::On);
    p.set_repeat_mode(RepeatMode::All);
    p.set_current_index(0).unwrap();
    let expected = ["t1.mp3", "t4.mp3", "t5.mp3", "t2.mp3", "t3.mp3", "t0.mp3"];
    for want in expected {
        assert_eq!(p.get_next_track().unwrap().path, want);
    }
}

#[test]
fn shuffle_traversal_stops_at_the_end_of_the_order_without_repeat() {
    // For n = 3 the swap formula with offset 1 gives the order [0, 2, 1].
    let mut p = playlist_with(&["t0.mp3", "t1.mp3", "t2.mp3"]);
    p.set_shuffle_mode(ShuffleMode::On);
    assert_eq!(p.set_current_index(0), Ok(()));
    assert_eq!(p.get_next_track().unwrap().path, "t2.mp3");
    assert_eq!(p.get_next_track().unwrap().path, "t1.mp3");
    assert!(p.get_next_track().is_none());
    assert_eq!(p.get_current_index(), Some(1));
}

#[test]
fn host_wrappers_mirror_the_core_operations() {
    let mut p = Playlist::new_playlist();
    p.add_file_to_playlist("a.mp3".to_string(), true).unwrap();
    p.add_file_to_playlist("b.mp3".to_string(), true).unwrap();
    assert_eq!(p.get_playlist_length(), 2);
    assert!(!p.is_playlist_empty());
    p.set_current_track_index(0).unwrap();
    assert_eq!(p.get_current_track_index(), Some(0));
    assert_eq!(p.get_current_track_path().unwrap(), "a.mp3");
    p.set_repeat(RepeatMode::All);
    assert_eq!(p.get_repeat(), RepeatMode::All);
    p.set_shuffle(ShuffleMode::Off);
    assert_eq!(p.get_shuffle(), ShuffleMode::Off);
    assert_eq!(p.get_next_track_path().unwrap(), "b.mp3");
    assert_eq!(p.get_previous_track_path().unwrap(), "a.mp3");
    p.remove_file_from_playlist(0).unwrap();
    assert_eq!(p.get_playlist_length(), 1);
    p.clear_playlist();
    assert!(p.is_playlist_empty());
}

#[test]
fn host_wrappers_surface_typed_errors() {
    let mut p = Playlist::new_playlist();
    let err = p.add_file_to_playlist("gone.mp3".to_string(), false);
    assert!(matches!(err, Err(AmpereError::FileError { .. })));
    let err = p.remove_file_from_playlist(0);
    assert!(matches!(err, Err(AmpereError::FileError { .. })));
    let err = p.set_current_track_index(0);
    assert!(matches!(err, Err(AmpereError::InvalidParameter { .. })));
}
