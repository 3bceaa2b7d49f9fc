use ampere_core::{AmpereError, Playlist, PlaylistError, RepeatMode, ShuffleMode};

fn playlist_with(paths: &[&str]) -> Playlist {
    let mut p = Playlist::new();
    for path in paths {
        p.add_file(path.to_string(), true).unwrap();
    }
    p
}

#[test]
fn an_empty_playlist_saves_as_an_empty_array() {
    let p = Playlist::new();
    assert_eq!(p.save_to_json(), "[]");
}

#[test]
fn a_metadata_free_entry_saves_with_null_fields() {
    let p = playlist_with(&["a.mp3"]);
    assert_eq!(
        p.save_to_json(),
        "[{\"path\":\"a.mp3\",\"title\":null,\"artist\":null,\"album\":null,\"duration\":null}]"
    );
}

#[test]
fn save_then_load_reproduces_the_entry_sequence() {
    let p = playlist_with(&["a.mp3", "b.mp3", "a.mp3"]);
    let text = p.save_to_json();
    let mut q = Playlist::new();
    q.load_from_json(&text).unwrap();
    let old = p.get_entries();
    let new = q.get_entries();
    assert_eq!(old.len(), new.len());
    for (a, b) in old.iter().zip(new.iter()) {
        assert_eq!(a.path, b.path);
        assert_eq!(a.title, b.title);
        assert_eq!(a.artist, b.artist);
        assert_eq!(a.album, b.album);
        assert_eq!(a.duration, b.duration);
    }
}

#[test]
fn load_reads_all_optional_fields() {
    let text = "[{\"path\":\"x.flac\",\"title\":\"Song\",\"artist\":\"Band\",\
                 \"album\":\"Album\",\"duration\":245}]";
    let mut p = Playlist::new();
    p.load_from_json(text).unwrap();
    let es = p.get_entries();
    assert_eq!(es.len(), 1);
    assert_eq!(es[0].path, "x.flac");
    assert_eq!(es[0].title.as_deref(), Some("Song"));
    assert_eq!(es[0].artist.as_deref(), Some("Band"));
    assert_eq!(es[0].album.as_deref(), Some("Album"));
    assert_eq!(es[0].duration, Some(245));
}

#[test]
fn load_accepts_pretty_printed_documents() {
    let text = "[\n  {\n    \"path\": \"a.mp3\",\n    \"title\": null,\n    \"artist\": null,\n    \"album\": null,\n    \"duration\": 7\n  },\n  {\n    \"path\": \"b.mp3\",\n    \"title\": \"B\",\n    \"artist\": null,\n    \"album\": null,\n    \"duration\": null\n  }\n]\n";
    let mut p = Playlist::new();
    p.load_from_json(text).unwrap();
    let es = p.get_entries();
    assert_eq!(es.len(), 2);
    assert_eq!(es[0].path, "a.mp3");
    assert_eq!(es[0].duration, Some(7));
    assert_eq!(es[1].path, "b.mp3");
    assert_eq!(es[1].title.as_deref(), Some("B"));
}

#[test]
fn escaped_characters_survive_the_round_trip() {
    let text = "[{\"path\":\"a \\\"quoted\\\" \\\\ tab\\there.mp3\",\"title\":null,\
                 \"artist\":null,\"album\":null,\"duration\":null}]";
    let mut p = Playlist::new();
    p.load_from_json(text).unwrap();
    let es = p.get_entries();
    assert_eq!(es[0].path, "a \"quoted\" \\ tab\there.mp3");
    let saved = p.save_to_json();
    let mut q = Playlist::new();
    q.load_from_json(&saved).unwrap();
    assert_eq!(q.get_entries()[0].path, es[0].path);
}

#[test]
fn load_replaces_the_previous_entries_and_clamps_the_cursor() {
    let mut p = playlist_with(&["a.mp3", "b.mp3", "c.mp3"]);
    p.set_current_index(2).unwrap();
    p.set_repeat_mode(RepeatMode::All);
    p.set_shuffle_mode(ShuffleMode::On);
    let text = "[{\"path\":\"only.mp3\",\"title\":null,\"artist\":null,\"album\":null,\
                 \"duration\":null}]";
    p.load_from_json(text).unwrap();
    assert_eq!(p.len(), 1);
    assert_eq!(p.get_entries()[0].path, "only.mp3");
    assert_eq!(p.get_current_index(), Some(0));
    assert_eq!(p.get_repeat_mode(), RepeatMode::All);
    assert_eq!(p.get_shuffle_mode(), ShuffleMode::On);
}

#[test]
fn load_rejects_text_that_is_no_playlist_document() {
    let bad = [
        "",
        "nonsense",
        "{}",
        "[",
        "[{\"path\":\"a\"}]",
        "[{\"path\":123,\"title\":null,\"artist\":null,\"album\":null,\"duration\":null}]",
        "[{\"path\":\"a\",\"title\":null,\"artist\":null,\"album\":null,\"duration\":-3}]",
        "[{\"path\":\"a\",\"title\":null,\"artist\":null,\"album\":null,\"duration\":99999999999999999999}]",
        "[{\"title\":null,\"path\":\"a\",\"artist\":null,\"album\":null,\"duration\":null}]",
        "[] trailing",
    ];
    for text in bad {
        let mut p = playlist_with(&["keep.mp3"]);
        assert_eq!(
            p.load_from_json(text),
            Err(PlaylistError::PersistenceError),
            "accepted: {}",
            text
        );
        assert_eq!(p.len(), 1);
        assert_eq!(p.get_entries()[0].path, "keep.mp3");
    }
}

#[test]
fn zero_and_large_durations_round_trip() {
    let text = "[{\"path\":\"a\",\"title\":null,\"artist\":null,\"album\":null,\"duration\":0},\
                {\"path\":\"b\",\"title\":null,\"artist\":null,\"album\":null,\
                 \"duration\":18446744073709551615}]";
    let mut p = Playlist::new();
    p.load_from_json(text).unwrap();
    let es = p.get_entries();
    assert_eq!(es[0].duration, Some(0));
    assert_eq!(es[1].duration, Some(18446744073709551615));
    let saved = p.save_to_json();
    let mut q = Playlist::new();
    q.load_from_json(&saved).unwrap();
    assert_eq!(q.get_entries()[1].duration, Some(18446744073709551615));
}

#[test]
fn host_wrappers_save_and_load() {
    let p = playlist_with(&["a.mp3"]);
    let text = p.save_playlist();
    let mut q = Playlist::new_playlist();
    q.load_playlist(&text).unwrap();
    assert_eq!(q.get_playlist_length(), 1);
    let err = q.load_playlist("not json");
    assert!(matches!(err, Err(AmpereError::FileError { .. })));
    assert_eq!(q.get_playlist_length(), 1);
}
