use rustems::stems::{
    resolve_track_name, split_stems_in_order, stem_file_name, stem_from_lowercase, upload_file_names,
    stem_from_string, upload_slot, upload_stems_in_order, SongLoader, StemError, StemType,
};

#[test]
fn stem_names_in_any_case() {
    assert_eq!(stem_from_string("drums").ok(), Some(StemType::Drums));
    assert_eq!(stem_from_string("BASS").ok(), Some(StemType::Bass));
    assert_eq!(stem_from_string("Melody").ok(), Some(StemType::Melody));
    assert_eq!(stem_from_string("vOcAlS").ok(), Some(StemType::Vocals));
}

#[test]
fn unknown_stem_name_is_an_error() {
    match stem_from_string("Guitar") {
        Err(StemError::InvalidStem(s)) => assert_eq!(s, "Guitar"),
        _ => panic!("expected InvalidStem"),
    }
    assert_eq!(stem_from_string("Guitar").err().unwrap().message(), "Invalid stem type: Guitar");
    assert!(stem_from_string(" drums").is_err());
    assert_eq!(stem_from_lowercase("Drums"), None);
}

#[test]
fn error_messages() {
    assert_eq!(StemError::AudioError("boom".to_string()).message(), "Audio error: boom");
}

#[test]
fn upload_slots_follow_the_readme_table() {
    let order = upload_stems_in_order();
    assert_eq!(order, vec![StemType::Melody, StemType::Vocals, StemType::Bass, StemType::Drums]);
    let slots: Vec<usize> = order.iter().map(|s| upload_slot(*s)).collect();
    assert_eq!(slots, vec![1, 2, 3, 4]);
    assert_eq!(stem_file_name(StemType::Melody, "mp3"), "melody.mp3");
    assert_eq!(stem_file_name(StemType::Drums, "wav"), "drums.wav");
}

#[test]
fn split_order_is_vocals_drums_bass_melody() {
    assert_eq!(split_stems_in_order(), vec![StemType::Vocals, StemType::Drums, StemType::Bass, StemType::Melody]);
}

#[test]
fn track_name_resolution() {
    assert_eq!(resolve_track_name("  My Song \t", Some("folder")), "My Song");
    assert_eq!(resolve_track_name("   ", Some("folder")), "folder");
    assert_eq!(resolve_track_name("", None), "track");
    assert_eq!(resolve_track_name("\u{3000}Name\u{a0}", None), "Name");
    assert_eq!(resolve_track_name("\u{2028}", Some("d")), "d");
}

#[test]
fn song_loader_tries_extensions_then_moves_on() {
    let mut loader = SongLoader::new("/songs/x");
    let (stem, path) = loader.next_candidate().unwrap();
    assert_eq!((stem, path.as_str()), (StemType::Drums, "/songs/x/drums.wav"));
    loader.record(false);
    assert_eq!(loader.next_candidate().unwrap().1, "/songs/x/drums.mp3");
    loader.record(true);
    assert_eq!(loader.next_candidate().unwrap(), (StemType::Bass, "/songs/x/bass.wav".to_string()));
    loader.record(false);
    loader.record(false);
    loader.record(false);
    assert_eq!(loader.next_candidate().unwrap().1, "/songs/x/bass.flac");
    loader.record(false);
    assert_eq!(loader.next_candidate().unwrap(), (StemType::Melody, "/songs/x/melody.wav".to_string()));
    loader.record(true);
    assert_eq!(loader.next_candidate().unwrap().0, StemType::Vocals);
    loader.record(true);
    assert!(loader.next_candidate().is_none());
    assert_eq!(loader.loaded_count(), 3);
    assert!(loader.finish().is_ok());
}

#[test]
fn song_loader_with_nothing_loaded_fails() {
    let mut loader = SongLoader::new("d");
    while loader.next_candidate().is_some() {
        loader.record(false);
    }
    assert_eq!(loader.loaded_count(), 0);
    match loader.finish() {
        Err(StemError::AudioError(m)) => assert_eq!(m, "No stems could be loaded"),
        _ => panic!("expected an error"),
    }
}

#[test]
fn melody_may_also_be_called_other() {
    assert_eq!(upload_file_names(StemType::Melody), vec!["melody.mp3".to_string(), "other.mp3".to_string()]);
    assert_eq!(upload_file_names(StemType::Vocals), vec!["vocals.mp3".to_string()]);
    let mut loader = SongLoader::new("f");
    loader.record(true);
    loader.record(true);
    let mut tried = Vec::new();
    while let Some((StemType::Melody, path)) = loader.next_candidate() {
        tried.push(path);
        loader.record(false);
    }
    assert_eq!(
        tried,
        vec!["f/melody.wav", "f/melody.mp3", "f/melody.ogg", "f/melody.flac", "f/other.mp3"]
    );
    assert_eq!(loader.next_candidate().unwrap(), (StemType::Vocals, "f/vocals.wav".to_string()));
    assert_eq!(loader.loaded_count(), 2);
}

#[test]
fn track_name_trims_unicode_white_space() {
    assert_eq!(resolve_track_name("\u{3000}Song\u{a0}\n", Some("folder")), "Song");
    assert_eq!(resolve_track_name("\u{2003}", None), "track");
}
