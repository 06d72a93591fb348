use sonicsearch::paths::{
    extension_of, file_extension, file_name, get_file_name, has_wav_extension,
    is_audio_extension, is_audio_file, is_wav, parse_path, PathError,
};

#[test]
fn wav_files_are_audio_whatever_the_case() {
    assert!(is_audio_file("track.wav"));
    assert!(is_audio_file("track.WAV"));
    assert!(is_audio_file("track.Wav"));
    assert!(is_audio_file("one.two.wav"));
    assert!(is_audio_file("..wav"));
    assert!(is_audio_file("zwölf.wav"));
}

#[test]
fn other_files_are_no_audio() {
    assert!(!is_audio_file("track.mp3"));
    assert!(!is_audio_file("track.flac"));
    assert!(!is_audio_file("track"));
    assert!(!is_audio_file("track.wav.txt"));
    assert!(!is_audio_file("track.wave"));
    assert!(!is_audio_file("track."));
    assert!(!is_audio_file("wav"));
    assert!(!is_audio_file(""));
}

#[test]
fn a_name_that_is_all_extension_has_none() {
    assert!(!is_audio_file(".wav"));
    assert!(!is_audio_file("."));
    assert!(!is_audio_file(".."));
}

#[test]
fn audio_by_name_agrees_with_the_extension_of_the_path() {
    for name in
        ["a.wav", "A.WAV", ".wav", "..wav", "a.b.wav", "a.wav.b", "wav", "a.", "", "é.wAv", ".a.wav"]
    {
        let extension = std::path::Path::new(name).extension().and_then(|e| e.to_str());
        let expected = extension.map(|e| e.to_lowercase() == "wav").unwrap_or(false);
        assert_eq!(is_audio_file(name), expected);
    }
}

#[test]
fn audio_extensions() {
    assert!(is_audio_extension(Some("wav")));
    assert!(is_audio_extension(Some("WAV")));
    assert!(is_audio_extension(Some("wAv")));
    assert!(!is_audio_extension(Some("")));
    assert!(!is_audio_extension(Some("wav ")));
    assert!(!is_audio_extension(Some("aiff")));
    assert!(!is_audio_extension(None));
}

#[test]
fn the_extension_is_what_follows_the_last_dot() {
    assert_eq!(extension_of("a/b/c.wav"), "wav");
    assert_eq!(extension_of("a.b.C"), "C");
    assert_eq!(extension_of("trailing."), "");
    assert_eq!(extension_of(".hidden"), "hidden");
    assert_eq!(extension_of("dir.d/file"), "d/file");
    assert_eq!(extension_of("é.ü"), "ü");
}

#[test]
fn a_path_without_a_dot_is_its_own_extension() {
    assert_eq!(extension_of("wav"), "wav");
    assert_eq!(extension_of(""), "");
    assert_eq!(extension_of("a/b"), "a/b");
}

#[test]
fn wav_by_the_text_behind_the_last_dot() {
    assert!(has_wav_extension("/home/me/sounds/rain.wav"));
    assert!(has_wav_extension("rain.WAV"));
    assert!(has_wav_extension("wav"));
    assert!(!has_wav_extension("rain.wav.bak"));
    assert!(!has_wav_extension("rain.mp3"));
    assert!(!has_wav_extension("rain"));
}

#[test]
fn an_existing_path_is_admitted_as_it_is() {
    let parsed = parse_path("/home/me/sounds", Ok(true)).ok().expect("the path exists");
    assert_eq!(parsed, "/home/me/sounds");
}

#[test]
fn a_missing_path_is_refused() {
    match parse_path("/nowhere", Ok(false)) {
        Err(PathError::Missing { path }) => assert_eq!(path, "/nowhere"),
        _ => panic!("the path does not exist"),
    }
}

#[test]
fn a_failed_check_is_refused_with_its_report() {
    match parse_path("/secret", Err("permission denied".to_string())) {
        Err(PathError::Unreadable { path, cause }) => {
            assert_eq!(path, "/secret");
            assert_eq!(cause, "permission denied");
        }
        _ => panic!("the check failed"),
    }
}

#[test]
fn the_extension_of_a_file_name() {
    assert_eq!(file_extension("song.mp3"), Some("mp3"));
    assert_eq!(file_extension("song.WAV"), Some("WAV"));
    assert_eq!(file_extension("a.b.c"), Some("c"));
    assert_eq!(file_extension("song."), Some(""));
    assert_eq!(file_extension("..wav"), Some("wav"));
    assert_eq!(file_extension("é.ü"), Some("ü"));
}

#[test]
fn names_without_an_extension() {
    assert_eq!(file_extension("song"), None);
    assert_eq!(file_extension(".wav"), None);
    assert_eq!(file_extension("."), None);
    assert_eq!(file_extension(""), None);
}

#[test]
fn the_extension_agrees_with_the_extension_of_the_path() {
    for name in ["a.wav", ".wav", "..wav", "a.b.wav", "a.wav.b", "wav", "a.", "", ".a.wav", "a"] {
        let expected = std::path::Path::new(name).extension().and_then(|e| e.to_str());
        assert_eq!(file_extension(name), expected);
    }
}

#[test]
fn only_wav_is_wav() {
    assert!(is_wav("wav"));
    assert!(!is_wav("mp3"));
    assert!(!is_wav("WAV"));
    assert!(!is_wav("wa"));
    assert!(!is_wav("wave"));
    assert!(!is_wav(""));
    assert!(!is_wav("wäv"));
}

#[test]
fn the_name_of_a_file_is_the_last_component_of_its_path() {
    assert_eq!(file_name("/home/me/sounds/rain.wav"), Some("rain.wav"));
    assert_eq!(file_name("rain.wav"), Some("rain.wav"));
    assert_eq!(file_name("a//b"), Some("b"));
    assert_eq!(file_name("/b"), Some("b"));
    assert_eq!(file_name("dir/.hidden"), Some(".hidden"));
    assert_eq!(file_name("dir/..."), Some("..."));
    assert_eq!(get_file_name("/home/me/sounds/rain.wav"), "rain.wav");
    assert_eq!(get_file_name("zwölf/ü.wav"), "ü.wav");
    assert_eq!(get_file_name("plain"), "plain");
}

#[test]
fn some_paths_name_no_file() {
    assert_eq!(file_name(""), None);
    assert_eq!(file_name("/"), None);
    assert_eq!(file_name("dir/"), None);
    assert_eq!(file_name("."), None);
    assert_eq!(file_name(".."), None);
    assert_eq!(file_name("dir/."), None);
    assert_eq!(file_name("dir/.."), None);
}

#[test]
fn the_name_agrees_with_the_file_name_of_the_path_where_there_is_one() {
    for path in ["/a/b.wav", "b", "a/b/c", "/x", "a//b", "dir/.hidden", "a/..b", "a/b.c.d"] {
        let expected = std::path::Path::new(path).file_name().and_then(|n| n.to_str());
        assert_eq!(file_name(path), expected);
    }
}
