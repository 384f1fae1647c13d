use subsonic_vault::classifier::extension_of;
use subsonic_vault::extension_to_mime;
use subsonic_vault::is_audiofile;

fn s(x: &str) -> String {
    x.to_string()
}

#[test]
fn accepts_whitelisted_extensions() {
    assert!(is_audiofile(&s("a.mp3")));
    assert!(is_audiofile(&s("b.m4a")));
    assert!(is_audiofile(&s("c.m4b")));
    assert!(is_audiofile(&s("d.flac")));
    assert!(is_audiofile(&s("e.wav")));
    assert!(is_audiofile(&s("f.opus")));
}

#[test]
fn rejects_other_extensions() {
    assert!(!is_audiofile(&s("c.txt")));
    assert!(!is_audiofile(&s("noextension")));
    assert!(!is_audiofile(&s("archive.ogg")));
    assert!(!is_audiofile(&s("a.mp3.bak")));
}

#[test]
fn extension_match_is_case_sensitive() {
    assert!(!is_audiofile(&s("a.MP3")));
    assert!(!is_audiofile(&s("b.Flac")));
}

#[test]
fn hidden_files_and_trailing_dots_have_no_usable_extension() {
    assert!(!is_audiofile(&s(".mp3")));
    assert!(!is_audiofile(&s("dir/.mp3")));
    assert!(!is_audiofile(&s("name.")));
    assert_eq!(extension_of(&s(".bashrc")), None);
    assert_eq!(extension_of(&s("dir/")), None);
}

#[test]
fn nested_paths_classify_by_final_component() {
    assert!(is_audiofile(&s("root/x/y.mp3")));
    assert!(is_audiofile(&s("root/z.wav")));
    assert!(!is_audiofile(&s("root.mp3/readme")));
}

#[test]
fn extension_of_takes_last_dot() {
    assert_eq!(extension_of(&s("a.tar.gz")), Some(s("gz")));
    assert_eq!(extension_of(&s("root/x/y.mp3")), Some(s("mp3")));
    assert_eq!(extension_of(&s("noext")), None);
}

#[test]
fn mime_mapping() {
    assert_eq!(extension_to_mime(&s("m4b")), s("audio/mp4"));
    assert_eq!(extension_to_mime(&s("m4a")), s("audio/mp4"));
    assert_eq!(extension_to_mime(&s("mp3")), s("audio/mp3"));
    assert_eq!(extension_to_mime(&s("flac")), s("audio/flac"));
    assert_eq!(extension_to_mime(&s("wav")), s("audio/wav"));
    assert_eq!(extension_to_mime(&s("opus")), s("audio/opus"));
}
