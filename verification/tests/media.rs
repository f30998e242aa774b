use syncread::media::is_media_file;

#[test]
fn test_media_extensions_recognized() {
    assert!(is_media_file("/films/a.mp4"));
    assert!(is_media_file("/pics/b.JPG"));
    assert!(is_media_file("c.webm"));
    assert!(is_media_file("/music/d.FlAc"));
}

#[test]
fn test_non_media_rejected() {
    assert!(!is_media_file("/notes/readme.txt"));
    assert!(!is_media_file("/bin/noext"));
    assert!(!is_media_file("/home/.hidden"));
    assert!(!is_media_file("/films/trailing."));
    assert!(!is_media_file(""));
}
