use syncread::playlist::{format_time, PlaylistState};

#[test]
fn test_playlist_creation() {
    let files = vec![
        String::from("/path/to/file1.mp4"),
        String::from("/path/to/file2.jpg"),
    ];

    let playlist = PlaylistState::new(files);

    assert_eq!(playlist.len(), 2);
    assert_eq!(playlist.current_index, 0);
    assert_eq!(playlist.current_position_ms, (0.0_f64 * 1000.0) as u64);
    assert!(playlist.is_paused);
}

#[test]
fn test_navigation() {
    let files = vec![
        String::from("/path/to/file1.mp4"),
        String::from("/path/to/file2.jpg"),
        String::from("/path/to/file3.png"),
    ];

    let mut playlist = PlaylistState::new(files);

    // Test next
    assert!(playlist.next());
    assert_eq!(playlist.current_index, 1);

    assert!(playlist.next());
    assert_eq!(playlist.current_index, 2);

    // At end, next should return false
    assert!(!playlist.next());
    assert_eq!(playlist.current_index, 2);

    // Test prev
    assert!(playlist.prev());
    assert_eq!(playlist.current_index, 1);

    assert!(playlist.prev());
    assert_eq!(playlist.current_index, 0);

    // At beginning, prev should return false
    assert!(!playlist.prev());
    assert_eq!(playlist.current_index, 0);
}

#[test]
fn test_time_formatting() {
    assert_eq!(format_time(65.0 as u64), "01:05");
    assert_eq!(format_time(3665.0 as u64), "01:01:05");
    assert_eq!(format_time(30.5 as u64), "00:30");
}

#[test]
fn test_position_update() {
    let files = vec![String::from("/test.mp4")];
    let mut playlist = PlaylistState::new(files);

    // Small changes shouldn't trigger update
    assert!(!playlist.update_position(0, (0.3_f64 * 1000.0) as u64, true));

    // Large changes should trigger update
    assert!(playlist.update_position(0, (1.0_f64 * 1000.0) as u64, true));

    // State changes should trigger update
    assert!(playlist.update_position(0, (1.0_f64 * 1000.0) as u64, false));
}

#[test]
fn test_current_item_and_duration() {
    let files = vec![String::from("/a/one.mp4"), String::from("/a/two.jpg")];
    let mut playlist = PlaylistState::new(files);
    let item = playlist.current_item().unwrap();
    assert_eq!(item.path, "/a/one.mp4");
    assert_eq!(item.title.as_deref(), Some("one.mp4"));
    assert_eq!(playlist.format_current_duration(), "--:--");
    playlist.update_current_duration(90_000);
    assert_eq!(playlist.format_current_duration(), "01:30");
    assert!(playlist.is_at_beginning());
    assert!(!playlist.is_at_end());
    assert!(!playlist.is_empty());
}

#[test]
fn test_time_formatting_large_hours() {
    assert_eq!(format_time(0), "00:00");
    assert_eq!(format_time(359_999), "99:59:59");
    assert_eq!(format_time(360_000), "100:00:00");
}

#[test]
fn test_current_progress_permille() {
    let files = vec![String::from("/a/one.mp4")];
    let mut playlist = PlaylistState::new(files);
    assert_eq!(playlist.current_progress_permille(), 0);
    playlist.update_current_duration(10_000);
    assert!(playlist.update_position(0, 2_500, true));
    assert_eq!(playlist.current_progress_permille(), 250);
    // A position past the end clamps to whole.
    playlist.update_position(0, 12_000, true);
    assert_eq!(playlist.current_progress_permille(), 1000);
}
