use syncread::client::SyncClient;
use syncread::protocol::{SessionState, UserState};

#[test]
fn test_user_state_creation() {
    let state = UserState::new("user1".to_string());
    assert_eq!(state.user_id, "user1");
    assert_eq!(state.playlist_position, 0);
    assert!(state.is_paused);
}

#[test]
fn test_session_state_sync_check() {
    let mut session = SessionState::new();

    let mut user1 = UserState::new("user1".to_string());
    user1.playlist_position = 5;

    let mut user2 = UserState::new("user2".to_string());
    user2.playlist_position = 5;

    session.update_user(user1);
    session.update_user(user2);

    assert!(session.check_sync_status(1));

    // Make them out of sync
    let mut user2_updated = session.get_user("user2").unwrap().clone();
    user2_updated.playlist_position = 10;
    session.update_user(user2_updated);

    assert!(!session.check_sync_status(1));
}

#[test]
fn test_update_from_mpv_derives_name() {
    let mut state = UserState::new("a".to_string());
    state.update_from_mpv(2, 1500, false, Some("/films/night.mp4".to_string()), 7);
    assert_eq!(state.playlist_position, 2);
    assert_eq!(state.playback_time_ms, 1500);
    assert!(!state.is_paused);
    assert_eq!(state.timestamp, 7);
    assert_eq!(state.current_file.as_deref(), Some("/films/night.mp4"));
    assert_eq!(state.current_file_name.as_deref(), Some("night.mp4"));
    // With no file the old display name is kept.
    state.update_from_mpv(3, 0, true, None, 8);
    assert_eq!(state.current_file, None);
    assert_eq!(state.current_file_name.as_deref(), Some("night.mp4"));
}

#[test]
fn test_users_sorted_by_id() {
    let mut session = SessionState::new();
    session.update_user(UserState::new("carol".to_string()));
    session.update_user(UserState::new("alice".to_string()));
    session.update_user(UserState::new("bob".to_string()));
    let ids: Vec<&str> = session
        .get_users_sorted()
        .iter()
        .map(|u| u.user_id.as_str())
        .collect();
    assert_eq!(ids, vec!["alice", "bob", "carol"]);
}

#[test]
fn test_update_replaces_and_remove_deletes() {
    let mut session = SessionState::new();
    let mut u = UserState::new("alice".to_string());
    u.playlist_position = 1;
    session.update_user(u);
    let mut u2 = UserState::new("alice".to_string());
    u2.playlist_position = 9;
    session.update_user(u2);
    assert_eq!(session.user_count(), 1);
    assert_eq!(session.get_user("alice").unwrap().playlist_position, 9);
    session.remove_user(&"alice".to_string());
    assert!(session.get_user("alice").is_none());
    assert_eq!(session.user_count(), 0);
}

#[test]
fn test_display_formats() {
    let mut session = SessionState::new();
    let mut u = UserState::new("user1".to_string());
    u.update_from_mpv(3, 12345, true, Some("clip.mp4".to_string()), 1);
    session.update_user(u);
    let lines = session.format_for_display();
    assert_eq!(lines.len(), 1);
    assert_eq!(lines[0], "user1: \u{23f8} clip.mp4 (pos: 3, time: 12.3s)");
    assert_eq!(session.get_sync_summary(), "1 users connected - \u{2705} In Sync");

    let mut far = UserState::new("user2".to_string());
    far.playlist_position = 9;
    session.update_user(far);
    assert_eq!(
        session.get_sync_summary(),
        "2 users connected - \u{26a0}\u{fe0f} Out of Sync"
    );
}

#[test]
fn test_relative_position_info() {
    let mut session = SessionState::new();
    let mut a = UserState::new("alice".to_string());
    a.playlist_position = 5;
    let mut b = UserState::new("bob".to_string());
    b.playlist_position = 5;
    let mut c = UserState::new("carol".to_string());
    c.playlist_position = 2;
    let mut d = UserState::new("dave".to_string());
    d.playlist_position = 6;
    session.update_user(a);
    session.update_user(b);
    session.update_user(c);
    session.update_user(d);
    let info = SyncClient::get_relative_position_info(&session, "alice");
    assert_eq!(
        info,
        "\u{1f4cd} You are on the same page as bob\n\
         \u{2b06}\u{fe0f}  You are 3 pages ahead of carol\n\
         \u{2b07}\u{fe0f}  You are 1 page behind dave"
    );
    assert_eq!(SyncClient::get_relative_position_info(&session, "nobody"), "");
    let mut alone = SessionState::new();
    alone.update_user(UserState::new("alice".to_string()));
    assert_eq!(SyncClient::get_relative_position_info(&alone, "alice"), "");
}
