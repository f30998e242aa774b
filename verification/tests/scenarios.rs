//! End-to-end exchanges run over the real wire text: client cores encode,
//! the server core applies and echoes, and every observer's session copy is
//! checked.

use syncread::client::SyncClient;
use syncread::protocol::{SyncEvent, SyncMessage, UserState};
use syncread::server::SyncServer;
use syncread::wire::{decode_message, encode_message};

/// Deliver one client message to the server and echo it to every client,
/// through the wire text both ways, as the broadcast fan-out does.
fn exchange(server: &mut SyncServer, clients: &mut [&mut SyncClient], message: SyncMessage) {
    let line = encode_message(&message).unwrap();
    let at_server = decode_message(&line).unwrap();
    server.apply_client_message(&at_server);
    let echoed = encode_message(&at_server).unwrap();
    for client in clients.iter_mut() {
        let received = decode_message(&echoed).unwrap();
        client.handle_incoming_message(received);
    }
}

fn polled_state(client: &SyncClient, position: i32) -> UserState {
    let mut state = UserState::new(client.user_id().clone());
    state.update_from_mpv(position, 0, true, None, 0);
    state
}

#[test]
fn test_two_clients_drift_and_resync() {
    let mut server = SyncServer::new();
    let mut a = SyncClient::new("a".to_string());
    let mut b = SyncClient::new("b".to_string());

    // Both clients join at position zero.
    let join_a = a.join_message(polled_state(&a, 0));
    exchange(&mut server, &mut [&mut a, &mut b], join_a);
    let join_b = b.join_message(polled_state(&b, 0));
    exchange(&mut server, &mut [&mut a, &mut b], join_b);

    assert!(a.session_state().check_sync_status(1));
    assert!(b.session_state().check_sync_status(1));
    assert!(server.session_state().check_sync_status(1));

    // Client A advances to position five; every observer sees the drift.
    let update_a = a.poll_step(polled_state(&a, 5), 30).unwrap();
    exchange(&mut server, &mut [&mut a, &mut b], update_a);
    assert!(!a.session_state().check_sync_status(1));
    assert!(!b.session_state().check_sync_status(1));
    assert!(!server.session_state().check_sync_status(1));

    // Client B follows to position five; everyone is back in sync.
    let update_b = b.poll_step(polled_state(&b, 5), 30).unwrap();
    exchange(&mut server, &mut [&mut a, &mut b], update_b);
    assert!(a.session_state().check_sync_status(1));
    assert!(b.session_state().check_sync_status(1));
    assert!(server.session_state().check_sync_status(1));
}

#[test]
fn test_glitchy_backward_readings_send_one_update() {
    // A client joined at position twenty whose playback process then reports
    // the position sequence [20, 3, 3] sends exactly one state update, with
    // position three, after the second confirming poll.
    let mut client = SyncClient::new("a".to_string());
    let _join = client.join_message(polled_state(&client, 20));

    let mut updates: Vec<SyncMessage> = Vec::new();
    for position in [20, 3, 3] {
        if let Some(message) = client.poll_step(polled_state(&client, position), 30) {
            updates.push(message);
        }
    }
    let with_three: Vec<&SyncMessage> = updates
        .iter()
        .filter(|m| match &m.event {
            SyncEvent::StateUpdate { user_state } => user_state.playlist_position == 3,
            _ => false,
        })
        .collect();
    assert_eq!(with_three.len(), 1);
}

#[test]
fn test_server_synthesizes_leave_on_disconnect() {
    let mut server = SyncServer::new();
    let mut a = SyncClient::new("a".to_string());
    let mut b = SyncClient::new("b".to_string());
    let join_a = a.join_message(polled_state(&a, 0));
    exchange(&mut server, &mut [&mut a, &mut b], join_a);
    let join_b = b.join_message(polled_state(&b, 0));
    exchange(&mut server, &mut [&mut a, &mut b], join_b);

    // Client B's connection closes; the server removes it and announces the
    // leave, which the remaining client applies.
    let leave = server.client_disconnected(&"b".to_string());
    assert!(server.session_state().get_user("b").is_none());
    let line = encode_message(&leave).unwrap();
    a.handle_incoming_message(decode_message(&line).unwrap());
    assert!(a.session_state().get_user("b").is_none());
    assert!(a.session_state().get_user("a").is_some());
}

#[test]
fn test_own_echo_is_idempotent() {
    let mut server = SyncServer::new();
    let mut a = SyncClient::new("a".to_string());
    let join_a = a.join_message(polled_state(&a, 2));
    // The sender receives its own echoed join and applies it again.
    exchange(&mut server, &mut [&mut a], join_a.clone());
    exchange(&mut server, &mut [&mut a], join_a);
    assert_eq!(a.session_state().user_count(), 1);
    assert_eq!(
        a.session_state().get_user("a").unwrap().playlist_position,
        2
    );
}
