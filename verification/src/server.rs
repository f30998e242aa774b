//! The decision core of the sync server. The surrounding process owns the
//! listener, the per-client channels and the broadcast fan-out; this state
//! machine owns the one authoritative session and the server's sequence
//! counter, and decides how each client message or disconnect changes the
//! session and what is announced.

use vstd::prelude::*;
use crate::protocol::{
    SessionState, SessionView, SyncEvent, SyncEventView, SyncMessage, SyncMessageView, UserId,
    UserStateView, find_user,
};

verus! {

/// The server-side state every connection handler decides over.
pub struct SyncServer {
    session_state: SessionState,
    sequence_counter: u64,
}

impl SyncServer {
    /// The authoritative session.
    pub closed spec fn session(self) -> SessionView {
        self.session_state@
    }

    /// The sequence number of the last message the server itself produced.
    pub closed spec fn sequence(self) -> int {
        self.sequence_counter as int
    }

    /// The session is well formed.
    pub open spec fn wf(self) -> bool {
        self.session_wf()
    }

    /// The session alone is well formed.
    pub closed spec fn session_wf(self) -> bool {
        self.session_state.wf()
    }

    /// A fresh server: empty session, zero sequence counter.
    pub fn new() -> (r: Self)
        ensures
            r.wf(),
            r.session().users.len() == 0,
            r.sequence() == 0,
    {
        SyncServer { session_state: SessionState::new(), sequence_counter: 0 }
    }

    /// Read-only access to the authoritative session, for the display
    /// collaborator.
    pub fn session_state(&self) -> (r: &SessionState)
        ensures
            r@ == self.session(),
            self.wf() ==> r.wf(),
    {
        &self.session_state
    }

    /// Apply one message read from a client to the authoritative session: a
    /// join or a state update records that participant's state, a leave
    /// removes it, anything else changes nothing. The message itself is then
    /// re-broadcast verbatim by the caller, so every client — the sender
    /// included — sees the same event.
    pub fn apply_client_message(&mut self, message: &SyncMessage)
        requires
            old(self).wf(),
    ensures
            final(self).wf(),
            final(self).sequence() == old(self).sequence(),
            (match message@.event {
                SyncEventView::UserJoined { user_id: _, user_state } => forall|id: Seq<char>|
                    #[trigger] find_user(final(self).session().users, id) == (if id
                        == user_state.user_id {
                        Some(user_state)
                    } else {
                        find_user(old(self).session().users, id)
                    }),
                SyncEventView::StateUpdate { user_state } => forall|id: Seq<char>|
                    #[trigger] find_user(final(self).session().users, id) == (if id
                        == user_state.user_id {
                        Some(user_state)
                    } else {
                        find_user(old(self).session().users, id)
                    }),
                SyncEventView::UserLeft { user_id } => forall|id: Seq<char>|
                    #[trigger] find_user(final(self).session().users, id) == (if id == user_id {
                        None::<UserStateView>
                    } else {
                        find_user(old(self).session().users, id)
                    }),
                _ => final(self).session() == old(self).session(),
            }),
    {
        match &message.event {
            SyncEvent::UserJoined { user_id: _, user_state } => {
                self.session_state.update_user(user_state.clone());
            },
            SyncEvent::StateUpdate { user_state } => {
                self.session_state.update_user(user_state.clone());
            },
            SyncEvent::UserLeft { user_id } => {
                self.session_state.remove_user(user_id);
            },
            SyncEvent::Heartbeat { .. } => {},
            SyncEvent::UserAction { .. } => {},
        }
    }

    /// A client's connection closed: remove the participant from the
    /// session and build the leave announcement, under the server's next
    /// sequence number, for the caller to broadcast.
    pub fn client_disconnected(&mut self, user_id: &UserId) -> (r: SyncMessage)
        requires
            old(self).wf(),
            old(self).sequence() < u64::MAX,
    ensures
            final(self).wf(),
            final(self).sequence() == old(self).sequence() + 1,
            forall|id: Seq<char>|
                #[trigger] find_user(final(self).session().users, id) == (if id == user_id@ {
                    None::<UserStateView>
                } else {
                    find_user(old(self).session().users, id)
                }),
            r@ == (SyncMessageView {
                event: SyncEventView::UserLeft { user_id: user_id@ },
                sequence: old(self).sequence() + 1,
            }),
    {
        self.session_state.remove_user(user_id);
        self.sequence_counter = self.sequence_counter + 1;
        SyncMessage::user_left(user_id.clone(), self.sequence_counter)
    }
}

impl Default for SyncServer {
    /// The default server starts with an empty session.
    fn default() -> (r: Self)
        ensures
            r.wf(),
            r.session().users.len() == 0,
            r.sequence() == 0,
    {
        Self::new()
    }
}

} // verus!
