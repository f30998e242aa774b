//! Data model of the synchronization protocol: one participant's playback
//! snapshot, the events exchanged between participants, the message envelope,
//! and the session bookkeeping that maps participant ids to their last known
//! state.
//!
//! Playback time is carried as whole milliseconds; the wire format writes it
//! as seconds with three fractional digits. The session keeps its entries
//! sorted by participant id, so display order is deterministic and lookups
//! have one first match.

use vstd::prelude::*;
use crate::text::{text_lt, str_eq, str_lt, lemma_text_lt_trichotomy, lemma_text_lt_trans};
use crate::num::{digit_char, spec_u64_dec, spec_i64_dec, append_u64, append_i64, append_digit};

verus! {

/// Unique identifier for participants in the sync session.
pub type UserId = String;

/// One participant's playback snapshot.
#[derive(Debug, PartialEq)]
pub struct UserState {
    pub user_id: UserId,
    pub playlist_position: i32,
    pub current_file: Option<String>,
    pub current_file_name: Option<String>,
    pub playback_time_ms: u64,
    pub is_paused: bool,
    pub timestamp: u64,
}

/// Mathematical value of a `UserState`.
pub struct UserStateView {
    pub user_id: Seq<char>,
    pub playlist_position: int,
    pub current_file: Option<Seq<char>>,
    pub current_file_name: Option<Seq<char>>,
    pub playback_time_ms: int,
    pub is_paused: bool,
    pub timestamp: int,
}

impl View for UserState {
    type V = UserStateView;

    open spec fn view(&self) -> UserStateView {
        UserStateView {
            user_id: self.user_id@,
            playlist_position: self.playlist_position as int,
            current_file: match self.current_file {
                Some(ref f) => Some(f@),
                None => None,
            },
            current_file_name: match self.current_file_name {
                Some(ref f) => Some(f@),
                None => None,
            },
            playback_time_ms: self.playback_time_ms as int,
            is_paused: self.is_paused,
            timestamp: self.timestamp as int,
        }
    }
}

impl Clone for UserState {
    /// A clone carries the same value.
    fn clone(&self) -> (res: Self)
        ensures
            res@ == self@,
    {
        UserState {
            user_id: self.user_id.clone(),
            playlist_position: self.playlist_position,
            current_file: match &self.current_file {
                Some(p) => Some(p.clone()),
                None => None,
            },
            current_file_name: match &self.current_file_name {
                Some(p) => Some(p.clone()),
                None => None,
            },
            playback_time_ms: self.playback_time_ms,
            is_paused: self.is_paused,
            timestamp: self.timestamp,
        }
    }
}

/// The file-name component of a path: the characters after the last
/// separator, empty when the path ends with one.
pub open spec fn after_last_slash(s: Seq<char>) -> Seq<char>
    decreases s.len(),
{
    if s.len() == 0 {
        s
    } else if s.last() == '/' {
        Seq::empty()
    } else {
        after_last_slash(s.drop_last()).push(s.last())
    }
}

/// The display name derived from an optional path: the part after the last
/// separator, or nothing when that part is empty.
pub open spec fn spec_display_name(file: Option<Seq<char>>) -> Option<Seq<char>> {
    match file {
        Some(p) => if after_last_slash(p).len() > 0 {
            Some(after_last_slash(p))
        } else {
            None
        },
        None => None,
    }
}

/// The characters after the last separator of `s`, as `after_last_slash`
/// says; the whole string when no separator occurs.
pub fn file_name_of(s: &str) -> (r: Option<String>)
    ensures
        (match r {
            Some(name) => after_last_slash(s@) == name@ && name@.len() > 0,
            None => after_last_slash(s@).len() == 0,
        }),
{
    let n = s.unicode_len();
    let mut j: usize = n;
    proof {
        assert(s@.take(n as int) =~= s@);
        assert(after_last_slash(s@) + s@.skip(n as int) =~= after_last_slash(s@));
    }
    loop
        invariant_except_break
            0 <= j <= n,
            n == s@.len(),
            after_last_slash(s@) == after_last_slash(s@.take(j as int)) + s@.skip(j as int),
            forall|m: int| j <= m < n ==> s@[m] != '/',
        ensures
            0 <= j <= n,
            n == s@.len(),
            after_last_slash(s@) == s@.skip(j as int),
            forall|m: int| j <= m < n ==> s@[m] != '/',
        decreases j,
    {
        proof {
            assert(s@.take(j as int).len() == j);
        }
        if j == 0 {
            proof {
                assert(after_last_slash(s@.take(0)) =~= Seq::<char>::empty());
                assert(Seq::<char>::empty() + s@.skip(0) =~= s@.skip(0));
            }
            break ;
        }
        let c = s.get_char(j - 1);
        proof {
            assert(s@.take(j as int).last() == s@[j - 1]);
        }
        if c == '/' {
            proof {
                assert(after_last_slash(s@.take(j as int)) =~= Seq::<char>::empty());
                assert(Seq::<char>::empty() + s@.skip(j as int) =~= s@.skip(j as int));
            }
            break ;
        }
        proof {
            let t = s@.take(j as int);
            assert(t.drop_last() =~= s@.take(j as int - 1));
            assert(after_last_slash(t) == after_last_slash(s@.take(j as int - 1)).push(s@[j - 1]));
            assert(after_last_slash(s@.take(j as int - 1)).push(s@[j - 1]) + s@.skip(j as int)
                =~= after_last_slash(s@.take(j as int - 1)) + s@.skip(j as int - 1));
        }
        j = j - 1;
    }
    if j == n {
        None
    } else {
        let name = s.substring_char(j, n);
        proof {
            assert(name@ =~= s@.skip(j as int));
        }
        Some(name.to_owned())
    }
}

impl UserState {
    /// A fresh snapshot for a participant: first playlist entry, no file,
    /// paused, zero playback time. The timestamp starts at zero; the caller
    /// stamps wall-clock time onto updates it produces.
    pub fn new(user_id: UserId) -> (r: Self)
        ensures
            r@.user_id == user_id@,
            r@.playlist_position == 0,
            r@.current_file is None,
            r@.current_file_name is None,
            r@.playback_time_ms == 0,
            r@.is_paused == true,
            r@.timestamp == 0,
    {
        UserState {
            user_id,
            playlist_position: 0,
            current_file: None,
            current_file_name: None,
            playback_time_ms: 0,
            is_paused: true,
            timestamp: 0,
        }
    }

    /// Record the state polled from the playback process, stamped with the
    /// caller's clock. The display name is derived from the file path; when
    /// no file is selected the previous display name is kept, as the display
    /// prefers staleness to blanking.
    pub fn update_from_mpv(
        &mut self,
        playlist_pos: i32,
        playback_time_ms: u64,
        is_paused: bool,
        current_file: Option<String>,
        timestamp: u64,
    )
        ensures
            final(self)@.user_id == old(self)@.user_id,
            final(self)@.playlist_position == playlist_pos as int,
            final(self)@.playback_time_ms == playback_time_ms as int,
            final(self)@.is_paused == is_paused,
            final(self)@.timestamp == timestamp as int,
            final(self)@.current_file == (match current_file {
                Some(ref f) => Some(f@),
                None => None::<Seq<char>>,
            }),
            final(self)@.current_file_name == (match current_file {
                Some(ref f) => spec_display_name(Some(f@)),
                None => old(self)@.current_file_name,
            }),
    {
        self.playlist_position = playlist_pos;
        self.playback_time_ms = playback_time_ms;
        self.is_paused = is_paused;
        if let Some(ref file) = current_file {
            self.current_file_name = file_name_of(file.as_str());
        }
        self.current_file = current_file;
        self.timestamp = timestamp;
    }
}

/// Events that can be synchronized between participants.
#[derive(Debug, Clone, PartialEq)]
pub enum SyncEvent {
    /// A participant joined the session.
    UserJoined { user_id: UserId, user_state: UserState },
    /// A participant left the session.
    UserLeft { user_id: UserId },
    /// A participant updated their playback state.
    StateUpdate { user_state: UserState },
    /// A participant performed an action; informational only, the value in
    /// milliseconds where the action carries one.
    UserAction { user_id: UserId, action: String, value: Option<i64> },
    /// Keep-alive carrying the sender's clock.
    Heartbeat { user_id: UserId, timestamp: u64 },
}

/// Mathematical value of a `SyncEvent`.
pub enum SyncEventView {
    UserJoined { user_id: Seq<char>, user_state: UserStateView },
    UserLeft { user_id: Seq<char> },
    StateUpdate { user_state: UserStateView },
    UserAction { user_id: Seq<char>, action: Seq<char>, value: Option<int> },
    Heartbeat { user_id: Seq<char>, timestamp: int },
}

impl View for SyncEvent {
    type V = SyncEventView;

    open spec fn view(&self) -> SyncEventView {
        match self {
            SyncEvent::UserJoined { user_id, user_state } => SyncEventView::UserJoined {
                user_id: user_id@,
                user_state: user_state@,
            },
            SyncEvent::UserLeft { user_id } => SyncEventView::UserLeft { user_id: user_id@ },
            SyncEvent::StateUpdate { user_state } => SyncEventView::StateUpdate {
                user_state: user_state@,
            },
            SyncEvent::UserAction { user_id, action, value } => SyncEventView::UserAction {
                user_id: user_id@,
                action: action@,
                value: match value {
                    Some(v) => Some(*v as int),
                    None => None,
                },
            },
            SyncEvent::Heartbeat { user_id, timestamp } => SyncEventView::Heartbeat {
                user_id: user_id@,
                timestamp: *timestamp as int,
            },
        }
    }
}

/// A message sent over the network: one event and the sender's sequence
/// number, a per-sender ordering hint.
#[derive(Debug, Clone, PartialEq)]
pub struct SyncMessage {
    pub event: SyncEvent,
    pub sequence: u64,
}

/// Mathematical value of a `SyncMessage`.
pub struct SyncMessageView {
    pub event: SyncEventView,
    pub sequence: int,
}

impl View for SyncMessage {
    type V = SyncMessageView;

    open spec fn view(&self) -> SyncMessageView {
        SyncMessageView { event: self.event@, sequence: self.sequence as int }
    }
}

impl SyncMessage {
    /// Wrap an event with a sequence number.
    pub fn new(event: SyncEvent, sequence: u64) -> (r: Self)
        ensures
            r@.event == event@,
            r@.sequence == sequence as int,
    {
        SyncMessage { event, sequence }
    }

    /// A state-update message.
    pub fn state_update(user_state: UserState, sequence: u64) -> (r: Self)
        ensures
            r@ == (SyncMessageView {
                event: SyncEventView::StateUpdate { user_state: user_state@ },
                sequence: sequence as int,
            }),
    {
        Self::new(SyncEvent::StateUpdate { user_state }, sequence)
    }

    /// A joined message carrying the participant's first state.
    pub fn user_joined(user_id: UserId, user_state: UserState, sequence: u64) -> (r: Self)
        ensures
            r@ == (SyncMessageView {
                event: SyncEventView::UserJoined { user_id: user_id@, user_state: user_state@ },
                sequence: sequence as int,
            }),
    {
        Self::new(SyncEvent::UserJoined { user_id, user_state }, sequence)
    }

    /// A left message.
    pub fn user_left(user_id: UserId, sequence: u64) -> (r: Self)
        ensures
            r@ == (SyncMessageView {
                event: SyncEventView::UserLeft { user_id: user_id@ },
                sequence: sequence as int,
            }),
    {
        Self::new(SyncEvent::UserLeft { user_id }, sequence)
    }

    /// A heartbeat stamped with the caller's clock.
    pub fn heartbeat(user_id: UserId, timestamp: u64, sequence: u64) -> (r: Self)
        ensures
            r@ == (SyncMessageView {
                event: SyncEventView::Heartbeat {
                    user_id: user_id@,
                    timestamp: timestamp as int,
                },
                sequence: sequence as int,
            }),
    {
        Self::new(SyncEvent::Heartbeat { user_id, timestamp }, sequence)
    }
}

/// The first entry with the given id, if any.
pub open spec fn find_user(users: Seq<UserStateView>, id: Seq<char>) -> Option<UserStateView>
    decreases users.len(),
{
    if users.len() == 0 {
        None
    } else if users[0].user_id == id {
        Some(users[0])
    } else {
        find_user(users.skip(1), id)
    }
}

/// Entries are strictly sorted by participant id: each id is below its
/// neighbour's.
pub open spec fn sorted_by_id(users: Seq<UserStateView>) -> bool {
    forall|i: int|
        0 <= i < users.len() - 1 ==> text_lt(
            #[trigger] users[i].user_id,
            users[i + 1].user_id,
        )
}

/// In a strictly sorted sequence any earlier id is below any later one.
pub proof fn lemma_sorted_pairwise(users: Seq<UserStateView>, i: int, j: int)
    requires
        sorted_by_id(users),
        0 <= i < j < users.len(),
    ensures
        text_lt(users[i].user_id, users[j].user_id),
    decreases j - i,
{
    if j > i + 1 {
        lemma_sorted_pairwise(users, i, j - 1);
        lemma_text_lt_trans(users[i].user_id, users[j - 1].user_id, users[j].user_id);
    }
}

/// Mathematical value of a `SessionState`.
pub struct SessionView {
    pub users: Seq<UserStateView>,
    pub created_at: int,
}

/// The states of all participants of a session, keyed by participant id.
#[derive(Debug)]
pub struct SessionState {
    users: Vec<UserState>,
    pub created_at: u64,
}

impl View for SessionState {
    type V = SessionView;

    closed spec fn view(&self) -> SessionView {
        SessionView {
            users: self.users@.map_values(|u: UserState| u@),
            created_at: self.created_at as int,
        }
    }
}

impl SessionState {
    /// The entries stand strictly sorted by participant id, so ids are
    /// unique and iteration order is deterministic.
    pub open spec fn wf(&self) -> bool {
        sorted_by_id(self@.users)
    }

    /// An empty session. The creation timestamp starts at zero; the process
    /// that owns the session stamps its clock onto it.
    pub fn new() -> (r: Self)
        ensures
            r.wf(),
            r@.users.len() == 0,
            r@.created_at == 0,
    {
        SessionState { users: Vec::new(), created_at: 0 }
    }

    /// How many participants the session holds.
    pub fn user_count(&self) -> (n: usize)
        ensures
            n == self@.users.len(),
    {
        self.users.len()
    }

    /// The state recorded for a participant, if any.
    pub fn get_user(&self, user_id: &str) -> (r: Option<&UserState>)
        requires
            self.wf(),
        ensures
            (match r {
                Some(u) => find_user(self@.users, user_id@) == Some(u@),
                None => find_user(self@.users, user_id@) is None,
            }),
    {
        let n = self.users.len();
        let mut i: usize = 0;
        proof {
            assert(self@.users.skip(0) =~= self@.users);
        }
        while i < n
            invariant
                0 <= i <= n,
                n == self@.users.len(),
                find_user(self@.users, user_id@) == find_user(
                    self@.users.skip(i as int),
                    user_id@,
                ),
                forall|m: int| 0 <= m < i ==> #[trigger] self@.users[m].user_id != user_id@,
            decreases n - i,
        {
            proof {
                assert(self@.users.skip(i as int)[0] == self@.users[i as int]);
                assert(self@.users.skip(i as int).skip(1) =~= self@.users.skip(i as int + 1));
            }
            if str_eq(self.users[i].user_id.as_str(), user_id) {
                return Some(&self.users[i]);
            }
            i = i + 1;
        }
        proof {
            assert(self@.users.skip(n as int).len() == 0);
        }
        None
    }
}

/// Dropping the first entry keeps the rest sorted.
proof fn lemma_sorted_skip(users: Seq<UserStateView>)
    requires
        sorted_by_id(users),
        users.len() > 0,
    ensures
        sorted_by_id(users.skip(1)),
{
    assert forall|i: int|
        0 <= i < users.skip(1).len() - 1 implies text_lt(
        #[trigger] users.skip(1)[i].user_id,
        users.skip(1)[i + 1].user_id,
    ) by {
        assert(users.skip(1)[i] == users[i + 1]);
        assert(users.skip(1)[i + 1] == users[i + 2]);
    }
}

/// In a sorted sequence the entry at an index is the one its id finds.
proof fn lemma_find_present(users: Seq<UserStateView>, idx: int)
    requires
        sorted_by_id(users),
        0 <= idx < users.len(),
    ensures
        find_user(users, users[idx].user_id) == Some(users[idx]),
    decreases idx,
{
    if idx == 0 {
    } else {
        lemma_sorted_pairwise(users, 0, idx);
        lemma_text_lt_trichotomy(users[0].user_id, users[idx].user_id);
        lemma_sorted_skip(users);
        lemma_find_present(users.skip(1), idx - 1);
        assert(users.skip(1)[idx - 1] == users[idx]);
    }
}

/// An id that no entry carries finds nothing.
proof fn lemma_find_absent(users: Seq<UserStateView>, id: Seq<char>)
    requires
        forall|m: int| 0 <= m < users.len() ==> #[trigger] users[m].user_id != id,
    ensures
        find_user(users, id) is None,
    decreases users.len(),
{
    if users.len() > 0 {
        assert(forall|m: int|
            0 <= m < users.skip(1).len() ==> #[trigger] users.skip(1)[m].user_id != id);
        lemma_find_absent(users.skip(1), id);
    }
}

/// Replacing the entry at an index by one with the same id changes exactly
/// what that id finds.
proof fn lemma_find_update(users: Seq<UserStateView>, idx: int, v: UserStateView, id: Seq<char>)
    requires
        sorted_by_id(users),
        0 <= idx < users.len(),
        v.user_id == users[idx].user_id,
    ensures
        find_user(users.update(idx, v), id) == (if id == v.user_id {
            Some(v)
        } else {
            find_user(users, id)
        }),
    decreases idx,
{
    let nu = users.update(idx, v);
    if idx == 0 {
        if id != v.user_id {
            assert(nu.skip(1) =~= users.skip(1));
        }
    } else {
        assert(nu[0] == users[0]);
        lemma_sorted_pairwise(users, 0, idx);
        lemma_text_lt_trichotomy(users[0].user_id, users[idx].user_id);
        if id != users[0].user_id {
            assert(nu.skip(1) =~= users.skip(1).update(idx - 1, v));
            lemma_sorted_skip(users);
            assert(users.skip(1)[idx - 1] == users[idx]);
            lemma_find_update(users.skip(1), idx - 1, v, id);
        }
    }
}

/// Replacing an entry by one with the same id keeps the order.
proof fn lemma_sorted_update(users: Seq<UserStateView>, idx: int, v: UserStateView)
    requires
        sorted_by_id(users),
        0 <= idx < users.len(),
        v.user_id == users[idx].user_id,
    ensures
        sorted_by_id(users.update(idx, v)),
{
    let nu = users.update(idx, v);
    assert forall|i: int|
        0 <= i < nu.len() - 1 implies text_lt(#[trigger] nu[i].user_id, nu[i + 1].user_id) by {
        assert(users[i].user_id == nu[i].user_id || i == idx);
        assert(users[i + 1].user_id == nu[i + 1].user_id || i + 1 == idx);
    }
}

/// Inserting an entry between its neighbours changes exactly what its id
/// finds.
proof fn lemma_find_insert(users: Seq<UserStateView>, idx: int, v: UserStateView, id: Seq<char>)
    requires
        sorted_by_id(users),
        0 <= idx <= users.len(),
        forall|m: int| 0 <= m < idx ==> text_lt(#[trigger] users[m].user_id, v.user_id),
        forall|m: int| idx <= m < users.len() ==> text_lt(v.user_id, #[trigger] users[m].user_id),
    ensures
        find_user(users.insert(idx, v), id) == (if id == v.user_id {
            Some(v)
        } else {
            find_user(users, id)
        }),
    decreases idx,
{
    let nu = users.insert(idx, v);
    users.insert_ensures(idx, v);
    if idx == 0 {
        assert(nu[0] == v);
        if id != v.user_id {
            assert(nu.skip(1) =~= users);
        }
    } else {
        assert(nu[0] == users[0]);
        lemma_text_lt_trichotomy(users[0].user_id, v.user_id);
        if id != users[0].user_id {
            assert(nu.skip(1) =~= users.skip(1).insert(idx - 1, v)) by {
                users.skip(1).insert_ensures(idx - 1, v);
                assert(forall|m: int|
                    0 <= m < users.skip(1).len() ==> users.skip(1)[m] == #[trigger] users[m + 1]);
            }
            lemma_sorted_skip(users);
            assert(forall|m: int|
                0 <= m < idx - 1 ==> text_lt(#[trigger] users.skip(1)[m].user_id, v.user_id));
            assert(forall|m: int|
                idx - 1 <= m < users.skip(1).len() ==> text_lt(
                    v.user_id,
                    #[trigger] users.skip(1)[m].user_id,
                ));
            lemma_find_insert(users.skip(1), idx - 1, v, id);
        }
    }
}

/// Inserting an entry between its neighbours keeps the order.
proof fn lemma_sorted_insert(users: Seq<UserStateView>, idx: int, v: UserStateView)
    requires
        sorted_by_id(users),
        0 <= idx <= users.len(),
        forall|m: int| 0 <= m < idx ==> text_lt(#[trigger] users[m].user_id, v.user_id),
        forall|m: int| idx <= m < users.len() ==> text_lt(v.user_id, #[trigger] users[m].user_id),
    ensures
        sorted_by_id(users.insert(idx, v)),
{
    let nu = users.insert(idx, v);
    users.insert_ensures(idx, v);
    assert forall|i: int|
        0 <= i < nu.len() - 1 implies text_lt(#[trigger] nu[i].user_id, nu[i + 1].user_id) by {
        if i + 1 < idx {
            assert(nu[i] == users[i] && nu[i + 1] == users[i + 1]);
        } else if i + 1 == idx {
            assert(nu[i] == users[i] && nu[i + 1] == v);
        } else if i == idx {
            assert(nu[i] == v && nu[i + 1] == users[i]);
        } else {
            assert(nu[i] == users[i - 1] && nu[i + 1] == users[i]);
        }
    }
}

/// Removing the entry at an index makes its id find nothing and leaves every
/// other id's find unchanged.
proof fn lemma_find_remove(users: Seq<UserStateView>, idx: int, id: Seq<char>)
    requires
        sorted_by_id(users),
        0 <= idx < users.len(),
    ensures
        find_user(users.remove(idx), id) == (if id == users[idx].user_id {
            None::<UserStateView>
        } else {
            find_user(users, id)
        }),
    decreases idx,
{
    let nu = users.remove(idx);
    users.remove_ensures(idx);
    if idx == 0 {
        assert(nu =~= users.skip(1));
        if id == users[0].user_id {
            assert forall|m: int|
                0 <= m < users.skip(1).len() implies #[trigger] users.skip(1)[m].user_id
                != id by {
                lemma_sorted_pairwise(users, 0, m + 1);
                lemma_text_lt_trichotomy(users[0].user_id, users[m + 1].user_id);
            }
            lemma_find_absent(users.skip(1), id);
        }
    } else {
        assert(nu[0] == users[0]);
        lemma_sorted_pairwise(users, 0, idx);
        lemma_text_lt_trichotomy(users[0].user_id, users[idx].user_id);
        if id != users[0].user_id {
            assert(nu.skip(1) =~= users.skip(1).remove(idx - 1)) by {
                users.skip(1).remove_ensures(idx - 1);
                assert(forall|m: int|
                    0 <= m < users.skip(1).len() ==> users.skip(1)[m] == #[trigger] users[m + 1]);
            }
            lemma_sorted_skip(users);
            assert(users.skip(1)[idx - 1] == users[idx]);
            lemma_find_remove(users.skip(1), idx - 1, id);
        }
    }
}

/// Removing an entry keeps the order.
proof fn lemma_sorted_remove(users: Seq<UserStateView>, idx: int)
    requires
        sorted_by_id(users),
        0 <= idx < users.len(),
    ensures
        sorted_by_id(users.remove(idx)),
{
    let nu = users.remove(idx);
    users.remove_ensures(idx);
    assert forall|i: int|
        0 <= i < nu.len() - 1 implies text_lt(#[trigger] nu[i].user_id, nu[i + 1].user_id) by {
        if i + 1 < idx {
            assert(nu[i] == users[i] && nu[i + 1] == users[i + 1]);
        } else if i + 1 == idx {
            assert(nu[i] == users[i] && nu[i + 1] == users[i + 2]);
            lemma_sorted_pairwise(users, i, i + 2);
        } else {
            assert(nu[i] == users[i + 1] && nu[i + 1] == users[i + 2]);
        }
    }
}

impl SessionState {
    /// Add a participant's state, or replace the state already recorded
    /// under its id: afterwards that id finds exactly the given state and
    /// every other id finds what it found before.
    pub fn update_user(&mut self, user_state: UserState)
        requires
            old(self).wf(),
        ensures
            final(self).wf(),
            final(self)@.created_at == old(self)@.created_at,
            forall|id: Seq<char>|
                #[trigger] find_user(final(self)@.users, id) == (if id == user_state@.user_id {
                    Some(user_state@)
                } else {
                    find_user(old(self)@.users, id)
                }),
            final(self)@.users.len() == old(self)@.users.len() + (if find_user(
                old(self)@.users,
                user_state@.user_id,
            ) is Some {
                0int
            } else {
                1int
            }),
    {
        let ghost olds = self@.users;
        let ghost oldvec = self.users@;
        let n = self.users.len();
        let mut idx: usize = 0;
        loop
            invariant_except_break
                0 <= idx <= n,
                n == self@.users.len(),
                self@.users == olds,
                self.users@ == oldvec,
                self.created_at == old(self).created_at,
                olds == old(self)@.users,
                sorted_by_id(olds),
                forall|m: int|
                    0 <= m < idx ==> text_lt(#[trigger] olds[m].user_id, user_state@.user_id),
            ensures
                0 <= idx <= n,
                self@.users == olds,
                self.users@ == oldvec,
                self.created_at == old(self).created_at,
                olds == old(self)@.users,
                sorted_by_id(olds),
                n == olds.len(),
                forall|m: int|
                    0 <= m < idx ==> text_lt(#[trigger] olds[m].user_id, user_state@.user_id),
                idx == n || !text_lt(olds[idx as int].user_id, user_state@.user_id),
            decreases n - idx,
        {
            if idx >= n {
                break ;
            }
            let here = &self.users[idx];
            if !str_lt(here.user_id.as_str(), user_state.user_id.as_str()) {
                break ;
            }
            idx = idx + 1;
        }
        let mut replace = false;
        if idx < n {
            let here = &self.users[idx];
            if str_eq(here.user_id.as_str(), user_state.user_id.as_str()) {
                replace = true;
            }
        }
        if replace {
            let ghost v = user_state@;
            self.users.remove(idx);
            self.users.insert(idx, user_state);
            proof {
                assert(self@.users =~= olds.update(idx as int, v)) by {
                    oldvec.remove_ensures(idx as int);
                    oldvec.remove(idx as int).insert_ensures(idx as int, user_state);
                    assert(self.users@ == oldvec.remove(idx as int).insert(idx as int, user_state));
                    assert(forall|m: int|
                        0 <= m < self.users@.len() ==> self@.users[m] == #[trigger] self.users@[m]@);
                }
                lemma_find_present(olds, idx as int);
                lemma_sorted_update(olds, idx as int, v);
                assert forall|id: Seq<char>|
                    #[trigger] find_user(self@.users, id) == (if id == v.user_id {
                        Some(v)
                    } else {
                        find_user(olds, id)
                    }) by {
                    lemma_find_update(olds, idx as int, v, id);
                }
            }
        } else {
            let ghost v = user_state@;
            proof {
                if idx < n {
                    lemma_text_lt_trichotomy(olds[idx as int].user_id, v.user_id);
                }
                assert forall|m: int|
                    idx <= m < olds.len() implies text_lt(
                    v.user_id,
                    #[trigger] olds[m].user_id,
                ) by {
                    if m > idx {
                        lemma_sorted_pairwise(olds, idx as int, m);
                        lemma_text_lt_trans(v.user_id, olds[idx as int].user_id, olds[m].user_id);
                    }
                }
                assert forall|m: int|
                    0 <= m < olds.len() implies #[trigger] olds[m].user_id != v.user_id by {
                    if m < idx {
                        lemma_text_lt_trichotomy(olds[m].user_id, v.user_id);
                    } else {
                        lemma_text_lt_trichotomy(v.user_id, olds[m].user_id);
                    }
                }
                lemma_find_absent(olds, v.user_id);
            }
            self.users.insert(idx, user_state);
            proof {
                assert(self@.users =~= olds.insert(idx as int, v)) by {
                    oldvec.insert_ensures(idx as int, user_state);
                    olds.insert_ensures(idx as int, v);
                    assert(self.users@ == oldvec.insert(idx as int, user_state));
                    assert(forall|m: int|
                        0 <= m < self.users@.len() ==> self@.users[m] == #[trigger] self.users@[m]@);
                }
                lemma_sorted_insert(olds, idx as int, v);
                assert forall|id: Seq<char>|
                    #[trigger] find_user(self@.users, id) == (if id == v.user_id {
                        Some(v)
                    } else {
                        find_user(olds, id)
                    }) by {
                    lemma_find_insert(olds, idx as int, v, id);
                }
            }
        }
    }

    /// Remove a participant: afterwards its id finds nothing and every other
    /// id finds what it found before.
    pub fn remove_user(&mut self, user_id: &UserId)
        requires
            old(self).wf(),
        ensures
            final(self).wf(),
            final(self)@.created_at == old(self)@.created_at,
            forall|id: Seq<char>|
                #[trigger] find_user(final(self)@.users, id) == (if id == user_id@ {
                    None::<UserStateView>
                } else {
                    find_user(old(self)@.users, id)
                }),
            final(self)@.users.len() == old(self)@.users.len() - (if find_user(
                old(self)@.users,
                user_id@,
            ) is Some {
                1int
            } else {
                0int
            }),
    {
        let ghost olds = self@.users;
        let ghost oldvec = self.users@;
        let n = self.users.len();
        let mut i: usize = 0;
        while i < n
            invariant
                0 <= i <= n,
                n == self@.users.len(),
                self@.users == olds,
                self.users@ == oldvec,
                self.created_at == old(self).created_at,
                olds == old(self)@.users,
                sorted_by_id(olds),
                forall|m: int| 0 <= m < i ==> #[trigger] olds[m].user_id != user_id@,
            decreases n - i,
        {
            let here = &self.users[i];
            if str_eq(here.user_id.as_str(), user_id.as_str()) {
                self.users.remove(i);
                proof {
                    assert(self@.users =~= olds.remove(i as int)) by {
                        oldvec.remove_ensures(i as int);
                        olds.remove_ensures(i as int);
                        assert(self.users@ == oldvec.remove(i as int));
                        assert(forall|m: int|
                            0 <= m < self.users@.len() ==> self@.users[m]
                                == #[trigger] self.users@[m]@);
                    }
                    lemma_find_present(olds, i as int);
                    lemma_sorted_remove(olds, i as int);
                    assert forall|id: Seq<char>|
                        #[trigger] find_user(self@.users, id) == (if id == user_id@ {
                            None::<UserStateView>
                        } else {
                            find_user(olds, id)
                        }) by {
                        lemma_find_remove(olds, i as int, id);
                    }
                }
                return ;
            }
            i = i + 1;
        }
        proof {
            lemma_find_absent(olds, user_id@);
        }
    }

    /// All participants in ascending id order, which is the order the
    /// session stores them in.
    pub fn get_users_sorted(&self) -> (r: Vec<&UserState>)
        ensures
            r@.len() == self@.users.len(),
            forall|i: int| 0 <= i < r@.len() ==> #[trigger] r@[i]@ == self@.users[i],
    {
        let n = self.users.len();
        let mut r: Vec<&UserState> = Vec::new();
        let mut i: usize = 0;
        while i < n
            invariant
                0 <= i <= n,
                n == self@.users.len(),
                n == self.users@.len(),
                r@.len() == i,
                forall|m: int| 0 <= m < i ==> #[trigger] r@[m]@ == self@.users[m],
            decreases n - i,
        {
            r.push(&self.users[i]);
            i = i + 1;
        }
        r
    }

    /// Whether every pair of participants is within `position_tolerance`
    /// playlist entries of each other; trivially true with fewer than two.
    pub fn check_sync_status(&self, position_tolerance: i32) -> (r: bool)
        ensures
            r == in_sync(self@.users, position_tolerance as int),
    {
        let n = self.users.len();
        if n < 2 {
            return true;
        }
        let first = &self.users[0];
        let mut mn: i64 = first.playlist_position as i64;
        let mut mx: i64 = mn;
        let mut i: usize = 1;
        proof {
            assert(self@.users[0].playlist_position == mn);
            assert(self@.users[0].playlist_position == mx);
        }
        while i < n
            invariant
                1 <= i <= n,
                n == self@.users.len(),
                n == self.users@.len(),
                mn <= mx,
                forall|m: int|
                    0 <= m < i ==> mn <= #[trigger] self@.users[m].playlist_position <= mx,
                exists|m: int| 0 <= m < i && #[trigger] self@.users[m].playlist_position == mn,
                exists|m: int| 0 <= m < i && #[trigger] self@.users[m].playlist_position == mx,
            decreases n - i,
        {
            let p: i64 = self.users[i].playlist_position as i64;
            proof {
                let wn = choose|m: int|
                    0 <= m < i && #[trigger] self@.users[m].playlist_position == mn;
                let wx = choose|m: int|
                    0 <= m < i && #[trigger] self@.users[m].playlist_position == mx;
                assert(self@.users[wn].playlist_position == mn);
                assert(self@.users[wx].playlist_position == mx);
                assert(self@.users[i as int].playlist_position == p);
            }
            if p < mn {
                mn = p;
            }
            if p > mx {
                mx = p;
            }
            i = i + 1;
        }
        mx - mn <= position_tolerance as i64
    }
}

impl Default for SessionState {
    /// The default session is the empty one.
    fn default() -> (r: Self)
        ensures
            r.wf(),
            r@.users.len() == 0,
            r@.created_at == 0,
    {
        Self::new()
    }
}

/// Whether the spread of playlist positions over all participants stays
/// within the tolerance; trivially true with fewer than two participants.
pub open spec fn in_sync(users: Seq<UserStateView>, tolerance: int) -> bool {
    users.len() < 2 || forall|i: int, j: int|
        0 <= i < users.len() && 0 <= j < users.len() ==> #[trigger] users[i].playlist_position
            - #[trigger] users[j].playlist_position <= tolerance
}

/// The status line shown for one participant: id, a pause or play mark, the
/// file name, the playlist position and the playback time in tenths of a
/// second.
pub open spec fn spec_display_line(u: UserStateView) -> Seq<char> {
    u.user_id + ": "@ + (if u.is_paused {
        "\u{23f8}"@
    } else {
        "\u{25b6}"@
    }) + " "@ + (match u.current_file_name {
        Some(n) => n,
        None => "(no file)"@,
    }) + " (pos: "@ + spec_i64_dec(u.playlist_position) + ", time: "@ + spec_u64_dec(
        (u.playback_time_ms / 1000) as nat,
    ) + "."@ + seq![digit_char((u.playback_time_ms % 1000) / 100)] + "s)"@
}

/// The one-line session summary: the participant count and whether everyone
/// is within one playlist entry of everyone else.
pub open spec fn spec_sync_summary(s: SessionView) -> Seq<char> {
    spec_u64_dec(s.users.len()) + " users connected - "@ + (if in_sync(s.users, 1) {
        "\u{2705} In Sync"@
    } else {
        "\u{26a0}\u{fe0f} Out of Sync"@
    })
}

impl UserState {
    /// Render this snapshot's status line, as `spec_display_line` says.
    pub fn format_for_display(&self) -> (r: String)
        ensures
            r@ == spec_display_line(self@),
    {
        let mut out = String::new();
        out.append(self.user_id.as_str());
        out.append(": ");
        if self.is_paused {
            out.append("\u{23f8}");
        } else {
            out.append("\u{25b6}");
        }
        out.append(" ");
        match &self.current_file_name {
            Some(n) => out.append(n.as_str()),
            None => out.append("(no file)"),
        }
        out.append(" (pos: ");
        append_i64(&mut out, self.playlist_position as i64);
        out.append(", time: ");
        append_u64(&mut out, self.playback_time_ms / 1000);
        out.append(".");
        proof {
            reveal_strlit(".");
            assert("."@ =~= seq!['.']);
        }
        append_digit(&mut out, (self.playback_time_ms % 1000) / 100);
        out.append("s)");
        proof {
            assert(out@ =~= spec_display_line(self@));
        }
        out
    }
}

impl SessionState {
    /// Render one status line per participant, in id order, as
    /// `spec_display_line` says of each.
    pub fn format_for_display(&self) -> (r: Vec<String>)
        ensures
            r@.len() == self@.users.len(),
            forall|i: int| 0 <= i < r@.len() ==> #[trigger] r@[i]@ == spec_display_line(
                self@.users[i],
            ),
    {
        let n = self.user_count();
        let users = self.get_users_sorted();
        let mut r: Vec<String> = Vec::new();
        let mut i: usize = 0;
        while i < n
            invariant
                0 <= i <= n,
                n == self@.users.len(),
                users@.len() == n,
                forall|m: int| 0 <= m < n ==> #[trigger] users@[m]@ == self@.users[m],
                r@.len() == i,
                forall|m: int| 0 <= m < i ==> #[trigger] r@[m]@ == spec_display_line(
                    self@.users[m],
                ),
            decreases n - i,
        {
            let line = users[i].format_for_display();
            r.push(line);
            i = i + 1;
        }
        r
    }

    /// Render the one-line session summary, as `spec_sync_summary` says.
    pub fn get_sync_summary(&self) -> (r: String)
        ensures
            r@ == spec_sync_summary(self@),
    {
        let n = self.user_count();
        let in_sync_now = self.check_sync_status(1);
        let mut out = String::new();
        append_u64(&mut out, n as u64);
        out.append(" users connected - ");
        if in_sync_now {
            out.append("\u{2705} In Sync");
        } else {
            out.append("\u{26a0}\u{fe0f} Out of Sync");
        }
        proof {
            assert(out@ =~= spec_sync_summary(self@));
        }
        out
    }
}

} // verus!
