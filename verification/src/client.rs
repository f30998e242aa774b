//! The decision core of one sync client. The surrounding process owns the
//! sockets and timers; this state machine owns the participant's id, its
//! sequence counter, the shadow copy of the session and the position filter,
//! and decides, per polled snapshot or inbound message, how the state changes
//! and which message, if any, goes out.

use vstd::prelude::*;
use crate::protocol::{
    UserState, UserStateView, SessionState, SessionView, SyncEvent, SyncEventView, SyncMessage,
    SyncMessageView, UserId, find_user,
};
use crate::validator::{PositionValidator, ValidatorModel, step};
use crate::num::{spec_u64_dec, append_u64};
use crate::text::str_eq;

verus! {

/// The ids of the other participants standing on the same playlist entry.
pub open spec fn rel_same(users: Seq<UserStateView>, me: Seq<char>, pos: int) -> Seq<Seq<char>> {
    users.filter(|u: UserStateView| u.user_id != me && u.playlist_position == pos).map_values(
        |u: UserStateView| u.user_id,
    )
}

/// The participants this one is ahead of, each with the distance.
pub open spec fn rel_ahead(users: Seq<UserStateView>, pos: int) -> Seq<(Seq<char>, int)> {
    users.filter(|u: UserStateView| u.playlist_position < pos).map_values(
        |u: UserStateView| (u.user_id, pos - u.playlist_position),
    )
}

/// The participants this one is behind, each with the distance.
pub open spec fn rel_behind(users: Seq<UserStateView>, pos: int) -> Seq<(Seq<char>, int)> {
    users.filter(|u: UserStateView| u.playlist_position > pos).map_values(
        |u: UserStateView| (u.user_id, u.playlist_position - pos),
    )
}

/// The word for a page count.
pub open spec fn pages_word(n: int) -> Seq<char> {
    if n == 1 {
        "page"@
    } else {
        "pages"@
    }
}

/// Texts joined by a separator.
pub open spec fn join_texts(items: Seq<Seq<char>>, sep: Seq<char>) -> Seq<char>
    decreases items.len(),
{
    if items.len() == 0 {
        Seq::empty()
    } else if items.len() == 1 {
        items[0]
    } else {
        items[0] + sep + join_texts(items.skip(1), sep)
    }
}

/// Appending one text extends a join by the separator and that text.
proof fn lemma_join_snoc(items: Seq<Seq<char>>, sep: Seq<char>, i: int)
    requires
        0 <= i < items.len(),
    ensures
        join_texts(items.take(i + 1), sep) == if i == 0 {
            items[0]
        } else {
            join_texts(items.take(i), sep) + sep + items[i]
        },
    decreases i,
{
    let t = items.take(i + 1);
    if i == 0 {
        assert(t.len() == 1);
        assert(t[0] == items[0]);
    } else {
        assert(t[0] == items[0]);
        assert(t.skip(1) =~= items.skip(1).take(i));
        lemma_join_snoc(items.skip(1), sep, i - 1);
        assert(items.skip(1)[i - 1] == items[i]);
        let h = items.take(i);
        assert(h[0] == items[0]);
        if i == 1 {
            assert(h.len() == 1);
            assert(join_texts(h, sep) == items[0]);
            assert(join_texts(t, sep) =~= join_texts(h, sep) + sep + items[i]);
        } else {
            assert(h.skip(1) =~= items.skip(1).take(i - 1));
            assert(join_texts(h, sep) == items[0] + sep + join_texts(items.skip(1).take(i - 1), sep));
            assert(join_texts(t, sep) =~= join_texts(h, sep) + sep + items[i]);
        }
    }
}

/// The line naming everyone on the same page.
pub open spec fn same_page_line(ids: Seq<Seq<char>>) -> Seq<char> {
    "\u{1f4cd} You are on the same page as "@ + join_texts(ids, ", "@)
}

/// The line for one participant this one is ahead of.
pub open spec fn ahead_line(entry: (Seq<char>, int)) -> Seq<char> {
    "\u{2b06}\u{fe0f}  You are "@ + spec_u64_dec(entry.1 as nat) + " "@ + pages_word(entry.1)
        + " ahead of "@ + entry.0
}

/// The line for one participant this one is behind.
pub open spec fn behind_line(entry: (Seq<char>, int)) -> Seq<char> {
    "\u{2b07}\u{fe0f}  You are "@ + spec_u64_dec(entry.1 as nat) + " "@ + pages_word(entry.1)
        + " behind "@ + entry.0
}

/// The ahead lines for a list of participants with distances.
pub open spec fn ahead_lines_of(entries: Seq<(Seq<char>, int)>) -> Seq<Seq<char>> {
    entries.map_values(|e: (Seq<char>, int)| ahead_line(e))
}

/// The behind lines for a list of participants with distances.
pub open spec fn behind_lines_of(entries: Seq<(Seq<char>, int)>) -> Seq<Seq<char>> {
    entries.map_values(|e: (Seq<char>, int)| behind_line(e))
}

/// All the report's lines, in order.
pub open spec fn relative_lines(users: Seq<UserStateView>, me: Seq<char>, pos: int) -> Seq<
    Seq<char>,
> {
    (if rel_same(users, me, pos).len() > 0 {
        seq![same_page_line(rel_same(users, me, pos))]
    } else {
        Seq::empty()
    }) + ahead_lines_of(rel_ahead(users, pos)) + behind_lines_of(rel_behind(users, pos))
}

/// The whole relative-position report: nothing alone or unknown; otherwise
/// the same-page line when anyone shares the page, then one line per
/// participant ahead of and behind, in session order, joined by newlines.
pub open spec fn spec_relative_info(users: Seq<UserStateView>, me: Seq<char>) -> Seq<char> {
    if users.len() <= 1 {
        Seq::empty()
    } else {
        match find_user(users, me) {
            None => Seq::empty(),
            Some(mine) => join_texts(
                relative_lines(users, me, mine.playlist_position),
                "\n"@,
            ),
        }
    }
}

/// The character values of a list of strings.
pub open spec fn texts_of(v: Seq<String>) -> Seq<Seq<char>> {
    v.map_values(|s: String| s@)
}

/// The mathematical values of a list of id/distance pairs.
pub open spec fn entries_of(v: Seq<(String, u64)>) -> Seq<(Seq<char>, int)> {
    v.map_values(|p: (String, u64)| (p.0@, p.1 as int))
}

/// Taking one more participant extends each classification by that
/// participant's entry exactly when it falls in the class.
proof fn lemma_rel_step(users: Seq<UserStateView>, me: Seq<char>, pos: int, i: int)
    requires
        0 <= i < users.len(),
    ensures
        rel_same(users.take(i + 1), me, pos) == (if users[i].user_id != me
            && users[i].playlist_position == pos {
            rel_same(users.take(i), me, pos).push(users[i].user_id)
        } else {
            rel_same(users.take(i), me, pos)
        }),
        rel_ahead(users.take(i + 1), pos) == (if users[i].playlist_position < pos {
            rel_ahead(users.take(i), pos).push((users[i].user_id, pos - users[i].playlist_position))
        } else {
            rel_ahead(users.take(i), pos)
        }),
        rel_behind(users.take(i + 1), pos) == (if users[i].playlist_position > pos {
            rel_behind(users.take(i), pos).push(
                (users[i].user_id, users[i].playlist_position - pos),
            )
        } else {
            rel_behind(users.take(i), pos)
        }),
{
    reveal(Seq::filter);
    let t = users.take(i + 1);
    let h = users.take(i);
    assert(t.drop_last() =~= h);
    assert(t.last() == users[i]);
    let ps = |u: UserStateView| u.user_id != me && u.playlist_position == pos;
    let pa = |u: UserStateView| u.playlist_position < pos;
    let pb = |u: UserStateView| u.playlist_position > pos;
    assert(t.filter(ps) == if ps(users[i]) {
        h.filter(ps).push(users[i])
    } else {
        h.filter(ps)
    });
    assert(t.filter(pa) == if pa(users[i]) {
        h.filter(pa).push(users[i])
    } else {
        h.filter(pa)
    });
    assert(t.filter(pb) == if pb(users[i]) {
        h.filter(pb).push(users[i])
    } else {
        h.filter(pb)
    });
    if ps(users[i]) {
        assert(rel_same(t, me, pos) =~= rel_same(h, me, pos).push(users[i].user_id));
    } else {
        assert(rel_same(t, me, pos) =~= rel_same(h, me, pos));
    }
    if pa(users[i]) {
        assert(rel_ahead(t, pos) =~= rel_ahead(h, pos).push(
            (users[i].user_id, pos - users[i].playlist_position),
        ));
    } else {
        assert(rel_ahead(t, pos) =~= rel_ahead(h, pos));
    }
    if pb(users[i]) {
        assert(rel_behind(t, pos) =~= rel_behind(h, pos).push(
            (users[i].user_id, users[i].playlist_position - pos),
        ));
    } else {
        assert(rel_behind(t, pos) =~= rel_behind(h, pos));
    }
}

/// Mapping to character values distributes over appending a string.
proof fn lemma_texts_push(v: Seq<String>, x: String)
    ensures
        texts_of(v.push(x)) == texts_of(v).push(x@),
{
    assert(texts_of(v.push(x)) =~= texts_of(v).push(x@));
}

/// Mapping to mathematical values distributes over appending a pair.
proof fn lemma_entries_push(v: Seq<(String, u64)>, x: (String, u64))
    ensures
        entries_of(v.push(x)) == entries_of(v).push((x.0@, x.1 as int)),
{
    assert(entries_of(v.push(x)) =~= entries_of(v).push((x.0@, x.1 as int)));
}

/// One participant's client-side state: everything the polling, receiving
/// and sending activities decide over.
pub struct SyncClient {
    user_id: UserId,
    sequence_counter: u64,
    session_state: SessionState,
    validator: PositionValidator,
}

impl SyncClient {
    /// The participant id this client joined with.
    pub closed spec fn id(self) -> Seq<char> {
        self.user_id@
    }

    /// The sequence number of the last message built.
    pub closed spec fn sequence(self) -> int {
        self.sequence_counter as int
    }

    /// The shadow copy of the session.
    pub closed spec fn session(self) -> SessionView {
        self.session_state@
    }

    /// The position filter's state.
    pub closed spec fn validator(self) -> ValidatorModel {
        self.validator@
    }

    /// The session copy is well formed and so is the filter.
    pub open spec fn wf(self) -> bool {
        &&& self.session_wf()
        &&& crate::validator::model_wf(self.validator())
    }

    /// The session copy alone is well formed.
    pub closed spec fn session_wf(self) -> bool {
        self.session_state.wf()
    }

    /// A fresh client: empty session, zero sequence counter, unseeded
    /// filter.
    pub fn new(user_id: UserId) -> (r: Self)
        ensures
            r.wf(),
            r.id() == user_id@,
            r.sequence() == 0,
            r.session().users.len() == 0,
            r.validator().last is None,
            r.validator().pending is None,
    {
        SyncClient {
            user_id,
            sequence_counter: 0,
            session_state: SessionState::new(),
            validator: PositionValidator::new(),
        }
    }

    /// The participant id, for naming this client in outbound messages.
    pub fn user_id(&self) -> (r: &UserId)
        ensures
            r@ == self.id(),
    {
        &self.user_id
    }

    /// Read-only access to the shadow session, for the display collaborator.
    pub fn session_state(&self) -> (r: &SessionState)
        ensures
            r@ == self.session(),
            self.wf() ==> r.wf(),
    {
        &self.session_state
    }

    /// Enter the session: record the first polled state in the shadow
    /// session, seed the position filter with its playlist position, and
    /// build the joined message that announces it.
    pub fn join_message(&mut self, initial_state: UserState) -> (r: SyncMessage)
        requires
            old(self).wf(),
            initial_state@.user_id == old(self).id(),
            initial_state@.playlist_position >= -1,
            old(self).sequence() < u64::MAX,
    ensures
            final(self).wf(),
            final(self).id() == old(self).id(),
            final(self).sequence() == old(self).sequence() + 1,
            final(self).validator().last == Some(initial_state@.playlist_position),
            final(self).validator().pending is None,
            forall|id: Seq<char>|
                #[trigger] find_user(final(self).session().users, id) == (if id
                    == initial_state@.user_id {
                    Some(initial_state@)
                } else {
                    find_user(old(self).session().users, id)
                }),
            r@ == (SyncMessageView {
                event: SyncEventView::UserJoined {
                    user_id: old(self).id(),
                    user_state: initial_state@,
                },
                sequence: old(self).sequence() + 1,
            }),
    {
        let state_copy = initial_state.clone();
        self.validator.seed(initial_state.playlist_position);
        self.session_state.update_user(state_copy);
        self.sequence_counter = self.sequence_counter + 1;
        SyncMessage::user_joined(self.user_id.clone(), initial_state, self.sequence_counter)
    }

    /// One poll cycle: run the candidate position through the filter and,
    /// exactly when it is accepted, commit the snapshot to the shadow
    /// session and build the state update to send; a rejected poll changes
    /// nothing else and sends nothing.
    pub fn poll_step(&mut self, polled: UserState, playlist_length: usize) -> (r: Option<
        SyncMessage,
    >)
        requires
            old(self).wf(),
            polled@.user_id == old(self).id(),
            playlist_length <= i32::MAX as usize,
            old(self).sequence() < u64::MAX,
    ensures
            final(self).wf(),
            final(self).id() == old(self).id(),
            (final(self).validator(), r is Some) == step(
                old(self).validator(),
                polled@.playlist_position,
                playlist_length as int,
            ),
            (match r {
                Some(msg) => {
                    &&& final(self).sequence() == old(self).sequence() + 1
                    &&& msg@ == (SyncMessageView {
                        event: SyncEventView::StateUpdate { user_state: polled@ },
                        sequence: old(self).sequence() + 1,
                    })
                    &&& forall|id: Seq<char>|
                        #[trigger] find_user(final(self).session().users, id) == (if id
                            == polled@.user_id {
                            Some(polled@)
                        } else {
                            find_user(old(self).session().users, id)
                        })
                },
                None => final(self).sequence() == old(self).sequence() && final(self).session()
                    == old(self).session(),
            }),
    {
        let accepted = self.validator.validate_position_change(
            polled.playlist_position,
            playlist_length,
        );
        if accepted {
            let state_copy = polled.clone();
            self.session_state.update_user(state_copy);
            self.sequence_counter = self.sequence_counter + 1;
            Some(SyncMessage::state_update(polled, self.sequence_counter))
        } else {
            None
        }
    }

    /// Apply one message received from the server to the shadow session: a
    /// join or a state update records that participant's state, a leave
    /// removes it, and a heartbeat or action is informational only.
    pub fn handle_incoming_message(&mut self, message: SyncMessage)
        requires
            old(self).wf(),
    ensures
            final(self).wf(),
            final(self).id() == old(self).id(),
            final(self).sequence() == old(self).sequence(),
            final(self).validator() == old(self).validator(),
            (match message@.event {
                SyncEventView::UserJoined { user_id: _, user_state } => forall|id: Seq<char>|
                    #[trigger] find_user(final(self).session().users, id) == (if id
                        == user_state.user_id {
                        Some(user_state)
                    } else {
                        find_user(old(self).session().users, id)
                    }),
                SyncEventView::StateUpdate { user_state } => forall|id: Seq<char>|
                    #[trigger] find_user(final(self).session().users, id) == (if id
                        == user_state.user_id {
                        Some(user_state)
                    } else {
                        find_user(old(self).session().users, id)
                    }),
                SyncEventView::UserLeft { user_id } => forall|id: Seq<char>|
                    #[trigger] find_user(final(self).session().users, id) == (if id == user_id {
                        None::<crate::protocol::UserStateView>
                    } else {
                        find_user(old(self).session().users, id)
                    }),
                _ => final(self).session() == old(self).session(),
            }),
    {
        match message.event {
            SyncEvent::UserJoined { user_id: _, user_state } => {
                self.session_state.update_user(user_state);
            },
            SyncEvent::UserLeft { user_id } => {
                self.session_state.remove_user(&user_id);
            },
            SyncEvent::StateUpdate { user_state } => {
                self.session_state.update_user(user_state);
            },
            SyncEvent::Heartbeat { .. } => {},
            SyncEvent::UserAction { .. } => {},
        }
    }

    /// The relative-position report shown beside the session: who shares
    /// this participant's page, and how many pages it is ahead of or behind
    /// each other participant, as `spec_relative_info` says.
    pub fn get_relative_position_info(session_state: &SessionState, current_user_id: &str) -> (r:
        String)
        requires
            session_state.wf(),
        ensures
            r@ == spec_relative_info(session_state@.users, current_user_id@),
    {
        let ghost users = session_state@.users;
        let ghost me = current_user_id@;
        let n = session_state.user_count();
        if n <= 1 {
            let r = String::new();
            proof {
                assert(r@ =~= spec_relative_info(users, me));
            }
            return r;
        }
        let my_pos: i32 = match session_state.get_user(current_user_id) {
            Some(u) => u.playlist_position,
            None => {
                let r = String::new();
                proof {
                    assert(r@ =~= spec_relative_info(users, me));
                }
                return r;
            },
        };
        let ghost pos = my_pos as int;
        let sorted = session_state.get_users_sorted();
        let mut same: Vec<String> = Vec::new();
        let mut ahead: Vec<(String, u64)> = Vec::new();
        let mut behind: Vec<(String, u64)> = Vec::new();
        let mut i: usize = 0;
        proof {
            reveal(Seq::filter);
            assert(users.take(0).len() == 0);
            assert(texts_of(same@) =~= rel_same(users.take(0), me, pos));
            assert(entries_of(ahead@) =~= rel_ahead(users.take(0), pos));
            assert(entries_of(behind@) =~= rel_behind(users.take(0), pos));
        }
        while i < n
            invariant
                0 <= i <= n,
                n == users.len(),
                sorted@.len() == n,
                forall|m: int| 0 <= m < n ==> #[trigger] sorted@[m]@ == users[m],
                pos == my_pos as int,
                me == current_user_id@,
                texts_of(same@) == rel_same(users.take(i as int), me, pos),
                entries_of(ahead@) == rel_ahead(users.take(i as int), pos),
                entries_of(behind@) == rel_behind(users.take(i as int), pos),
            decreases n - i,
        {
            let u = sorted[i];
            proof {
                reveal(Seq::filter);
                assert(u@ == users[i as int]);
                let t = users.take(i as int + 1);
                assert(t.drop_last() =~= users.take(i as int));
                assert(t.last() == users[i as int]);
            }
            proof {
                lemma_rel_step(users, me, pos, i as int);
            }
            if u.playlist_position < my_pos {
                let diff_i: i64 = my_pos as i64 - u.playlist_position as i64;
                proof {
                    assert(diff_i > 0);
                    assert(u@.playlist_position == u.playlist_position as int);
                    assert(users[i as int].playlist_position == u.playlist_position as int);
                    assert(diff_i == pos - users[i as int].playlist_position);
                }
                let diff: u64 = diff_i as u64;
                let entry = (u.user_id.clone(), diff);
                let ghost esnap = entry;
                let ghost pre = ahead@;
                ahead.push(entry);
                proof {
                    lemma_entries_push(pre, esnap);
                    assert(esnap.0@ == users[i as int].user_id);
                    assert(esnap.1 as int == pos - users[i as int].playlist_position);
                    assert(entries_of(ahead@) == rel_ahead(users.take(i as int + 1), pos));
                    assert(texts_of(same@) == rel_same(users.take(i as int + 1), me, pos));
                    assert(entries_of(behind@) == rel_behind(users.take(i as int + 1), pos));
                }
            } else if u.playlist_position > my_pos {
                let diff_i: i64 = u.playlist_position as i64 - my_pos as i64;
                proof {
                    assert(diff_i > 0);
                    assert(u@.playlist_position == u.playlist_position as int);
                    assert(users[i as int].playlist_position == u.playlist_position as int);
                    assert(diff_i == users[i as int].playlist_position - pos);
                }
                let diff: u64 = diff_i as u64;
                let entry = (u.user_id.clone(), diff);
                let ghost esnap = entry;
                let ghost pre = behind@;
                behind.push(entry);
                proof {
                    lemma_entries_push(pre, esnap);
                    assert(esnap.0@ == users[i as int].user_id);
                    assert(esnap.1 as int == users[i as int].playlist_position - pos);
                    assert(entries_of(behind@) == rel_behind(users.take(i as int + 1), pos));
                    assert(texts_of(same@) == rel_same(users.take(i as int + 1), me, pos));
                    assert(entries_of(ahead@) == rel_ahead(users.take(i as int + 1), pos));
                }
            } else {
                if !str_eq(u.user_id.as_str(), current_user_id) {
                    let id = u.user_id.clone();
                    let ghost isnap = id;
                    let ghost pre = same@;
                    same.push(id);
                    proof {
                        lemma_texts_push(pre, isnap);
                        assert(isnap@ == users[i as int].user_id);
                        assert(texts_of(same@) == rel_same(users.take(i as int + 1), me, pos));
                        assert(entries_of(ahead@) == rel_ahead(users.take(i as int + 1), pos));
                        assert(entries_of(behind@) == rel_behind(users.take(i as int + 1), pos));
                    }
                } else {
                    proof {
                        assert(texts_of(same@) == rel_same(users.take(i as int + 1), me, pos));
                        assert(entries_of(ahead@) == rel_ahead(users.take(i as int + 1), pos));
                        assert(entries_of(behind@) == rel_behind(users.take(i as int + 1), pos));
                    }
                }
            }
            i = i + 1;
        }
        proof {
            assert(users.take(n as int) =~= users);
        }
        let ghost same_ids = rel_same(users, me, pos);
        let ghost all_lines = relative_lines(users, me, pos);
        let mut lines: Vec<String> = Vec::new();
        if same.len() > 0 {
            let mut line = String::new();
            line.append("\u{1f4cd} You are on the same page as ");
            let sn = same.len();
            let mut k: usize = 0;
            while k < sn
                invariant
                    0 <= k <= sn,
                    sn == same_ids.len(),
                    texts_of(same@) == same_ids,
                    same@.len() == sn,
                    k == 0 ==> line@ == "\u{1f4cd} You are on the same page as "@,
                    k > 0 ==> line@ == "\u{1f4cd} You are on the same page as "@ + join_texts(
                        same_ids.take(k as int),
                        ", "@,
                    ),
                decreases sn - k,
            {
                if k > 0 {
                    line.append(", ");
                }
                let id = &same[k];
                proof {
                    assert(id@ == same_ids[k as int]);
                    lemma_join_snoc(same_ids, ", "@, k as int);
                }
                line.append(id.as_str());
                proof {
                    if k > 0 {
                        assert(line@ =~= "\u{1f4cd} You are on the same page as "@ + join_texts(
                            same_ids.take(k as int + 1),
                            ", "@,
                        ));
                    } else {
                        assert(same_ids.take(1) =~= seq![same_ids[0]]);
                        assert(line@ =~= "\u{1f4cd} You are on the same page as "@ + join_texts(
                            same_ids.take(1),
                            ", "@,
                        ));
                    }
                }
                k = k + 1;
            }
            proof {
                assert(same_ids.take(sn as int) =~= same_ids);
                assert(line@ == same_page_line(same_ids));
            }
            let ghost lsnap = line;
            let ghost pre = lines@;
            lines.push(line);
            proof {
                lemma_texts_push(pre, lsnap);
            }
        }
        proof {
            if same_ids.len() > 0 {
                assert(texts_of(lines@) =~= seq![same_page_line(same_ids)]);
            } else {
                assert(texts_of(lines@) =~= Seq::<Seq<char>>::empty());
            }
        }
        let ghost same_part: Seq<Seq<char>> = (if same_ids.len() > 0 {
            seq![same_page_line(same_ids)]
        } else {
            Seq::<Seq<char>>::empty()
        });
        let an = ahead.len();
        let mut k: usize = 0;
        while k < an
            invariant
                0 <= k <= an,
                an == rel_ahead(users, pos).len(),
                entries_of(ahead@) == rel_ahead(users, pos),
                ahead@.len() == an,
                same_part == (if same_ids.len() > 0 {
                    seq![same_page_line(same_ids)]
                } else {
                    Seq::<Seq<char>>::empty()
                }),
                texts_of(lines@) == same_part + ahead_lines_of(rel_ahead(users, pos)).take(
                    k as int,
                ),
            decreases an - k,
        {
            let entry = &ahead[k];
            proof {
                assert((entry.0@, entry.1 as int) == rel_ahead(users, pos)[k as int]);
            }
            let mut line = String::new();
            line.append("\u{2b06}\u{fe0f}  You are ");
            append_u64(&mut line, entry.1);
            line.append(" ");
            if entry.1 == 1 {
                line.append("page");
            } else {
                line.append("pages");
            }
            line.append(" ahead of ");
            line.append(entry.0.as_str());
            proof {
                assert(line@ =~= ahead_line(rel_ahead(users, pos)[k as int]));
            }
            let ghost lsnap = line;
            let ghost pre = lines@;
            lines.push(line);
            proof {
                lemma_texts_push(pre, lsnap);
                assert(ahead_lines_of(rel_ahead(users, pos))[k as int] == ahead_line(
                    rel_ahead(users, pos)[k as int],
                ));
                assert(texts_of(pre).push(lsnap@) =~= same_part + ahead_lines_of(
                    rel_ahead(users, pos),
                ).take(k as int + 1));
            }
            k = k + 1;
        }
        proof {
            assert(ahead_lines_of(rel_ahead(users, pos)).take(an as int) =~= ahead_lines_of(
                rel_ahead(users, pos),
            ));
        }
        let bn = behind.len();
        let mut k2: usize = 0;
        while k2 < bn
            invariant
                0 <= k2 <= bn,
                bn == rel_behind(users, pos).len(),
                entries_of(behind@) == rel_behind(users, pos),
                behind@.len() == bn,
                same_part == (if same_ids.len() > 0 {
                    seq![same_page_line(same_ids)]
                } else {
                    Seq::<Seq<char>>::empty()
                }),
                texts_of(lines@) == same_part + ahead_lines_of(rel_ahead(users, pos))
                    + behind_lines_of(rel_behind(users, pos)).take(k2 as int),
            decreases bn - k2,
        {
            let entry = &behind[k2];
            proof {
                assert((entry.0@, entry.1 as int) == rel_behind(users, pos)[k2 as int]);
            }
            let mut line = String::new();
            line.append("\u{2b07}\u{fe0f}  You are ");
            append_u64(&mut line, entry.1);
            line.append(" ");
            if entry.1 == 1 {
                line.append("page");
            } else {
                line.append("pages");
            }
            line.append(" behind ");
            line.append(entry.0.as_str());
            proof {
                assert(line@ =~= behind_line(rel_behind(users, pos)[k2 as int]));
            }
            let ghost lsnap = line;
            let ghost pre = lines@;
            lines.push(line);
            proof {
                lemma_texts_push(pre, lsnap);
                assert(behind_lines_of(rel_behind(users, pos))[k2 as int] == behind_line(
                    rel_behind(users, pos)[k2 as int],
                ));
                assert(texts_of(pre).push(lsnap@) =~= same_part + ahead_lines_of(
                    rel_ahead(users, pos),
                ) + behind_lines_of(rel_behind(users, pos)).take(k2 as int + 1));
            }
            k2 = k2 + 1;
        }
        proof {
            assert(behind_lines_of(rel_behind(users, pos)).take(bn as int) =~= behind_lines_of(
                rel_behind(users, pos),
            ));
            assert(texts_of(lines@) == all_lines);
        }
        let ln = lines.len();
        let mut out = String::new();
        let mut k3: usize = 0;
        proof {
            assert(all_lines.take(0).len() == 0);
            assert(out@ =~= join_texts(all_lines.take(0), "\n"@));
        }
        while k3 < ln
            invariant
                0 <= k3 <= ln,
                ln == all_lines.len(),
                texts_of(lines@) == all_lines,
                lines@.len() == ln,
                out@ == join_texts(all_lines.take(k3 as int), "\n"@),
            decreases ln - k3,
        {
            if k3 > 0 {
                out.append("\n");
            }
            let line = &lines[k3];
            proof {
                assert(line@ == all_lines[k3 as int]);
                lemma_join_snoc(all_lines, "\n"@, k3 as int);
            }
            out.append(line.as_str());
            proof {
                if k3 > 0 {
                    assert(out@ =~= join_texts(all_lines.take(k3 as int + 1), "\n"@));
                } else {
                    assert(all_lines.take(1) =~= seq![all_lines[0]]);
                    assert(out@ =~= join_texts(all_lines.take(1), "\n"@));
                }
            }
            k3 = k3 + 1;
        }
        proof {
            assert(all_lines.take(ln as int) =~= all_lines);
            assert(out@ == spec_relative_info(users, me));
        }
        out
    }

    /// The best-effort leave announcement sent when the connection winds
    /// down.
    pub fn leave_message(&self, sequence: u64) -> (r: SyncMessage)
        ensures
            r@ == (SyncMessageView {
                event: SyncEventView::UserLeft { user_id: self.id() },
                sequence: sequence as int,
            }),
    {
        SyncMessage::user_left(self.user_id.clone(), sequence)
    }
}

} // verus!
