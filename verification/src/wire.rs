//! The synchronization wire format: one message per line, a JSON object
//! `{"event": <event>, "sequence": <number>}` whose event is tag-discriminated
//! with one variant per kind of `SyncEvent`.
//!
//! The encoder writes one canonical text for every wire-safe message, and the
//! decoder accepts exactly those texts: decoding is specified as a function
//! of the input, and decoding an encoding is proved to give back the encoded
//! message. Times travel as seconds with three fractional digits; quotes and
//! backslashes in string payloads are escaped, and control characters are
//! refused, so a line is always the unit of framing.

use vstd::prelude::*;
use crate::num::{
    is_digit, spec_u64_dec, spec_i64_dec, spec_ms_dec, spec_parse_u64, spec_parse_i32,
    spec_parse_ms, append_u64, append_i64, append_ms, parse_u64_at, parse_i32_at, parse_ms_at,
    lemma_parse_u64_dec, lemma_parse_i32_dec, lemma_parse_ms_dec, is_digit_char,
};
use crate::protocol::{
    UserState, UserStateView, SyncEvent, SyncEventView, SyncMessage, SyncMessageView,
};

verus! {

/// Characters that may stand in a wire string payload: no control characters,
/// hence no newline, keeping the line framing. Quotes and backslashes are
/// fine; the encoding escapes them.
pub open spec fn wf_text(t: Seq<char>) -> bool {
    forall|i: int| 0 <= i < t.len() ==> 32 <= #[trigger] t[i] as int
}

/// Whether an optional payload is wire safe.
pub open spec fn wf_opt_text(t: Option<Seq<char>>) -> bool {
    match t {
        Some(s) => wf_text(s),
        None => true,
    }
}

/// A participant snapshot the wire can carry: safe strings, and the playback
/// time within the signed range the fixed-point text uses.
pub open spec fn wf_user(u: UserStateView) -> bool {
    &&& wf_text(u.user_id)
    &&& wf_opt_text(u.current_file)
    &&& wf_opt_text(u.current_file_name)
    &&& i32::MIN <= u.playlist_position <= i32::MAX
    &&& 0 <= u.playback_time_ms <= i64::MAX
    &&& 0 <= u.timestamp <= u64::MAX
}

/// An event the wire can carry.
pub open spec fn wf_event(e: SyncEventView) -> bool {
    match e {
        SyncEventView::UserJoined { user_id, user_state } => wf_text(user_id) && wf_user(
            user_state,
        ),
        SyncEventView::UserLeft { user_id } => wf_text(user_id),
        SyncEventView::StateUpdate { user_state } => wf_user(user_state),
        SyncEventView::UserAction { user_id, action, value } => wf_text(user_id) && wf_text(action)
            && (match value {
            Some(v) => i64::MIN < v <= i64::MAX,
            None => true,
        }),
        SyncEventView::Heartbeat { user_id, timestamp } => wf_text(user_id) && 0 <= timestamp
            <= u64::MAX,
    }
}

/// A message the wire can carry.
pub open spec fn wf_message(m: SyncMessageView) -> bool {
    wf_event(m.event) && 0 <= m.sequence <= u64::MAX
}

/// Whether every character of `s` may stand in a wire string payload.
pub fn check_wf_text(s: &str) -> (r: bool)
    ensures
        r == wf_text(s@),
{
    let n = s.unicode_len();
    for i in 0..n
        invariant
            n == s@.len(),
            forall|m: int| 0 <= m < i ==> 32 <= #[trigger] s@[m] as int,
    {
        let c = s.get_char(i);
        if (c as u32) < 32 {
            return false;
        }
    }
    true
}

// ---------------------------------------------------------------------
// Spec-level encoding.
// ---------------------------------------------------------------------
/// The escape of one payload character: a quote or a backslash takes a
/// leading backslash, anything else stands for itself.
pub open spec fn esc_char(c: char) -> Seq<char> {
    if c == '"' || c == '\\' {
        seq!['\\', c]
    } else {
        seq![c]
    }
}

/// A payload with its quotes and backslashes escaped.
pub open spec fn esc_text(t: Seq<char>) -> Seq<char>
    decreases t.len(),
{
    if t.len() == 0 {
        Seq::empty()
    } else {
        esc_char(t[0]) + esc_text(t.skip(1))
    }
}

/// A quoted string payload, escaped.
pub open spec fn enc_str(t: Seq<char>) -> Seq<char> {
    seq!['"'] + esc_text(t) + seq!['"']
}

/// A boolean literal.
pub open spec fn enc_bool(b: bool) -> Seq<char> {
    if b {
        "true"@
    } else {
        "false"@
    }
}

/// An optional quoted string, `null` when absent.
pub open spec fn enc_opt_str(t: Option<Seq<char>>) -> Seq<char> {
    match t {
        Some(s) => enc_str(s),
        None => "null"@,
    }
}

/// An optional fixed-point millisecond count, `null` when absent.
pub open spec fn enc_opt_ms(v: Option<int>) -> Seq<char> {
    match v {
        Some(ms) => spec_ms_dec(ms),
        None => "null"@,
    }
}

/// A participant snapshot as a JSON object with the fields in declaration
/// order.
pub open spec fn enc_user(u: UserStateView) -> Seq<char> {
    "{\"user_id\":"@ + enc_str(u.user_id) + ",\"playlist_position\":"@ + spec_i64_dec(
        u.playlist_position,
    ) + ",\"current_file\":"@ + enc_opt_str(u.current_file) + ",\"current_file_name\":"@
        + enc_opt_str(u.current_file_name) + ",\"playback_time\":"@ + spec_ms_dec(
        u.playback_time_ms,
    ) + ",\"is_paused\":"@ + enc_bool(u.is_paused) + ",\"timestamp\":"@ + spec_u64_dec(
        u.timestamp as nat,
    ) + "}"@
}

/// An event as a tag-discriminated JSON object.
pub open spec fn enc_event(e: SyncEventView) -> Seq<char> {
    match e {
        SyncEventView::UserJoined { user_id, user_state } => "{\"UserJoined\":{\"user_id\":"@
            + enc_str(user_id) + ",\"user_state\":"@ + enc_user(user_state) + "}}"@,
        SyncEventView::UserLeft { user_id } => "{\"UserLeft\":{\"user_id\":"@ + enc_str(user_id)
            + "}}"@,
        SyncEventView::StateUpdate { user_state } => "{\"StateUpdate\":{\"user_state\":"@
            + enc_user(user_state) + "}}"@,
        SyncEventView::UserAction { user_id, action, value } => "{\"UserAction\":{\"user_id\":"@
            + enc_str(user_id) + ",\"action\":"@ + enc_str(action) + ",\"value\":"@ + enc_opt_ms(
            value,
        ) + "}}"@,
        SyncEventView::Heartbeat { user_id, timestamp } => "{\"Heartbeat\":{\"user_id\":"@
            + enc_str(user_id) + ",\"timestamp\":"@ + spec_u64_dec(timestamp as nat) + "}}"@,
    }
}

/// A whole message: the event and the sender's sequence number.
pub open spec fn enc_message(m: SyncMessageView) -> Seq<char> {
    "{\"event\":"@ + enc_event(m.event) + ",\"sequence\":"@ + spec_u64_dec(m.sequence as nat)
        + "}"@
}

// ---------------------------------------------------------------------
// Executable encoding.
// ---------------------------------------------------------------------
/// Escaping one more character extends the escaped text by its escape.
proof fn lemma_esc_text_snoc(t: Seq<char>, i: int)
    requires
        0 <= i < t.len(),
    ensures
        esc_text(t.take(i + 1)) == esc_text(t.take(i)) + esc_char(t[i]),
    decreases i,
{
    let a = t.take(i + 1);
    if i == 0 {
        assert(a.len() == 1);
        assert(a[0] == t[0]);
        assert(a.skip(1).len() == 0);
        assert(esc_text(a.skip(1)) =~= Seq::<char>::empty());
        assert(esc_text(a) =~= esc_char(t[0]));
        assert(t.take(0).len() == 0);
        assert(esc_text(t.take(0)) + esc_char(t[0]) =~= esc_char(t[0]));
    } else {
        assert(a[0] == t[0]);
        assert(a.skip(1) =~= t.skip(1).take(i));
        lemma_esc_text_snoc(t.skip(1), i - 1);
        assert(t.skip(1)[i - 1] == t[i]);
        let h = t.take(i);
        assert(h[0] == t[0]);
        assert(h.skip(1) =~= t.skip(1).take(i - 1));
        assert(esc_text(a) =~= esc_text(h) + esc_char(t[i]));
    }
}

/// A span without quotes or backslashes escapes to itself.
proof fn lemma_esc_text_plain_span(t: Seq<char>, s0: int, i: int)
    requires
        0 <= s0 <= i <= t.len(),
        forall|m: int| s0 <= m < i ==> #[trigger] t[m] != '"' && t[m] != '\\',
    ensures
        esc_text(t.take(i)) == esc_text(t.take(s0)) + t.subrange(s0, i),
    decreases i - s0,
{
    if i == s0 {
        assert(t.subrange(s0, i).len() == 0);
        assert(esc_text(t.take(s0)) + t.subrange(s0, i) =~= esc_text(t.take(s0)));
    } else {
        lemma_esc_text_plain_span(t, s0, i - 1);
        lemma_esc_text_snoc(t, i - 1);
        assert(esc_char(t[i - 1]) =~= seq![t[i - 1]]);
        assert(esc_text(t.take(i)) =~= esc_text(t.take(s0)) + t.subrange(s0, i));
    }
}

/// Append a quoted string payload, escaping quotes and backslashes.
pub(crate) fn append_str(out: &mut String, t: &str)
    ensures
        final(out)@ == old(out)@ + enc_str(t@),
{
    proof {
        reveal_strlit("\"");
        assert("\""@ =~= seq!['"']);
    }
    out.append("\"");
    let n = t.unicode_len();
    let mut s0: usize = 0;
    let mut i: usize = 0;
    proof {
        assert(t@.take(0).len() == 0);
        assert(out@ =~= old(out)@ + seq!['"'] + esc_text(t@.take(0)));
    }
    loop
        invariant_except_break
            0 <= s0 <= i <= n,
            n == t@.len(),
            forall|m: int| s0 <= m < i ==> #[trigger] t@[m] != '"' && t@[m] != '\\',
            out@ == old(out)@ + seq!['"'] + esc_text(t@.take(s0 as int)),
        ensures
            out@ == old(out)@ + seq!['"'] + esc_text(t@),
        decreases n - i,
    {
        if i >= n {
            let span = t.substring_char(s0, i);
            out.append(span);
            proof {
                lemma_esc_text_plain_span(t@, s0 as int, i as int);
                assert(t@.take(n as int) =~= t@);
                assert(out@ =~= old(out)@ + seq!['"'] + esc_text(t@));
            }
            break ;
        }
        let c = t.get_char(i);
        if c == '"' || c == '\\' {
            let span = t.substring_char(s0, i);
            out.append(span);
            if c == '"' {
                out.append("\\\"");
            } else {
                out.append("\\\\");
            }
            proof {
                reveal_strlit("\\\"");
                reveal_strlit("\\\\");
                assert("\\\""@ =~= seq!['\\', '"']);
                assert("\\\\"@ =~= seq!['\\', '\\']);
                lemma_esc_text_plain_span(t@, s0 as int, i as int);
                lemma_esc_text_snoc(t@, i as int);
                assert(out@ =~= old(out)@ + seq!['"'] + esc_text(t@.take(i as int + 1)));
            }
            s0 = i + 1;
            i = i + 1;
        } else {
            i = i + 1;
        }
    }
    proof {
        reveal_strlit("\"");
        assert("\""@ =~= seq!['"']);
    }
    out.append("\"");
    proof {
        assert(final(out)@ =~= old(out)@ + enc_str(t@));
    }
}

/// Append a boolean literal.
fn append_bool(out: &mut String, b: bool)
    ensures
        final(out)@ == old(out)@ + enc_bool(b),
{
    if b {
        out.append("true");
    } else {
        out.append("false");
    }
}

/// Append an optional quoted string, `null` when absent.
fn append_opt_str(out: &mut String, t: &Option<String>)
    ensures
        final(out)@ == old(out)@ + enc_opt_str(
            match t {
                Some(s) => Some(s@),
                None => None,
            },
        ),
{
    match t {
        Some(s) => append_str(out, s.as_str()),
        None => out.append("null"),
    }
}

/// Append a participant snapshot.
#[verifier::rlimit(50)]
fn append_user(out: &mut String, u: &UserState)
    requires
        u@.playback_time_ms <= i64::MAX,
    ensures
        final(out)@ == old(out)@ + enc_user(u@),
{
    out.append("{\"user_id\":");
    append_str(out, u.user_id.as_str());
    out.append(",\"playlist_position\":");
    append_i64(out, u.playlist_position as i64);
    out.append(",\"current_file\":");
    append_opt_str(out, &u.current_file);
    out.append(",\"current_file_name\":");
    append_opt_str(out, &u.current_file_name);
    out.append(",\"playback_time\":");
    append_ms(out, u.playback_time_ms as i64);
    out.append(",\"is_paused\":");
    append_bool(out, u.is_paused);
    out.append(",\"timestamp\":");
    append_u64(out, u.timestamp);
    out.append("}");
    proof {
        assert(final(out)@ =~= old(out)@ + enc_user(u@));
    }
}

/// Append an event.
fn append_event(out: &mut String, e: &SyncEvent)
    requires
        wf_event(e@),
    ensures
        final(out)@ == old(out)@ + enc_event(e@),
{
    match e {
        SyncEvent::UserJoined { user_id, user_state } => {
            out.append("{\"UserJoined\":{\"user_id\":");
            append_str(out, user_id.as_str());
            out.append(",\"user_state\":");
            append_user(out, user_state);
            out.append("}}");
            proof {
                assert(final(out)@ =~= old(out)@ + enc_event(e@));
            }
        },
        SyncEvent::UserLeft { user_id } => {
            out.append("{\"UserLeft\":{\"user_id\":");
            append_str(out, user_id.as_str());
            out.append("}}");
            proof {
                assert(final(out)@ =~= old(out)@ + enc_event(e@));
            }
        },
        SyncEvent::StateUpdate { user_state } => {
            out.append("{\"StateUpdate\":{\"user_state\":");
            append_user(out, user_state);
            out.append("}}");
            proof {
                assert(final(out)@ =~= old(out)@ + enc_event(e@));
            }
        },
        SyncEvent::UserAction { user_id, action, value } => {
            out.append("{\"UserAction\":{\"user_id\":");
            append_str(out, user_id.as_str());
            out.append(",\"action\":");
            append_str(out, action.as_str());
            out.append(",\"value\":");
            match value {
                Some(v) => append_ms(out, *v),
                None => out.append("null"),
            }
            out.append("}}");
            proof {
                assert(final(out)@ =~= old(out)@ + enc_event(e@));
            }
        },
        SyncEvent::Heartbeat { user_id, timestamp } => {
            out.append("{\"Heartbeat\":{\"user_id\":");
            append_str(out, user_id.as_str());
            out.append(",\"timestamp\":");
            append_u64(out, *timestamp);
            out.append("}}");
            proof {
                assert(final(out)@ =~= old(out)@ + enc_event(e@));
            }
        },
    }
}

/// Whether a message is wire safe, as `wf_message` says of its value.
pub fn is_wire_safe(m: &SyncMessage) -> (r: bool)
    ensures
        r == wf_message(m@),
{
    match &m.event {
        SyncEvent::UserJoined { user_id, user_state } => check_wf_text(user_id.as_str())
            && is_wire_safe_user(user_state),
        SyncEvent::UserLeft { user_id } => check_wf_text(user_id.as_str()),
        SyncEvent::StateUpdate { user_state } => is_wire_safe_user(user_state),
        SyncEvent::UserAction { user_id, action, value } => check_wf_text(user_id.as_str())
            && check_wf_text(action.as_str()) && (match value {
            Some(v) => *v != i64::MIN,
            None => true,
        }),
        SyncEvent::Heartbeat { user_id, timestamp: _ } => check_wf_text(user_id.as_str()),
    }
}

/// Whether a participant snapshot is wire safe, as `wf_user` says of its
/// value.
pub fn is_wire_safe_user(u: &UserState) -> (r: bool)
    ensures
        r == wf_user(u@),
{
    let files_ok = (match &u.current_file {
        Some(f) => check_wf_text(f.as_str()),
        None => true,
    }) && (match &u.current_file_name {
        Some(f) => check_wf_text(f.as_str()),
        None => true,
    });
    files_ok && check_wf_text(u.user_id.as_str()) && u.playback_time_ms <= i64::MAX as u64
}

/// Encode a message as one line of wire text, exactly when it is wire safe.
pub fn encode_message(m: &SyncMessage) -> (r: Option<String>)
    ensures
        (match r {
            Some(s) => wf_message(m@) && s@ == enc_message(m@),
            None => !wf_message(m@),
        }),
{
    if !is_wire_safe(m) {
        return None;
    }
    let mut out = String::new();
    out.append("{\"event\":");
    append_event(&mut out, &m.event);
    out.append(",\"sequence\":");
    append_u64(&mut out, m.sequence);
    out.append("}");
    proof {
        assert(out@ =~= enc_message(m@));
    }
    Some(out)
}

// ---------------------------------------------------------------------
// Spec-level parsing. Each parser consumes from the front of a character
// sequence and returns the parsed value with the remaining characters.
// ---------------------------------------------------------------------
/// Consume an exact literal.
pub open spec fn spec_parse_lit(s: Seq<char>, p: Seq<char>) -> Option<Seq<char>> {
    if p.is_prefix_of(s) {
        Some(s.skip(p.len() as int))
    } else {
        None
    }
}

/// Consume the rest of a quoted payload after its opening quote: plain
/// characters stand for themselves, a backslash escapes a quote or a
/// backslash, an unescaped quote closes the payload, and a control
/// character, an unknown escape or a missing close fails.
pub open spec fn spec_parse_str_body(s: Seq<char>) -> Option<(Seq<char>, Seq<char>)>
    decreases s.len(),
{
    if s.len() == 0 {
        None
    } else if s[0] == '"' {
        Some((Seq::empty(), s.skip(1)))
    } else if s[0] == '\\' {
        if s.len() >= 2 && (s[1] == '"' || s[1] == '\\') {
            match spec_parse_str_body(s.skip(2)) {
                Some((t, r)) => Some((seq![s[1]] + t, r)),
                None => None,
            }
        } else {
            None
        }
    } else if 32 <= s[0] as int {
        match spec_parse_str_body(s.skip(1)) {
            Some((t, r)) => Some((seq![s[0]] + t, r)),
            None => None,
        }
    } else {
        None
    }
}

/// Consume a quoted, escaped string payload.
pub open spec fn spec_parse_string(s: Seq<char>) -> Option<(Seq<char>, Seq<char>)> {
    if s.len() > 0 && s[0] == '"' {
        spec_parse_str_body(s.skip(1))
    } else {
        None
    }
}

/// Consume a boolean literal.
pub open spec fn spec_parse_bool(s: Seq<char>) -> Option<(bool, Seq<char>)> {
    match spec_parse_lit(s, "true"@) {
        Some(r) => Some((true, r)),
        None => match spec_parse_lit(s, "false"@) {
            Some(r) => Some((false, r)),
            None => None,
        },
    }
}

/// Consume `null` or a quoted string.
pub open spec fn spec_parse_opt_str(s: Seq<char>) -> Option<(Option<Seq<char>>, Seq<char>)> {
    match spec_parse_lit(s, "null"@) {
        Some(r) => Some((None, r)),
        None => match spec_parse_string(s) {
            Some((t, r)) => Some((Some(t), r)),
            None => None,
        },
    }
}

/// Consume `null` or a fixed-point millisecond count.
pub open spec fn spec_parse_opt_ms(s: Seq<char>) -> Option<(Option<i64>, Seq<char>)> {
    match spec_parse_lit(s, "null"@) {
        Some(r) => Some((None, r)),
        None => match spec_parse_ms(s) {
            Some((v, r)) => Some((Some(v), r)),
            None => None,
        },
    }
}

/// Consume the closing fields of a participant snapshot, from the playback
/// time on, with the already-parsed leading fields given.
pub open spec fn spec_parse_user_tail(
    s: Seq<char>,
    uid: Seq<char>,
    pos: i32,
    file: Option<Seq<char>>,
    name: Option<Seq<char>>,
) -> Option<(UserStateView, Seq<char>)> {
    match spec_parse_lit(s, ",\"playback_time\":"@) {
        None => None,
        Some(s9) => match spec_parse_ms(s9) {
            None => None,
            Some((ms, s10)) => if ms < 0 {
                None
            } else {
                match spec_parse_lit(s10, ",\"is_paused\":"@) {
                    None => None,
                    Some(s11) => match spec_parse_bool(s11) {
                        None => None,
                        Some((paused, s12)) => match spec_parse_lit(s12, ",\"timestamp\":"@) {
                            None => None,
                            Some(s13) => match spec_parse_u64(s13) {
                                None => None,
                                Some((ts, s14)) => match spec_parse_lit(s14, "}"@) {
                                    None => None,
                                    Some(s15) => Some(
                                        (
                                            UserStateView {
                                                user_id: uid,
                                                playlist_position: pos as int,
                                                current_file: file,
                                                current_file_name: name,
                                                playback_time_ms: ms as int,
                                                is_paused: paused,
                                                timestamp: ts as int,
                                            },
                                            s15,
                                        ),
                                    ),
                                },
                            },
                        },
                    },
                }
            },
        },
    }
}

/// Consume a participant snapshot object.
pub open spec fn spec_parse_user(s: Seq<char>) -> Option<(UserStateView, Seq<char>)> {
    match spec_parse_lit(s, "{\"user_id\":"@) {
        None => None,
        Some(s1) => match spec_parse_string(s1) {
            None => None,
            Some((uid, s2)) => match spec_parse_lit(s2, ",\"playlist_position\":"@) {
                None => None,
                Some(s3) => match spec_parse_i32(s3) {
                    None => None,
                    Some((pos, s4)) => match spec_parse_lit(s4, ",\"current_file\":"@) {
                        None => None,
                        Some(s5) => match spec_parse_opt_str(s5) {
                            None => None,
                            Some((file, s6)) => match spec_parse_lit(
                                s6,
                                ",\"current_file_name\":"@,
                            ) {
                                None => None,
                                Some(s7) => match spec_parse_opt_str(s7) {
                                    None => None,
                                    Some((name, s8)) => spec_parse_user_tail(
                                        s8,
                                        uid,
                                        pos,
                                        file,
                                        name,
                                    ),
                                },
                            },
                        },
                    },
                },
            },
        },
    }
}

/// Consume a joined event's fields after its tag.
pub open spec fn spec_parse_joined(s: Seq<char>) -> Option<(SyncEventView, Seq<char>)> {
    match spec_parse_string(s) {
        None => None,
        Some((uid, s1)) => match spec_parse_lit(s1, ",\"user_state\":"@) {
            None => None,
            Some(s2) => match spec_parse_user(s2) {
                None => None,
                Some((u, s3)) => match spec_parse_lit(s3, "}}"@) {
                    None => None,
                    Some(s4) => Some(
                        (SyncEventView::UserJoined { user_id: uid, user_state: u }, s4),
                    ),
                },
            },
        },
    }
}

/// Consume a left event's fields after its tag.
pub open spec fn spec_parse_left(s: Seq<char>) -> Option<(SyncEventView, Seq<char>)> {
    match spec_parse_string(s) {
        None => None,
        Some((uid, s1)) => match spec_parse_lit(s1, "}}"@) {
            None => None,
            Some(s2) => Some((SyncEventView::UserLeft { user_id: uid }, s2)),
        },
    }
}

/// Consume a state-update event's fields after its tag.
pub open spec fn spec_parse_state_update(s: Seq<char>) -> Option<(SyncEventView, Seq<char>)> {
    match spec_parse_user(s) {
        None => None,
        Some((u, s1)) => match spec_parse_lit(s1, "}}"@) {
            None => None,
            Some(s2) => Some((SyncEventView::StateUpdate { user_state: u }, s2)),
        },
    }
}

/// Consume an action event's fields after its tag.
pub open spec fn spec_parse_action(s: Seq<char>) -> Option<(SyncEventView, Seq<char>)> {
    match spec_parse_string(s) {
        None => None,
        Some((uid, s1)) => match spec_parse_lit(s1, ",\"action\":"@) {
            None => None,
            Some(s2) => match spec_parse_string(s2) {
                None => None,
                Some((act, s3)) => match spec_parse_lit(s3, ",\"value\":"@) {
                    None => None,
                    Some(s4) => match spec_parse_opt_ms(s4) {
                        None => None,
                        Some((v, s5)) => match spec_parse_lit(s5, "}}"@) {
                            None => None,
                            Some(s6) => Some(
                                (
                                    SyncEventView::UserAction {
                                        user_id: uid,
                                        action: act,
                                        value: match v {
                                            Some(ms) => Some(ms as int),
                                            None => None,
                                        },
                                    },
                                    s6,
                                ),
                            ),
                        },
                    },
                },
            },
        },
    }
}

/// Consume a heartbeat event's fields after its tag.
pub open spec fn spec_parse_heartbeat(s: Seq<char>) -> Option<(SyncEventView, Seq<char>)> {
    match spec_parse_string(s) {
        None => None,
        Some((uid, s1)) => match spec_parse_lit(s1, ",\"timestamp\":"@) {
            None => None,
            Some(s2) => match spec_parse_u64(s2) {
                None => None,
                Some((ts, s3)) => match spec_parse_lit(s3, "}}"@) {
                    None => None,
                    Some(s4) => Some(
                        (SyncEventView::Heartbeat { user_id: uid, timestamp: ts as int }, s4),
                    ),
                },
            },
        },
    }
}

/// Consume a tag-discriminated event, trying the tags in declaration order.
pub open spec fn spec_parse_event(s: Seq<char>) -> Option<(SyncEventView, Seq<char>)> {
    match spec_parse_lit(s, "{\"UserJoined\":{\"user_id\":"@) {
        Some(s1) => spec_parse_joined(s1),
        None => match spec_parse_lit(s, "{\"UserLeft\":{\"user_id\":"@) {
            Some(s1) => spec_parse_left(s1),
            None => match spec_parse_lit(s, "{\"StateUpdate\":{\"user_state\":"@) {
                Some(s1) => spec_parse_state_update(s1),
                None => match spec_parse_lit(s, "{\"UserAction\":{\"user_id\":"@) {
                    Some(s1) => spec_parse_action(s1),
                    None => match spec_parse_lit(s, "{\"Heartbeat\":{\"user_id\":"@) {
                        Some(s1) => spec_parse_heartbeat(s1),
                        None => None,
                    },
                },
            },
        },
    }
}

/// Consume a whole message.
pub open spec fn spec_parse_message(s: Seq<char>) -> Option<(SyncMessageView, Seq<char>)> {
    match spec_parse_lit(s, "{\"event\":"@) {
        None => None,
        Some(s1) => match spec_parse_event(s1) {
            None => None,
            Some((e, s2)) => match spec_parse_lit(s2, ",\"sequence\":"@) {
                None => None,
                Some(s3) => match spec_parse_u64(s3) {
                    None => None,
                    Some((seqno, s4)) => match spec_parse_lit(s4, "}"@) {
                        None => None,
                        Some(s5) => Some(
                            (SyncMessageView { event: e, sequence: seqno as int }, s5),
                        ),
                    },
                },
            },
        },
    }
}

/// What one full line of wire text means: a message exactly when the whole
/// line parses as one.
pub open spec fn spec_decode_message(s: Seq<char>) -> Option<SyncMessageView> {
    match spec_parse_message(s) {
        Some((m, rest)) => if rest.len() == 0 {
            Some(m)
        } else {
            None
        },
        None => None,
    }
}

// ---------------------------------------------------------------------
// Round trip: parsing a canonical encoding gives back the encoded value.
// ---------------------------------------------------------------------
/// A literal consumes exactly itself.
proof fn lemma_parse_lit_enc(p: Seq<char>, rest: Seq<char>)
    ensures
        spec_parse_lit(p + rest, p) == Some(rest),
{
    assert(p =~= (p + rest).subrange(0, p.len() as int));
    assert((p + rest).skip(p.len() as int) =~= rest);
}

/// The escaped body of a wire-safe payload reads back as that payload.
proof fn lemma_parse_body_enc(t: Seq<char>, rest: Seq<char>)
    requires
        wf_text(t),
    ensures
        spec_parse_str_body(esc_text(t) + (seq!['"'] + rest)) == Some((t, rest)),
    decreases t.len(),
{
    let s = esc_text(t) + (seq!['"'] + rest);
    if t.len() == 0 {
        assert(s =~= seq!['"'] + rest);
        assert(s[0] == '"');
        assert(s.skip(1) =~= rest);
        assert(Seq::<char>::empty() =~= t);
    } else {
        let c = t[0];
        assert(forall|m: int| 0 <= m < t.skip(1).len() ==> 32 <= #[trigger] t.skip(1)[m] as int);
        lemma_parse_body_enc(t.skip(1), rest);
        let inner = esc_text(t.skip(1)) + (seq!['"'] + rest);
        if c == '"' || c == '\\' {
            assert(s =~= seq!['\\', c] + inner);
            assert(s[0] == '\\');
            assert(s[1] == c);
            assert(s.skip(2) =~= inner);
            assert(seq![c] + t.skip(1) =~= t);
        } else {
            assert(s =~= seq![c] + inner);
            assert(s[0] == c);
            assert(32 <= s[0] as int);
            assert(s.skip(1) =~= inner);
            assert(seq![c] + t.skip(1) =~= t);
        }
    }
}

/// A quoted wire-safe payload consumes exactly its encoding.
proof fn lemma_parse_string_enc(t: Seq<char>, rest: Seq<char>)
    requires
        wf_text(t),
    ensures
        spec_parse_string(enc_str(t) + rest) == Some((t, rest)),
{
    let s = enc_str(t) + rest;
    assert(s[0] == '"');
    assert(s.skip(1) =~= esc_text(t) + (seq!['"'] + rest));
    lemma_parse_body_enc(t, rest);
}

/// A boolean literal consumes exactly its encoding.
proof fn lemma_parse_bool_enc(b: bool, rest: Seq<char>)
    ensures
        spec_parse_bool(enc_bool(b) + rest) == Some((b, rest)),
{
    reveal_strlit("true");
    reveal_strlit("false");
    if b {
        lemma_parse_lit_enc("true"@, rest);
    } else {
        let s = enc_bool(false) + rest;
        assert(s[0] == 'f');
        assert(spec_parse_lit(s, "true"@) is None) by {
            if "true"@.is_prefix_of(s) {
                assert(s.subrange(0, 4)[0] == s[0]);
            }
        }
        lemma_parse_lit_enc("false"@, rest);
    }
}

/// An optional quoted payload consumes exactly its encoding.
proof fn lemma_parse_opt_str_enc(t: Option<Seq<char>>, rest: Seq<char>)
    requires
        wf_opt_text(t),
    ensures
        spec_parse_opt_str(enc_opt_str(t) + rest) == Some((t, rest)),
{
    reveal_strlit("null");
    match t {
        None => {
            lemma_parse_lit_enc("null"@, rest);
        },
        Some(x) => {
            let s = enc_str(x) + rest;
            assert(s[0] == '"');
            assert(spec_parse_lit(s, "null"@) is None) by {
                if "null"@.is_prefix_of(s) {
                    assert(s.subrange(0, 4)[0] == s[0]);
                }
            }
            lemma_parse_string_enc(x, rest);
        },
    }
}

/// An optional fixed-point count consumes exactly its encoding, as long as
/// what follows does not begin with a digit.
proof fn lemma_parse_opt_ms_enc(v: Option<int>, rest: Seq<char>)
    requires
        (match v {
            Some(ms) => i64::MIN < ms <= i64::MAX,
            None => true,
        }),
        rest.len() == 0 || !is_digit(rest[0]),
    ensures
        spec_parse_opt_ms(enc_opt_ms(v) + rest) == Some(
            (
                match v {
                    Some(ms) => Some(ms as i64),
                    None => None,
                },
                rest,
            ),
        ),
{
    reveal_strlit("null");
    match v {
        None => {
            lemma_parse_lit_enc("null"@, rest);
        },
        Some(ms) => {
            let m64 = ms as i64;
            crate::num::lemma_u64_dec_digits(((if ms < 0 { -ms } else { ms }) / 1000) as nat);
            let s = spec_ms_dec(ms) + rest;
            assert(spec_ms_dec(m64 as int) == spec_ms_dec(ms));
            assert(s[0] == '-' || is_digit(s[0])) by {
                if ms >= 0 {
                    assert(s[0] == spec_u64_dec((ms / 1000) as nat)[0]);
                }
            }
            assert(spec_parse_lit(s, "null"@) is None) by {
                if "null"@.is_prefix_of(s) {
                    assert(s.subrange(0, 4)[0] == s[0]);
                }
            }
            lemma_parse_ms_dec(m64, rest);
        },
    }
}

/// The closing fields of a participant snapshot consume exactly their
/// encoding.
#[verifier::rlimit(100)]
proof fn lemma_parse_user_tail_enc(u: UserStateView, rest: Seq<char>)
    requires
        wf_user(u),
    ensures
        spec_parse_user_tail(
            ",\"playback_time\":"@ + spec_ms_dec(u.playback_time_ms) + ",\"is_paused\":"@
                + enc_bool(u.is_paused) + ",\"timestamp\":"@ + spec_u64_dec(u.timestamp as nat)
                + "}"@ + rest,
            u.user_id,
            u.playlist_position as i32,
            u.current_file,
            u.current_file_name,
        ) == Some((u, rest)),
{
    reveal_strlit(",\"is_paused\":");
    reveal_strlit("}");
    let t15 = "}"@ + rest;
    let t14 = spec_u64_dec(u.timestamp as nat) + t15;
    let t13 = ",\"timestamp\":"@ + t14;
    let t12 = enc_bool(u.is_paused) + t13;
    let t11 = ",\"is_paused\":"@ + t12;
    let t10 = spec_ms_dec(u.playback_time_ms) + t11;
    let s = ",\"playback_time\":"@ + spec_ms_dec(u.playback_time_ms) + ",\"is_paused\":"@
        + enc_bool(u.is_paused) + ",\"timestamp\":"@ + spec_u64_dec(u.timestamp as nat) + "}"@
        + rest;
    assert(s =~= ",\"playback_time\":"@ + t10);
    lemma_parse_lit_enc(",\"playback_time\":"@, t10);
    assert(t11[0] == ',');
    lemma_parse_ms_dec(u.playback_time_ms as i64, t11);
    assert(spec_ms_dec(u.playback_time_ms as i64 as int) == spec_ms_dec(u.playback_time_ms));
    lemma_parse_lit_enc(",\"is_paused\":"@, t12);
    lemma_parse_bool_enc(u.is_paused, t13);
    lemma_parse_lit_enc(",\"timestamp\":"@, t14);
    assert(t15[0] == '}');
    lemma_parse_u64_dec(u.timestamp as u64, t15);
    assert(spec_u64_dec(u.timestamp as u64 as nat) == spec_u64_dec(u.timestamp as nat));
    lemma_parse_lit_enc("}"@, rest);
}

/// The flat encoding of a participant snapshot, right-nested for parsing.
#[verifier::rlimit(100)]
proof fn lemma_user_enc_shape(u: UserStateView, rest: Seq<char>)
    ensures
        enc_user(u) + rest == "{\"user_id\":"@ + (enc_str(u.user_id) + (
        ",\"playlist_position\":"@ + (spec_i64_dec(u.playlist_position) + (",\"current_file\":"@
            + (enc_opt_str(u.current_file) + (",\"current_file_name\":"@ + (enc_opt_str(
            u.current_file_name,
        ) + (",\"playback_time\":"@ + spec_ms_dec(u.playback_time_ms) + ",\"is_paused\":"@
            + enc_bool(u.is_paused) + ",\"timestamp\":"@ + spec_u64_dec(u.timestamp as nat) + "}"@
            + rest)))))))),
{
    assert(enc_user(u) + rest =~= "{\"user_id\":"@ + (enc_str(u.user_id) + (
    ",\"playlist_position\":"@ + (spec_i64_dec(u.playlist_position) + (",\"current_file\":"@ + (
    enc_opt_str(u.current_file) + (",\"current_file_name\":"@ + (enc_opt_str(u.current_file_name)
        + (",\"playback_time\":"@ + spec_ms_dec(u.playback_time_ms) + ",\"is_paused\":"@
        + enc_bool(u.is_paused) + ",\"timestamp\":"@ + spec_u64_dec(u.timestamp as nat) + "}"@
        + rest)))))))));
}

/// A participant snapshot consumes exactly its encoding.
#[verifier::rlimit(100)]
proof fn lemma_parse_user_enc(u: UserStateView, rest: Seq<char>)
    requires
        wf_user(u),
    ensures
        spec_parse_user(enc_user(u) + rest) == Some((u, rest)),
{
    reveal_strlit(",\"current_file\":");
    let t9 = ",\"playback_time\":"@ + spec_ms_dec(u.playback_time_ms) + ",\"is_paused\":"@
        + enc_bool(u.is_paused) + ",\"timestamp\":"@ + spec_u64_dec(u.timestamp as nat) + "}"@
        + rest;
    let t8 = enc_opt_str(u.current_file_name) + t9;
    let t7 = ",\"current_file_name\":"@ + t8;
    let t6 = enc_opt_str(u.current_file) + t7;
    let t5 = ",\"current_file\":"@ + t6;
    let t4 = spec_i64_dec(u.playlist_position) + t5;
    let t3 = ",\"playlist_position\":"@ + t4;
    let t2 = enc_str(u.user_id) + t3;
    let s = enc_user(u) + rest;
    lemma_user_enc_shape(u, rest);
    assert(s == "{\"user_id\":"@ + t2);
    lemma_parse_lit_enc("{\"user_id\":"@, t2);
    lemma_parse_string_enc(u.user_id, t3);
    lemma_parse_lit_enc(",\"playlist_position\":"@, t4);
    assert(t5[0] == ',');
    lemma_parse_i32_dec(u.playlist_position as i32, t5);
    assert(spec_i64_dec(u.playlist_position as i32 as int) == spec_i64_dec(u.playlist_position));
    lemma_parse_lit_enc(",\"current_file\":"@, t6);
    lemma_parse_opt_str_enc(u.current_file, t7);
    lemma_parse_lit_enc(",\"current_file_name\":"@, t8);
    lemma_parse_opt_str_enc(u.current_file_name, t9);
    lemma_parse_user_tail_enc(u, rest);
}

/// No other variant tag is a prefix of a tagged event encoding.
proof fn lemma_tag_mismatch(s: Seq<char>, tag: Seq<char>, other: Seq<char>, k: int)
    requires
        0 <= k < tag.len(),
        k < other.len(),
        tag.is_prefix_of(s),
        tag[k] != other[k],
    ensures
        spec_parse_lit(s, other) is None,
{
    if other.is_prefix_of(s) {
        assert(s.subrange(0, other.len() as int)[k] == s[k]);
        assert(s.subrange(0, tag.len() as int)[k] == s[k]);
    }
}

/// A joined event consumes exactly its encoding.
#[verifier::rlimit(60)]
proof fn lemma_event_enc_joined(user_id: Seq<char>, user_state: UserStateView, rest: Seq<char>)
    requires
        wf_text(user_id),
        wf_user(user_state),
    ensures
        spec_parse_event(
            enc_event(SyncEventView::UserJoined { user_id, user_state }) + rest,
        ) == Some((SyncEventView::UserJoined { user_id, user_state }, rest)),
{
    reveal_strlit("{\"UserJoined\":{\"user_id\":");
    reveal_strlit(",\"user_state\":");
    reveal_strlit("}}");
    let e = SyncEventView::UserJoined { user_id, user_state };
    let s = enc_event(e) + rest;
    let t4 = "}}"@ + rest;
    let t3 = enc_user(user_state) + t4;
    let t2 = ",\"user_state\":"@ + t3;
    let t1 = enc_str(user_id) + t2;
    assert(s =~= "{\"UserJoined\":{\"user_id\":"@ + t1);
    lemma_parse_lit_enc("{\"UserJoined\":{\"user_id\":"@, t1);
    lemma_parse_string_enc(user_id, t2);
    lemma_parse_lit_enc(",\"user_state\":"@, t3);
    lemma_parse_user_enc(user_state, t4);
    lemma_parse_lit_enc("}}"@, rest);
}

/// A left event consumes exactly its encoding.
#[verifier::rlimit(60)]
proof fn lemma_event_enc_left(user_id: Seq<char>, rest: Seq<char>)
    requires
        wf_text(user_id),
    ensures
        spec_parse_event(enc_event(SyncEventView::UserLeft { user_id }) + rest) == Some(
            (SyncEventView::UserLeft { user_id }, rest),
        ),
{
    reveal_strlit("{\"UserJoined\":{\"user_id\":");
    reveal_strlit("{\"UserLeft\":{\"user_id\":");
    reveal_strlit("}}");
    let e = SyncEventView::UserLeft { user_id };
    let s = enc_event(e) + rest;
    let t2 = "}}"@ + rest;
    let t1 = enc_str(user_id) + t2;
    assert(s =~= "{\"UserLeft\":{\"user_id\":"@ + t1);
    lemma_parse_lit_enc("{\"UserLeft\":{\"user_id\":"@, t1);
    lemma_tag_mismatch(s, "{\"UserLeft\":{\"user_id\":"@, "{\"UserJoined\":{\"user_id\":"@, 6);
    lemma_parse_string_enc(user_id, t2);
    lemma_parse_lit_enc("}}"@, rest);
}

/// A state-update event consumes exactly its encoding.
#[verifier::rlimit(60)]
proof fn lemma_event_enc_state_update(user_state: UserStateView, rest: Seq<char>)
    requires
        wf_user(user_state),
    ensures
        spec_parse_event(enc_event(SyncEventView::StateUpdate { user_state }) + rest) == Some(
            (SyncEventView::StateUpdate { user_state }, rest),
        ),
{
    reveal_strlit("{\"UserJoined\":{\"user_id\":");
    reveal_strlit("{\"UserLeft\":{\"user_id\":");
    reveal_strlit("{\"StateUpdate\":{\"user_state\":");
    reveal_strlit("}}");
    let e = SyncEventView::StateUpdate { user_state };
    let s = enc_event(e) + rest;
    let t2 = "}}"@ + rest;
    let t1 = enc_user(user_state) + t2;
    assert(s =~= "{\"StateUpdate\":{\"user_state\":"@ + t1);
    lemma_parse_lit_enc("{\"StateUpdate\":{\"user_state\":"@, t1);
    lemma_tag_mismatch(s, "{\"StateUpdate\":{\"user_state\":"@, "{\"UserJoined\":{\"user_id\":"@, 2);
    lemma_tag_mismatch(s, "{\"StateUpdate\":{\"user_state\":"@, "{\"UserLeft\":{\"user_id\":"@, 2);
    lemma_parse_user_enc(user_state, t2);
    lemma_parse_lit_enc("}}"@, rest);
}

/// An action event consumes exactly its encoding.
#[verifier::rlimit(60)]
proof fn lemma_event_enc_action(
    user_id: Seq<char>,
    action: Seq<char>,
    value: Option<int>,
    rest: Seq<char>,
)
    requires
        wf_text(user_id),
        wf_text(action),
        (match value {
            Some(v) => i64::MIN < v <= i64::MAX,
            None => true,
        }),
    ensures
        spec_parse_event(
            enc_event(SyncEventView::UserAction { user_id, action, value }) + rest,
        ) == Some((SyncEventView::UserAction { user_id, action, value }, rest)),
{
    reveal_strlit("{\"UserJoined\":{\"user_id\":");
    reveal_strlit("{\"UserLeft\":{\"user_id\":");
    reveal_strlit("{\"StateUpdate\":{\"user_state\":");
    reveal_strlit("{\"UserAction\":{\"user_id\":");
    reveal_strlit(",\"action\":");
    reveal_strlit(",\"value\":");
    reveal_strlit("}}");
    let e = SyncEventView::UserAction { user_id, action, value };
    let s = enc_event(e) + rest;
    let t6 = "}}"@ + rest;
    let t5 = enc_opt_ms(value) + t6;
    let t4 = ",\"value\":"@ + t5;
    let t3 = enc_str(action) + t4;
    let t2 = ",\"action\":"@ + t3;
    let t1 = enc_str(user_id) + t2;
    assert(s =~= "{\"UserAction\":{\"user_id\":"@ + t1);
    lemma_parse_lit_enc("{\"UserAction\":{\"user_id\":"@, t1);
    lemma_tag_mismatch(s, "{\"UserAction\":{\"user_id\":"@, "{\"UserJoined\":{\"user_id\":"@, 6);
    lemma_tag_mismatch(s, "{\"UserAction\":{\"user_id\":"@, "{\"UserLeft\":{\"user_id\":"@, 6);
    lemma_tag_mismatch(s, "{\"UserAction\":{\"user_id\":"@, "{\"StateUpdate\":{\"user_state\":"@, 2);
    lemma_parse_string_enc(user_id, t2);
    lemma_parse_lit_enc(",\"action\":"@, t3);
    lemma_parse_string_enc(action, t4);
    lemma_parse_lit_enc(",\"value\":"@, t5);
    assert(t6[0] == '}');
    lemma_parse_opt_ms_enc(value, t6);
    lemma_parse_lit_enc("}}"@, rest);
    assert(spec_parse_event(s) == Some((e, rest)));
}

/// A heartbeat event consumes exactly its encoding.
#[verifier::rlimit(60)]
proof fn lemma_event_enc_heartbeat(user_id: Seq<char>, timestamp: int, rest: Seq<char>)
    requires
        wf_text(user_id),
        0 <= timestamp <= u64::MAX,
    ensures
        spec_parse_event(
            enc_event(SyncEventView::Heartbeat { user_id, timestamp }) + rest,
        ) == Some((SyncEventView::Heartbeat { user_id, timestamp }, rest)),
{
    reveal_strlit("{\"UserJoined\":{\"user_id\":");
    reveal_strlit("{\"UserLeft\":{\"user_id\":");
    reveal_strlit("{\"StateUpdate\":{\"user_state\":");
    reveal_strlit("{\"UserAction\":{\"user_id\":");
    reveal_strlit("{\"Heartbeat\":{\"user_id\":");
    reveal_strlit(",\"timestamp\":");
    reveal_strlit("}}");
    let e = SyncEventView::Heartbeat { user_id, timestamp };
    let s = enc_event(e) + rest;
    let t4 = "}}"@ + rest;
    let t3 = spec_u64_dec(timestamp as nat) + t4;
    let t2 = ",\"timestamp\":"@ + t3;
    let t1 = enc_str(user_id) + t2;
    assert(s =~= "{\"Heartbeat\":{\"user_id\":"@ + t1);
    lemma_parse_lit_enc("{\"Heartbeat\":{\"user_id\":"@, t1);
    lemma_tag_mismatch(s, "{\"Heartbeat\":{\"user_id\":"@, "{\"UserJoined\":{\"user_id\":"@, 2);
    lemma_tag_mismatch(s, "{\"Heartbeat\":{\"user_id\":"@, "{\"UserLeft\":{\"user_id\":"@, 2);
    lemma_tag_mismatch(s, "{\"Heartbeat\":{\"user_id\":"@, "{\"StateUpdate\":{\"user_state\":"@, 2);
    lemma_tag_mismatch(s, "{\"Heartbeat\":{\"user_id\":"@, "{\"UserAction\":{\"user_id\":"@, 2);
    lemma_parse_string_enc(user_id, t2);
    lemma_parse_lit_enc(",\"timestamp\":"@, t3);
    assert(t4[0] == '}');
    lemma_parse_u64_dec(timestamp as u64, t4);
    assert(spec_u64_dec(timestamp as u64 as nat) == spec_u64_dec(timestamp as nat));
    lemma_parse_lit_enc("}}"@, rest);
}

/// An event consumes exactly its encoding.
proof fn lemma_parse_event_enc(e: SyncEventView, rest: Seq<char>)
    requires
        wf_event(e),
    ensures
        spec_parse_event(enc_event(e) + rest) == Some((e, rest)),
{
    match e {
        SyncEventView::UserJoined { user_id, user_state } => {
            lemma_event_enc_joined(user_id, user_state, rest);
        },
        SyncEventView::UserLeft { user_id } => {
            lemma_event_enc_left(user_id, rest);
        },
        SyncEventView::StateUpdate { user_state } => {
            lemma_event_enc_state_update(user_state, rest);
        },
        SyncEventView::UserAction { user_id, action, value } => {
            lemma_event_enc_action(user_id, action, value, rest);
        },
        SyncEventView::Heartbeat { user_id, timestamp } => {
            lemma_event_enc_heartbeat(user_id, timestamp, rest);
        },
    }
}

/// Decoding the canonical encoding of a wire-safe message gives back that
/// message: the encoder and decoder are inverse on everything the wire can
/// carry.
pub proof fn lemma_wire_round_trip(m: SyncMessageView)
    requires
        wf_message(m),
    ensures
        spec_decode_message(enc_message(m)) == Some(m),
{
    reveal_strlit("{\"event\":");
    reveal_strlit(",\"sequence\":");
    reveal_strlit("}");
    let empty = Seq::<char>::empty();
    let t4 = "}"@ + empty;
    let t3 = spec_u64_dec(m.sequence as nat) + t4;
    let t2 = ",\"sequence\":"@ + t3;
    let t1 = enc_event(m.event) + t2;
    let s = enc_message(m);
    assert(s =~= "{\"event\":"@ + t1);
    lemma_parse_lit_enc("{\"event\":"@, t1);
    lemma_parse_event_enc(m.event, t2);
    lemma_parse_lit_enc(",\"sequence\":"@, t3);
    assert(t4[0] == '}');
    lemma_parse_u64_dec(m.sequence as u64, t4);
    assert(spec_u64_dec(m.sequence as u64 as nat) == spec_u64_dec(m.sequence as nat));
    lemma_parse_lit_enc("}"@, empty);
    assert(spec_parse_message(s) == Some((m, empty)));
}

// ---------------------------------------------------------------------
// Executable parsing. Each parser reads from a character position and is
// specified by the spec parser applied to the characters from there on.
// ---------------------------------------------------------------------
/// Consume an exact literal at position `i`, as `spec_parse_lit` says.
pub(crate) fn match_lit(s: &str, i: usize, lit: &str) -> (r: Option<usize>)
    requires
        i <= s@.len(),
    ensures
        (match r {
            Some(j) => i <= j <= s@.len() && spec_parse_lit(s@.skip(i as int), lit@) == Some(
                s@.skip(j as int),
            ),
            None => spec_parse_lit(s@.skip(i as int), lit@) is None,
        }),
{
    let n = s.unicode_len();
    let pl = lit.unicode_len();
    if n - i < pl {
        proof {
            assert(s@.skip(i as int).len() < lit@.len());
        }
        return None;
    }
    for k in 0..pl
        invariant
            n == s@.len(),
            pl == lit@.len(),
            i + pl <= n,
            forall|m: int| 0 <= m < k ==> s@[i + m] == #[trigger] lit@[m],
    {
        let a = s.get_char(i + k);
        let b = lit.get_char(k);
        if a != b {
            proof {
                if lit@.is_prefix_of(s@.skip(i as int)) {
                    assert(s@.skip(i as int).subrange(0, pl as int)[k as int] == lit@[k as int]);
                    assert(s@.skip(i as int)[k as int] == s@[i + k]);
                }
            }
            return None;
        }
    }
    proof {
        assert(s@.skip(i as int).subrange(0, pl as int) =~= lit@);
        assert(s@.skip(i as int).skip(pl as int) =~= s@.skip(i as int + pl as int));
    }
    Some(i + pl)
}

/// Consume a quoted, escaped string at position `i`, as
/// `spec_parse_string` says: plain characters stand for themselves and a
/// backslash escapes a quote or a backslash.
pub(crate) fn parse_string_at(s: &str, i: usize) -> (r: Option<(String, usize)>)
    requires
        i <= s@.len(),
    ensures
        (match r {
            Some((t, j)) => i <= j <= s@.len() && spec_parse_string(s@.skip(i as int)) == Some(
                (t@, s@.skip(j as int)),
            ),
            None => spec_parse_string(s@.skip(i as int)) is None,
        }),
{
    let n = s.unicode_len();
    if i >= n {
        return None;
    }
    proof {
        assert(s@.skip(i as int)[0] == s@[i as int]);
    }
    if s.get_char(i) != '"' {
        return None;
    }
    let ghost body = s@.skip(i as int + 1);
    proof {
        assert(s@.skip(i as int).skip(1) =~= body);
    }
    let mut out = String::new();
    let mut s0: usize = i + 1;
    let mut p: usize = i + 1;
    proof {
        assert(s@.skip(p as int) =~= body);
        assert(s@.subrange(s0 as int, p as int).len() == 0);
        assert(forall|t2: Seq<char>|
            out@ + s@.subrange(s0 as int, p as int) + t2 =~= #[trigger] (Seq::<
                char,
            >::empty() + t2));
    }
    loop
        invariant_except_break
            i + 1 <= s0 <= p <= n,
            n == s@.len(),
            i < n,
            s@[i as int] == '"',
            body == s@.skip(i as int + 1),
            forall|m: int|
                s0 <= m < p ==> #[trigger] s@[m] != '"' && s@[m] != '\\' && 32 <= s@[m] as int,
            (match spec_parse_str_body(s@.skip(p as int)) {
                Some((t, r)) => spec_parse_str_body(body) == Some(
                    (out@ + s@.subrange(s0 as int, p as int) + t, r),
                ),
                None => spec_parse_str_body(body) is None,
            }),
        ensures
            i + 1 <= s0 <= p < n,
            n == s@.len(),
            i < n,
            s@[i as int] == '"',
            body == s@.skip(i as int + 1),
            s@[p as int] == '"',
            spec_parse_str_body(body) == Some(
                (out@ + s@.subrange(s0 as int, p as int), s@.skip(p as int + 1)),
            ),
        decreases n - p,
    {
        if p >= n {
            proof {
                assert(s@.skip(p as int).len() == 0);
                assert(s@.skip(i as int)[0] == s@[i as int]);
                assert(s@.skip(i as int).skip(1) =~= body);
            }
            return None;
        }
        proof {
            assert(s@.skip(p as int)[0] == s@[p as int]);
            assert(s@.skip(p as int).skip(1) =~= s@.skip(p as int + 1));
            if p + 1 < n {
                assert(s@.skip(p as int)[1] == s@[p as int + 1]);
                assert(s@.skip(p as int).skip(2) =~= s@.skip(p as int + 2));
            }
        }
        let c = s.get_char(p);
        if c == '"' {
            proof {
                assert(out@ + s@.subrange(s0 as int, p as int) + Seq::<char>::empty() =~= out@
                    + s@.subrange(s0 as int, p as int));
            }
            break ;
        }
        if c == '\\' {
            if p + 1 >= n {
                proof {
                    assert(s@.skip(p as int).len() < 2);
                    assert(s@.skip(i as int)[0] == s@[i as int]);
                    assert(s@.skip(i as int).skip(1) =~= body);
                }
                return None;
            }
            let c2 = s.get_char(p + 1);
            if !(c2 == '"' || c2 == '\\') {
                proof {
                    assert(s@.skip(i as int)[0] == s@[i as int]);
                    assert(s@.skip(i as int).skip(1) =~= body);
                }
                return None;
            }
            let span = s.substring_char(s0, p);
            let ghost pre = out@;
            out.append(span);
            if c2 == '"' {
                out.append("\"");
            } else {
                out.append("\\");
            }
            proof {
                reveal_strlit("\"");
                reveal_strlit("\\");
                assert("\""@ =~= seq!['"']);
                assert("\\"@ =~= seq!['\\']);
                assert(span@ =~= s@.subrange(s0 as int, p as int));
                assert(out@ =~= pre + s@.subrange(s0 as int, p as int) + seq![s@[p as int + 1]]);
                let b2 = spec_parse_str_body(s@.skip(p as int + 2));
                if b2 is Some {
                    let (t2, r2) = b2->0;
                    assert(spec_parse_str_body(s@.skip(p as int)) == Some(
                        (seq![s@[p as int + 1]] + t2, r2),
                    ));
                    assert(pre + s@.subrange(s0 as int, p as int) + (seq![s@[p as int + 1]] + t2)
                        =~= out@ + s@.subrange(p as int + 2, p as int + 2) + t2);
                }
            }
            s0 = p + 2;
            p = p + 2;
        } else {
            if (c as u32) < 32 {
                proof {
                    assert(s@.skip(i as int)[0] == s@[i as int]);
                    assert(s@.skip(i as int).skip(1) =~= body);
                }
                return None;
            }
            proof {
                let b2 = spec_parse_str_body(s@.skip(p as int + 1));
                if b2 is Some {
                    let (t2, r2) = b2->0;
                    assert(spec_parse_str_body(s@.skip(p as int)) == Some(
                        (seq![s@[p as int]] + t2, r2),
                    ));
                    assert(out@ + s@.subrange(s0 as int, p as int) + (seq![s@[p as int]] + t2)
                        =~= out@ + s@.subrange(s0 as int, p as int + 1) + t2);
                }
            }
            p = p + 1;
        }
    }
    let span = s.substring_char(s0, p);
    out.append(span);
    proof {
        assert(span@ =~= s@.subrange(s0 as int, p as int));
        assert(s@.skip(i as int)[0] == s@[i as int]);
    }
    Some((out, p + 1))
}

/// Consume a boolean literal at position `i`, as `spec_parse_bool` says.
pub(crate) fn parse_bool_at(s: &str, i: usize) -> (r: Option<(bool, usize)>)
    requires
        i <= s@.len(),
    ensures
        (match r {
            Some((b, j)) => i <= j <= s@.len() && spec_parse_bool(s@.skip(i as int)) == Some(
                (b, s@.skip(j as int)),
            ),
            None => spec_parse_bool(s@.skip(i as int)) is None,
        }),
{
    match match_lit(s, i, "true") {
        Some(j) => Some((true, j)),
        None => match match_lit(s, i, "false") {
            Some(j) => Some((false, j)),
            None => None,
        },
    }
}

/// Consume `null` or a quoted string at position `i`, as
/// `spec_parse_opt_str` says.
fn parse_opt_str_at(s: &str, i: usize) -> (r: Option<(Option<String>, usize)>)
    requires
        i <= s@.len(),
    ensures
        (match r {
            Some((t, j)) => i <= j <= s@.len() && spec_parse_opt_str(s@.skip(i as int)) == Some(
                (
                    match t {
                        Some(x) => Some(x@),
                        None => None,
                    },
                    s@.skip(j as int),
                ),
            ),
            None => spec_parse_opt_str(s@.skip(i as int)) is None,
        }),
{
    match match_lit(s, i, "null") {
        Some(j) => Some((None, j)),
        None => match parse_string_at(s, i) {
            Some((t, j)) => Some((Some(t), j)),
            None => None,
        },
    }
}

/// Consume `null` or a fixed-point millisecond count at position `i`, as
/// `spec_parse_opt_ms` says.
fn parse_opt_ms_at(s: &str, i: usize) -> (r: Option<(Option<i64>, usize)>)
    requires
        i <= s@.len(),
    ensures
        (match r {
            Some((v, j)) => i <= j <= s@.len() && spec_parse_opt_ms(s@.skip(i as int)) == Some(
                (v, s@.skip(j as int)),
            ),
            None => spec_parse_opt_ms(s@.skip(i as int)) is None,
        }),
{
    match match_lit(s, i, "null") {
        Some(j) => Some((None, j)),
        None => match parse_ms_at(s, i) {
            Some((v, j)) => Some((Some(v), j)),
            None => None,
        },
    }
}

/// Consume a participant snapshot at position `i`, as `spec_parse_user`
/// says.
fn parse_user_at(s: &str, i: usize) -> (r: Option<(UserState, usize)>)
    requires
        i <= s@.len(),
    ensures
        (match r {
            Some((u, j)) => i <= j <= s@.len() && spec_parse_user(s@.skip(i as int)) == Some(
                (u@, s@.skip(j as int)),
            ),
            None => spec_parse_user(s@.skip(i as int)) is None,
        }),
{
    let s1 = match match_lit(s, i, "{\"user_id\":") {
        Some(j) => j,
        None => {
            return None;
        },
    };
    let (uid, s2) = match parse_string_at(s, s1) {
        Some(p) => p,
        None => {
            return None;
        },
    };
    let s3 = match match_lit(s, s2, ",\"playlist_position\":") {
        Some(j) => j,
        None => {
            return None;
        },
    };
    let (pos, s4) = match parse_i32_at(s, s3) {
        Some(p) => p,
        None => {
            return None;
        },
    };
    let s5 = match match_lit(s, s4, ",\"current_file\":") {
        Some(j) => j,
        None => {
            return None;
        },
    };
    let (file, s6) = match parse_opt_str_at(s, s5) {
        Some(p) => p,
        None => {
            return None;
        },
    };
    let s7 = match match_lit(s, s6, ",\"current_file_name\":") {
        Some(j) => j,
        None => {
            return None;
        },
    };
    let (name, s8) = match parse_opt_str_at(s, s7) {
        Some(p) => p,
        None => {
            return None;
        },
    };
    let s9 = match match_lit(s, s8, ",\"playback_time\":") {
        Some(j) => j,
        None => {
            return None;
        },
    };
    let (ms, s10) = match parse_ms_at(s, s9) {
        Some(p) => p,
        None => {
            return None;
        },
    };
    if ms < 0 {
        return None;
    }
    let s11 = match match_lit(s, s10, ",\"is_paused\":") {
        Some(j) => j,
        None => {
            return None;
        },
    };
    let (paused, s12) = match parse_bool_at(s, s11) {
        Some(p) => p,
        None => {
            return None;
        },
    };
    let s13 = match match_lit(s, s12, ",\"timestamp\":") {
        Some(j) => j,
        None => {
            return None;
        },
    };
    let (ts, s14) = match parse_u64_at(s, s13) {
        Some(p) => p,
        None => {
            return None;
        },
    };
    let s15 = match match_lit(s, s14, "}") {
        Some(j) => j,
        None => {
            return None;
        },
    };
    let u = UserState {
        user_id: uid,
        playlist_position: pos,
        current_file: file,
        current_file_name: name,
        playback_time_ms: ms as u64,
        is_paused: paused,
        timestamp: ts,
    };
    Some((u, s15))
}

/// Consume a tag-discriminated event at position `i`, trying the tags in
/// declaration order, as `spec_parse_event` says.
fn parse_event_at(s: &str, i: usize) -> (r: Option<(SyncEvent, usize)>)
    requires
        i <= s@.len(),
    ensures
        (match r {
            Some((e, j)) => i <= j <= s@.len() && spec_parse_event(s@.skip(i as int)) == Some(
                (e@, s@.skip(j as int)),
            ),
            None => spec_parse_event(s@.skip(i as int)) is None,
        }),
{
    if let Some(s1) = match_lit(s, i, "{\"UserJoined\":{\"user_id\":") {
        let (uid, s2) = match parse_string_at(s, s1) {
            Some(p) => p,
            None => {
                return None;
            },
        };
        let s3 = match match_lit(s, s2, ",\"user_state\":") {
            Some(j) => j,
            None => {
                return None;
            },
        };
        let (u, s4) = match parse_user_at(s, s3) {
            Some(p) => p,
            None => {
                return None;
            },
        };
        let s5 = match match_lit(s, s4, "}}") {
            Some(j) => j,
            None => {
                return None;
            },
        };
        return Some((SyncEvent::UserJoined { user_id: uid, user_state: u }, s5));
    }
    if let Some(s1) = match_lit(s, i, "{\"UserLeft\":{\"user_id\":") {
        let (uid, s2) = match parse_string_at(s, s1) {
            Some(p) => p,
            None => {
                return None;
            },
        };
        let s3 = match match_lit(s, s2, "}}") {
            Some(j) => j,
            None => {
                return None;
            },
        };
        return Some((SyncEvent::UserLeft { user_id: uid }, s3));
    }
    if let Some(s1) = match_lit(s, i, "{\"StateUpdate\":{\"user_state\":") {
        let (u, s2) = match parse_user_at(s, s1) {
            Some(p) => p,
            None => {
                return None;
            },
        };
        let s3 = match match_lit(s, s2, "}}") {
            Some(j) => j,
            None => {
                return None;
            },
        };
        return Some((SyncEvent::StateUpdate { user_state: u }, s3));
    }
    if let Some(s1) = match_lit(s, i, "{\"UserAction\":{\"user_id\":") {
        let (uid, s2) = match parse_string_at(s, s1) {
            Some(p) => p,
            None => {
                return None;
            },
        };
        let s3 = match match_lit(s, s2, ",\"action\":") {
            Some(j) => j,
            None => {
                return None;
            },
        };
        let (act, s4) = match parse_string_at(s, s3) {
            Some(p) => p,
            None => {
                return None;
            },
        };
        let s5 = match match_lit(s, s4, ",\"value\":") {
            Some(j) => j,
            None => {
                return None;
            },
        };
        let (v, s6) = match parse_opt_ms_at(s, s5) {
            Some(p) => p,
            None => {
                return None;
            },
        };
        let s7 = match match_lit(s, s6, "}}") {
            Some(j) => j,
            None => {
                return None;
            },
        };
        return Some((SyncEvent::UserAction { user_id: uid, action: act, value: v }, s7));
    }
    if let Some(s1) = match_lit(s, i, "{\"Heartbeat\":{\"user_id\":") {
        let (uid, s2) = match parse_string_at(s, s1) {
            Some(p) => p,
            None => {
                return None;
            },
        };
        let s3 = match match_lit(s, s2, ",\"timestamp\":") {
            Some(j) => j,
            None => {
                return None;
            },
        };
        let (ts, s4) = match parse_u64_at(s, s3) {
            Some(p) => p,
            None => {
                return None;
            },
        };
        let s5 = match match_lit(s, s4, "}}") {
            Some(j) => j,
            None => {
                return None;
            },
        };
        return Some((SyncEvent::Heartbeat { user_id: uid, timestamp: ts }, s5));
    }
    None
}

/// Decode one line of wire text, exactly when the whole line is the
/// canonical encoding of a message, as `spec_decode_message` says.
pub fn decode_message(s: &str) -> (r: Option<SyncMessage>)
    ensures
        (match r {
            Some(m) => spec_decode_message(s@) == Some(m@),
            None => spec_decode_message(s@) is None,
        }),
{
    proof {
        assert(s@.skip(0) =~= s@);
    }
    let s1 = match match_lit(s, 0, "{\"event\":") {
        Some(j) => j,
        None => {
            return None;
        },
    };
    let (e, s2) = match parse_event_at(s, s1) {
        Some(p) => p,
        None => {
            return None;
        },
    };
    let s3 = match match_lit(s, s2, ",\"sequence\":") {
        Some(j) => j,
        None => {
            return None;
        },
    };
    let (seqno, s4) = match parse_u64_at(s, s3) {
        Some(p) => p,
        None => {
            return None;
        },
    };
    let s5 = match match_lit(s, s4, "}") {
        Some(j) => j,
        None => {
            return None;
        },
    };
    let n = s.unicode_len();
    if s5 != n {
        return None;
    }
    Some(SyncMessage { event: e, sequence: seqno })
}

} // verus!