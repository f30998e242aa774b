//! The control protocol spoken with the local playback process: requests are
//! JSON objects `{"command": [...], "request_id": n}` on one line, responses
//! are JSON objects with `error`, `data` and `request_id` fields in any
//! order.
//!
//! The response parser accepts the scalar payloads the protocol uses — null,
//! booleans, integers, fixed-point numbers and strings — and is specified as
//! a function of the line. Request correlation is a small state machine: a
//! pending command accepts exactly the response whose request id matches the
//! one it was sent with, skipping blank lines, malformed lines and responses
//! to other requests, for a bounded number of attempts.

use vstd::prelude::*;
use crate::num::{
    is_digit, digits_len, digits_val, spec_parse_u64, parse_u64_at, is_digit_char,
};
use crate::wire::{spec_parse_lit, spec_parse_string, spec_parse_bool, wf_text};

verus! {

/// A scalar payload of the control protocol: the kinds of JSON value the
/// protocol carries, with times as whole milliseconds.
#[derive(Debug, Clone, PartialEq)]
pub enum IpcValue {
    /// JSON `null`.
    Null,
    /// A boolean.
    Bool(bool),
    /// A number written without a fraction.
    Int(i64),
    /// A number written with a fraction, in milliseconds, truncated beyond
    /// three fractional digits.
    Time(i64),
    /// A string.
    Text(String),
}

/// Mathematical value of an `IpcValue`.
pub enum IpcValueView {
    Null,
    Bool(bool),
    Int(int),
    Time(int),
    Text(Seq<char>),
}

impl View for IpcValue {
    type V = IpcValueView;

    open spec fn view(&self) -> IpcValueView {
        match self {
            IpcValue::Null => IpcValueView::Null,
            IpcValue::Bool(b) => IpcValueView::Bool(*b),
            IpcValue::Int(v) => IpcValueView::Int(*v as int),
            IpcValue::Time(v) => IpcValueView::Time(*v as int),
            IpcValue::Text(t) => IpcValueView::Text(t@),
        }
    }
}

/// One response line of the control protocol. A missing `error` field reads
/// as the empty string, the other fields stay absent.
#[derive(Debug, Clone, PartialEq)]
pub struct IpcResponse {
    pub error: String,
    pub data: Option<IpcValue>,
    pub request_id: Option<u32>,
}

/// Mathematical value of an `IpcResponse`.
pub struct IpcResponseView {
    pub error: Seq<char>,
    pub data: Option<IpcValueView>,
    pub request_id: Option<int>,
}

impl View for IpcResponse {
    type V = IpcResponseView;

    open spec fn view(&self) -> IpcResponseView {
        IpcResponseView {
            error: self.error@,
            data: match self.data {
                Some(ref v) => Some(v@),
                None => None,
            },
            request_id: match self.request_id {
                Some(id) => Some(id as int),
                None => None,
            },
        }
    }
}

/// The milliseconds named by up to the first three fractional digits,
/// padded to three.
pub open spec fn frac_ms(d: Seq<char>, k: int) -> int {
    if k >= 3 {
        digits_val(d, 3)
    } else if k == 2 {
        digits_val(d, 2) * 10
    } else {
        digits_val(d, 1) * 100
    }
}

/// Consume a number: optional minus sign, canonical digits, and optionally a
/// point with at least one digit. With a fraction the value reads as
/// milliseconds truncated beyond the third digit; without one it is the
/// integer itself. Values beyond the signed range fail.
pub open spec fn spec_parse_number(s: Seq<char>) -> Option<(IpcValueView, Seq<char>)> {
    let neg = s.len() > 0 && s[0] == '-';
    let t = if neg {
        s.skip(1)
    } else {
        s
    };
    match spec_parse_u64(t) {
        None => None,
        Some((q, r)) => if r.len() >= 2 && r[0] == '.' && is_digit(r[1]) {
            let k = digits_len(r.skip(1));
            let v = q * 1000 + frac_ms(r.skip(1), k);
            if v > i64::MAX {
                None
            } else {
                Some(
                    (
                        IpcValueView::Time(
                            if neg {
                                -v
                            } else {
                                v
                            },
                        ),
                        r.skip(1 + k),
                    ),
                )
            }
        } else {
            if q > i64::MAX {
                None
            } else {
                Some(
                    (
                        IpcValueView::Int(
                            if neg {
                                -(q as int)
                            } else {
                                q as int
                            },
                        ),
                        r,
                    ),
                )
            }
        },
    }
}

/// Consume one scalar payload.
pub open spec fn spec_parse_value(s: Seq<char>) -> Option<(IpcValueView, Seq<char>)> {
    match spec_parse_lit(s, "null"@) {
        Some(r) => Some((IpcValueView::Null, r)),
        None => match spec_parse_bool(s) {
            Some((b, r)) => Some((IpcValueView::Bool(b), r)),
            None => if s.len() > 0 && s[0] == '"' {
                match spec_parse_string(s) {
                    Some((t, r)) => Some((IpcValueView::Text(t), r)),
                    None => None,
                }
            } else {
                spec_parse_number(s)
            },
        },
    }
}

/// How many of the three response fields are still unfilled; parsing one
/// field fills one, which bounds the field list.
pub open spec fn unfilled(
    er: Option<Seq<char>>,
    da: Option<IpcValueView>,
    rid: Option<int>,
) -> int {
    (if er is None {
        1int
    } else {
        0int
    }) + (if da is None {
        1int
    } else {
        0int
    }) + (if rid is None {
        1int
    } else {
        0int
    })
}

/// Consume one `"key":value` field — each key at most once — then the rest
/// of the field list.
pub open spec fn spec_parse_fields(
    s: Seq<char>,
    er: Option<Seq<char>>,
    da: Option<IpcValueView>,
    rid: Option<int>,
) -> Option<((Option<Seq<char>>, Option<IpcValueView>, Option<int>), Seq<char>)>
    decreases unfilled(er, da, rid), 0int,
{
    if unfilled(er, da, rid) <= 0 {
        None
    } else {
        match spec_parse_lit(s, "\"error\":"@) {
            Some(s1) => match spec_parse_string(s1) {
                Some((t, s2)) => if er is Some {
                    None
                } else {
                    spec_parse_fields_tail(s2, Some(t), da, rid)
                },
                None => None,
            },
            None => match spec_parse_lit(s, "\"data\":"@) {
                Some(s1) => match spec_parse_value(s1) {
                    Some((v, s2)) => if da is Some {
                        None
                    } else {
                        spec_parse_fields_tail(s2, er, Some(v), rid)
                    },
                    None => None,
                },
                None => match spec_parse_lit(s, "\"request_id\":"@) {
                    Some(s1) => match spec_parse_u64(s1) {
                        Some((v, s2)) => if rid is Some || v > u32::MAX {
                            None
                        } else {
                            spec_parse_fields_tail(s2, er, da, Some(v as int))
                        },
                        None => None,
                    },
                    None => None,
                },
            },
        }
    }
}

/// After a field: a comma continues the list, a closing brace ends it.
pub open spec fn spec_parse_fields_tail(
    s: Seq<char>,
    er: Option<Seq<char>>,
    da: Option<IpcValueView>,
    rid: Option<int>,
) -> Option<((Option<Seq<char>>, Option<IpcValueView>, Option<int>), Seq<char>)>
    decreases unfilled(er, da, rid), 1int,
{
    if s.len() > 0 && s[0] == ',' {
        spec_parse_fields(s.skip(1), er, da, rid)
    } else if s.len() > 0 && s[0] == '}' {
        Some(((er, da, rid), s.skip(1)))
    } else {
        None
    }
}

/// What one full response line means: the whole line must be one object with
/// the known fields, each at most once; a missing `error` reads as empty.
pub open spec fn spec_parse_response(s: Seq<char>) -> Option<IpcResponseView> {
    if s.len() == 0 || s[0] != '{' {
        None
    } else if s.len() >= 2 && s[1] == '}' {
        if s.len() == 2 {
            Some(IpcResponseView { error: Seq::empty(), data: None, request_id: None })
        } else {
            None
        }
    } else {
        match spec_parse_fields(s.skip(1), None, None, None) {
            Some(((er, da, rid), rest)) => if rest.len() == 0 {
                Some(
                    IpcResponseView {
                        error: match er {
                            Some(t) => t,
                            None => Seq::empty(),
                        },
                        data: da,
                        request_id: rid,
                    },
                )
            } else {
                None
            },
            None => None,
        }
    }
}

/// Mathematical value of an optional string field.
pub open spec fn view_opt_text(o: Option<String>) -> Option<Seq<char>> {
    match o {
        Some(t) => Some(t@),
        None => None,
    }
}

/// Mathematical value of an optional payload field.
pub open spec fn view_opt_value(o: Option<IpcValue>) -> Option<IpcValueView> {
    match o {
        Some(v) => Some(v@),
        None => None,
    }
}

/// Mathematical value of an optional request-id field.
pub open spec fn view_opt_id(o: Option<u32>) -> Option<int> {
    match o {
        Some(v) => Some(v as int),
        None => None,
    }
}

/// Consume a number at position `i`, as `spec_parse_number` says.
fn parse_number_at(s: &str, i: usize) -> (r: Option<(IpcValue, usize)>)
    requires
        i <= s@.len(),
    ensures
        (match r {
            Some((v, j)) => i <= j <= s@.len() && spec_parse_number(s@.skip(i as int)) == Some(
                (v@, s@.skip(j as int)),
            ),
            None => spec_parse_number(s@.skip(i as int)) is None,
        }),
{
    let n = s.unicode_len();
    let neg = i < n && s.get_char(i) == '-';
    let start = if neg {
        i + 1
    } else {
        i
    };
    proof {
        if i < n {
            assert(s@.skip(i as int)[0] == s@[i as int]);
        }
        if neg {
            assert(s@.skip(i as int).skip(1) =~= s@.skip(i as int + 1));
        }
    }
    let (q, j1) = match parse_u64_at(s, start) {
        Some(p) => p,
        None => {
            return None;
        },
    };
    let ghost rr = s@.skip(j1 as int);
    let has_frac = j1 < n && s.get_char(j1) == '.' && j1 + 1 < n && is_digit_char(
        s.get_char(j1 + 1),
    );
    proof {
        if j1 < n {
            assert(rr[0] == s@[j1 as int]);
        }
        if j1 + 1 < n {
            assert(rr[1] == s@[j1 as int + 1]);
        }
    }
    if has_frac {
        let ghost d = rr.skip(1);
        let mut e: usize = j1 + 1;
        loop
            invariant_except_break
                j1 + 1 <= e <= n,
                n == s@.len(),
                rr == s@.skip(j1 as int),
                d == rr.skip(1),
                forall|m: int| 0 <= m < e - j1 - 1 ==> is_digit(#[trigger] d[m]),
            ensures
                j1 + 1 <= e <= n,
                n == s@.len(),
                forall|m: int| 0 <= m < e - j1 - 1 ==> is_digit(#[trigger] d[m]),
                e == n || !is_digit(d[e - j1 - 1]),
            decreases n - e,
        {
            if e >= n {
                break ;
            }
            proof {
                assert(d[e - j1 - 1] == s@[e as int]);
            }
            if !is_digit_char(s.get_char(e)) {
                break ;
            }
            e = e + 1;
        }
        let k = e - (j1 + 1);
        proof {
            crate::num::lemma_digits_len_is(d, k as int);
        }
        let c1 = s.get_char(j1 + 1);
        proof {
            assert(d[0] == s@[j1 as int + 1]);
            assert(crate::num::digits_val(d, 0) == 0);
            assert(crate::num::digits_val(d, 1) == crate::num::digit_val(d[0]));
        }
        let mut frac: u64 = ((c1 as u32 as u64) - 48) * 100;
        if k >= 2 {
            let c2 = s.get_char(j1 + 2);
            proof {
                assert(d[1] == s@[j1 as int + 2]);
                assert(crate::num::digits_val(d, 2) == crate::num::digits_val(d, 1) * 10
                    + crate::num::digit_val(d[1]));
            }
            if k >= 3 {
                let c3 = s.get_char(j1 + 3);
                proof {
                    assert(d[2] == s@[j1 as int + 3]);
                    assert(crate::num::digits_val(d, 3) == crate::num::digits_val(d, 2) * 10
                        + crate::num::digit_val(d[2]));
                }
                frac = ((c1 as u32 as u64) - 48) * 100 + ((c2 as u32 as u64) - 48) * 10 + ((
                c3 as u32 as u64) - 48);
            } else {
                frac = ((c1 as u32 as u64) - 48) * 100 + ((c2 as u32 as u64) - 48) * 10;
            }
        }
        proof {
            assert(frac == frac_ms(d, k as int));
        }
        if q > (i64::MAX as u64 - frac) / 1000 {
            return None;
        }
        let v: i64 = (q * 1000 + frac) as i64;
        let w: i64 = if neg {
            -v
        } else {
            v
        };
        proof {
            assert(s@.skip(e as int) =~= rr.skip(1 + k));
        }
        Some((IpcValue::Time(w), e))
    } else {
        if q > i64::MAX as u64 {
            return None;
        }
        let v: i64 = if neg {
            -(q as i64)
        } else {
            q as i64
        };
        Some((IpcValue::Int(v), j1))
    }
}

/// Consume one scalar payload at position `i`, as `spec_parse_value` says.
fn parse_value_at(s: &str, i: usize) -> (r: Option<(IpcValue, usize)>)
    requires
        i <= s@.len(),
    ensures
        (match r {
            Some((v, j)) => i <= j <= s@.len() && spec_parse_value(s@.skip(i as int)) == Some(
                (v@, s@.skip(j as int)),
            ),
            None => spec_parse_value(s@.skip(i as int)) is None,
        }),
{
    if let Some(j) = crate::wire::match_lit(s, i, "null") {
        return Some((IpcValue::Null, j));
    }
    if let Some((b, j)) = crate::wire::parse_bool_at(s, i) {
        return Some((IpcValue::Bool(b), j));
    }
    let n = s.unicode_len();
    proof {
        if i < n {
            assert(s@.skip(i as int)[0] == s@[i as int]);
        }
    }
    if i < n && s.get_char(i) == '"' {
        match crate::wire::parse_string_at(s, i) {
            Some((t, j)) => Some((IpcValue::Text(t), j)),
            None => None,
        }
    } else {
        parse_number_at(s, i)
    }
}

/// Consume one field and the rest of the field list at position `i`, as
/// `spec_parse_fields` says.
fn parse_fields_at(
    s: &str,
    i: usize,
    er: Option<String>,
    da: Option<IpcValue>,
    rid: Option<u32>,
) -> (r: Option<((Option<String>, Option<IpcValue>, Option<u32>), usize)>)
    requires
        i <= s@.len(),
    ensures
        (match r {
            Some(((er2, da2, rid2), j)) => i <= j <= s@.len() && spec_parse_fields(
                s@.skip(i as int),
                view_opt_text(er),
                view_opt_value(da),
                view_opt_id(rid),
            ) == Some(((view_opt_text(er2), view_opt_value(da2), view_opt_id(rid2)), s@.skip(j as int))),
            None => spec_parse_fields(
                s@.skip(i as int),
                view_opt_text(er),
                view_opt_value(da),
                view_opt_id(rid),
            ) is None,
        }),
    decreases unfilled(view_opt_text(er), view_opt_value(da), view_opt_id(rid)), 0int,
{
    if er.is_some() && da.is_some() && rid.is_some() {
        return None;
    }
    if let Some(s1) = crate::wire::match_lit(s, i, "\"error\":") {
        let (t, s2) = match crate::wire::parse_string_at(s, s1) {
            Some(p) => p,
            None => {
                return None;
            },
        };
        if er.is_some() {
            return None;
        }
        return parse_fields_tail_at(s, s2, Some(t), da, rid);
    }
    if let Some(s1) = crate::wire::match_lit(s, i, "\"data\":") {
        let (v, s2) = match parse_value_at(s, s1) {
            Some(p) => p,
            None => {
                return None;
            },
        };
        if da.is_some() {
            return None;
        }
        return parse_fields_tail_at(s, s2, er, Some(v), rid);
    }
    if let Some(s1) = crate::wire::match_lit(s, i, "\"request_id\":") {
        let (v, s2) = match parse_u64_at(s, s1) {
            Some(p) => p,
            None => {
                return None;
            },
        };
        if rid.is_some() || v > u32::MAX as u64 {
            return None;
        }
        return parse_fields_tail_at(s, s2, er, da, Some(v as u32));
    }
    None
}

/// Consume a comma and further fields, or the closing brace, at position
/// `i`, as `spec_parse_fields_tail` says.
fn parse_fields_tail_at(
    s: &str,
    i: usize,
    er: Option<String>,
    da: Option<IpcValue>,
    rid: Option<u32>,
) -> (r: Option<((Option<String>, Option<IpcValue>, Option<u32>), usize)>)
    requires
        i <= s@.len(),
    ensures
        (match r {
            Some(((er2, da2, rid2), j)) => i <= j <= s@.len() && spec_parse_fields_tail(
                s@.skip(i as int),
                view_opt_text(er),
                view_opt_value(da),
                view_opt_id(rid),
            ) == Some(((view_opt_text(er2), view_opt_value(da2), view_opt_id(rid2)), s@.skip(j as int))),
            None => spec_parse_fields_tail(
                s@.skip(i as int),
                view_opt_text(er),
                view_opt_value(da),
                view_opt_id(rid),
            ) is None,
        }),
    decreases unfilled(view_opt_text(er), view_opt_value(da), view_opt_id(rid)), 1int,
{
    let n = s.unicode_len();
    if i >= n {
        return None;
    }
    let c = s.get_char(i);
    proof {
        assert(s@.skip(i as int)[0] == s@[i as int]);
        assert(s@.skip(i as int).skip(1) =~= s@.skip(i as int + 1));
    }
    if c == ',' {
        parse_fields_at(s, i + 1, er, da, rid)
    } else if c == '}' {
        Some(((er, da, rid), i + 1))
    } else {
        None
    }
}

/// Parse one whole response line, as `spec_parse_response` says of it.
pub fn parse_response(s: &str) -> (r: Option<IpcResponse>)
    ensures
        (match r {
            Some(resp) => spec_parse_response(s@) == Some(resp@),
            None => spec_parse_response(s@) is None,
        }),
{
    let n = s.unicode_len();
    if n == 0 {
        return None;
    }
    if s.get_char(0) != '{' {
        return None;
    }
    if n >= 2 && s.get_char(1) == '}' {
        if n == 2 {
            let r = IpcResponse { error: String::new(), data: None, request_id: None };
            proof {
                assert(r@.error =~= Seq::<char>::empty());
            }
            return Some(r);
        } else {
            return None;
        }
    }
    proof {
        assert(s@.skip(0).skip(1) =~= s@.skip(1));
        assert(s@.skip(0) =~= s@);
    }
    match parse_fields_at(s, 1, None, None, None) {
        Some(((er, da, rid), j)) => {
            if j != n {
                return None;
            }
            let error = match er {
                Some(t) => t,
                None => String::new(),
            };
            let r = IpcResponse { error, data: da, request_id: rid };
            proof {
                if view_opt_text(er) is None {
                    assert(r@.error =~= Seq::<char>::empty());
                }
            }
            Some(r)
        },
        None => None,
    }
}

/// ASCII whitespace as the protocol's line endings and padding use it.
pub open spec fn is_ws(c: char) -> bool {
    c == ' ' || c == '\t' || c == '\r' || c == '\n'
}

/// The characters with leading whitespace removed.
pub open spec fn trim_front(s: Seq<char>) -> Seq<char>
    decreases s.len(),
{
    if s.len() > 0 && is_ws(s[0]) {
        trim_front(s.skip(1))
    } else {
        s
    }
}

/// The characters with trailing whitespace removed.
pub open spec fn trim_back(s: Seq<char>) -> Seq<char>
    decreases s.len(),
{
    if s.len() > 0 && is_ws(s.last()) {
        trim_back(s.drop_last())
    } else {
        s
    }
}

/// The characters with whitespace removed from both ends.
pub open spec fn spec_trim(s: Seq<char>) -> Seq<char> {
    trim_back(trim_front(s))
}

/// Strip ASCII whitespace from both ends, as `spec_trim` says.
pub fn trim_line<'a>(s: &'a str) -> (r: &'a str)
    ensures
        r@ == spec_trim(s@),
{
    let n = s.unicode_len();
    let mut a: usize = 0;
    proof {
        assert(s@.skip(0) =~= s@);
    }
    loop
        invariant_except_break
            0 <= a <= n,
            n == s@.len(),
            trim_front(s@) == trim_front(s@.skip(a as int)),
        ensures
            0 <= a <= n,
            n == s@.len(),
            trim_front(s@) == s@.skip(a as int),
        decreases n - a,
    {
        if a >= n {
            proof {
                assert(s@.skip(a as int).len() == 0);
            }
            break ;
        }
        proof {
            assert(s@.skip(a as int)[0] == s@[a as int]);
            assert(s@.skip(a as int).skip(1) =~= s@.skip(a as int + 1));
        }
        let c = s.get_char(a);
        if !(c == ' ' || c == '\t' || c == '\r' || c == '\n') {
            break ;
        }
        a = a + 1;
    }
    let mut b: usize = n;
    proof {
        assert(s@.skip(a as int).take(n - a) =~= s@.skip(a as int));
    }
    loop
        invariant_except_break
            a <= b <= n,
            n == s@.len(),
            trim_back(s@.skip(a as int)) == trim_back(s@.skip(a as int).take(b - a)),
        ensures
            a <= b <= n,
            n == s@.len(),
            trim_back(s@.skip(a as int)) == s@.skip(a as int).take(b - a),
        decreases b,
    {
        if b <= a {
            proof {
                assert(s@.skip(a as int).take(0).len() == 0);
            }
            break ;
        }
        proof {
            let t = s@.skip(a as int).take(b - a);
            assert(t.last() == s@[b - 1]);
            assert(t.drop_last() =~= s@.skip(a as int).take(b - a - 1));
        }
        let c = s.get_char(b - 1);
        if !(c == ' ' || c == '\t' || c == '\r' || c == '\n') {
            break ;
        }
        b = b - 1;
    }
    let r = s.substring_char(a, b);
    proof {
        assert(r@ =~= s@.skip(a as int).take(b - a));
    }
    r
}

/// How many response lines a pending command will look at before giving up.
pub const RESPONSE_ATTEMPTS: u8 = 10;

/// The outcome of offering one response line to a pending command.
#[derive(Debug, PartialEq)]
pub enum IpcStep {
    /// The line carried the response to this command.
    Matched(IpcResponse),
    /// The line was blank, malformed, or a response to another request; the
    /// command keeps waiting.
    Ignored,
    /// The command has no attempts left.
    Exhausted,
}

/// One sent command waiting for the response that carries its request id.
pub struct PendingCommand {
    request_id: u32,
    attempts_left: u8,
}

impl PendingCommand {
    /// The request id this command was sent with.
    pub closed spec fn id(self) -> int {
        self.request_id as int
    }

    /// How many more lines it will look at.
    pub closed spec fn attempts(self) -> int {
        self.attempts_left as int
    }

    /// A fresh pending command with the full attempt budget.
    pub fn new(request_id: u32) -> (r: Self)
        ensures
            r.id() == request_id as int,
            r.attempts() == RESPONSE_ATTEMPTS as int,
    {
        PendingCommand { request_id, attempts_left: RESPONSE_ATTEMPTS }
    }

    /// Offer one line read from the control connection. The command accepts
    /// exactly the line that parses as a response whose request id equals
    /// its own — never a response to an earlier or later request, however
    /// the lines are interleaved — and skips everything else, consuming one
    /// attempt per line until none are left.
    pub fn offer_line(&mut self, line: &str) -> (step: IpcStep)
        ensures
            final(self).id() == old(self).id(),
            (step matches IpcStep::Exhausted) <==> old(self).attempts() == 0,
            old(self).attempts() == 0 ==> final(self).attempts() == 0,
            old(self).attempts() > 0 ==> final(self).attempts() == old(self).attempts() - 1,
            (match step {
                IpcStep::Matched(resp) => spec_parse_response(spec_trim(line@)) == Some(resp@)
                    && resp@.request_id == Some(old(self).id()),
                IpcStep::Ignored => (match spec_parse_response(spec_trim(line@)) {
                    Some(v) => v.request_id != Some(old(self).id()),
                    None => true,
                }),
                IpcStep::Exhausted => true,
            }),
            (old(self).attempts() > 0 && (match spec_parse_response(spec_trim(line@)) {
                Some(v) => v.request_id == Some(old(self).id()),
                None => false,
            })) ==> step matches IpcStep::Matched(_),
    {
        if self.attempts_left == 0 {
            return IpcStep::Exhausted;
        }
        self.attempts_left = self.attempts_left - 1;
        let trimmed = trim_line(line);
        match parse_response(trimmed) {
            Some(resp) => {
                let matched = match resp.request_id {
                    Some(id) => id == self.request_id,
                    None => false,
                };
                if matched {
                    IpcStep::Matched(resp)
                } else {
                    IpcStep::Ignored
                }
            },
            None => IpcStep::Ignored,
        }
    }
}

/// One argument of a control command: the protocol sends strings, booleans
/// and numbers, with times as whole milliseconds.
#[derive(Debug, Clone, PartialEq)]
pub enum CommandArg {
    /// A string argument, such as a command or property name.
    Text(String),
    /// A boolean argument, such as a pause flag.
    Flag(bool),
    /// A time argument in milliseconds, written as seconds on the wire.
    Millis(i64),
}

/// Mathematical value of a `CommandArg`.
pub enum CommandArgView {
    Text(Seq<char>),
    Flag(bool),
    Millis(int),
}

impl View for CommandArg {
    type V = CommandArgView;

    open spec fn view(&self) -> CommandArgView {
        match self {
            CommandArg::Text(t) => CommandArgView::Text(t@),
            CommandArg::Flag(b) => CommandArgView::Flag(*b),
            CommandArg::Millis(v) => CommandArgView::Millis(*v as int),
        }
    }
}

/// An argument the wire can carry.
pub open spec fn wf_arg(a: CommandArgView) -> bool {
    match a {
        CommandArgView::Text(t) => wf_text(t),
        CommandArgView::Flag(_) => true,
        CommandArgView::Millis(v) => i64::MIN < v <= i64::MAX,
    }
}

/// One encoded argument.
pub open spec fn enc_arg(a: CommandArgView) -> Seq<char> {
    match a {
        CommandArgView::Text(t) => crate::wire::enc_str(t),
        CommandArgView::Flag(b) => crate::wire::enc_bool(b),
        CommandArgView::Millis(v) => crate::num::spec_ms_dec(v),
    }
}

/// A comma-separated argument list.
pub open spec fn enc_args(args: Seq<CommandArgView>) -> Seq<char>
    decreases args.len(),
{
    if args.len() == 0 {
        Seq::empty()
    } else if args.len() == 1 {
        enc_arg(args[0])
    } else {
        enc_arg(args[0]) + seq![','] + enc_args(args.skip(1))
    }
}

/// A whole request line: the command array and the request id.
pub open spec fn enc_command(args: Seq<CommandArgView>, request_id: int) -> Seq<char> {
    "{\"command\":["@ + enc_args(args) + "],\"request_id\":"@ + crate::num::spec_u64_dec(
        request_id as nat,
    ) + "}"@
}

/// Appending one argument extends the encoded list by a separator and that
/// argument.
proof fn lemma_enc_args_snoc(args: Seq<CommandArgView>, i: int)
    requires
        0 <= i < args.len(),
    ensures
        enc_args(args.take(i + 1)) == if i == 0 {
            enc_arg(args[0])
        } else {
            enc_args(args.take(i)) + seq![','] + enc_arg(args[i])
        },
    decreases i,
{
    let t = args.take(i + 1);
    if i == 0 {
        assert(t.len() == 1);
        assert(t[0] == args[0]);
    } else {
        assert(t.len() >= 2);
        assert(t[0] == args[0]);
        assert(t.skip(1) =~= args.skip(1).take(i));
        lemma_enc_args_snoc(args.skip(1), i - 1);
        assert(args.skip(1)[i - 1] == args[i]);
        let h = args.take(i);
        assert(h[0] == args[0]);
        if i == 1 {
            assert(h.len() == 1);
            assert(enc_args(h) == enc_arg(args[0]));
            assert(args.skip(1).take(0).len() == 0);
            assert(enc_args(t) =~= enc_args(h) + seq![','] + enc_arg(args[i]));
        } else {
            assert(h.skip(1) =~= args.skip(1).take(i - 1));
            assert(enc_args(h) == enc_arg(args[0]) + seq![','] + enc_args(args.skip(1).take(i - 1)));
            assert(enc_args(t) =~= enc_args(h) + seq![','] + enc_arg(args[i]));
        }
    }
}

/// Encode a request line, exactly when every argument is wire safe.
pub fn encode_command(args: &Vec<CommandArg>, request_id: u32) -> (r: Option<String>)
    ensures
        (match r {
            Some(s) => (forall|i: int| 0 <= i < args@.len() ==> wf_arg(#[trigger] args@[i]@))
                && s@ == enc_command(
                args@.map_values(|a: CommandArg| a@),
                request_id as int,
            ),
            None => !(forall|i: int| 0 <= i < args@.len() ==> wf_arg(#[trigger] args@[i]@)),
        }),
{
    let ghost av = args@.map_values(|a: CommandArg| a@);
    let n = args.len();
    for i in 0..n
        invariant
            n == args@.len(),
            forall|m: int| 0 <= m < i ==> wf_arg(#[trigger] args@[m]@),
    {
        let a = &args[i];
        proof {
            assert(*a == args@[i as int]);
        }
        let ok = match a {
            CommandArg::Text(t) => crate::wire::check_wf_text(t.as_str()),
            CommandArg::Flag(_) => true,
            CommandArg::Millis(v) => *v != i64::MIN,
        };
        if !ok {
            proof {
                assert(!wf_arg(args@[i as int]@));
            }
            return None;
        }
    }
    let mut out = String::new();
    out.append("{\"command\":[");
    let ghost base = "{\"command\":["@;
    proof {
        assert(av.take(0).len() == 0);
        assert(out@ =~= base + enc_args(av.take(0)));
    }
    let mut i: usize = 0;
    while i < n
        invariant
            0 <= i <= n,
            n == args@.len(),
            av == args@.map_values(|a: CommandArg| a@),
            forall|m: int| 0 <= m < n ==> wf_arg(#[trigger] args@[m]@),
            out@ == base + enc_args(av.take(i as int)),
        decreases n - i,
    {
        if i > 0 {
            proof {
                reveal_strlit(",");
                assert(","@ =~= seq![',']);
            }
            out.append(",");
        }
        let a = &args[i];
        proof {
            assert(*a == args@[i as int]);
            assert(wf_arg(args@[i as int]@));
        }
        match a {
            CommandArg::Text(t) => {
                crate::wire::append_str(&mut out, t.as_str());
            },
            CommandArg::Flag(b) => {
                if *b {
                    out.append("true");
                } else {
                    out.append("false");
                }
            },
            CommandArg::Millis(v) => {
                crate::num::append_ms(&mut out, *v);
            },
        }
        proof {
            assert(av[i as int] == args@[i as int]@);
            lemma_enc_args_snoc(av, i as int);
            assert(out@ =~= base + enc_args(av.take(i as int + 1)));
        }
        i = i + 1;
    }
    proof {
        assert(av.take(n as int) =~= av);
    }
    out.append("],\"request_id\":");
    crate::num::append_u64(&mut out, request_id as u64);
    out.append("}");
    proof {
        assert(out@ =~= enc_command(av, request_id as int));
    }
    Some(out)
}

/// The playlist index carried by a get-property response: the integer
/// payload where it fits a signed 32-bit index, otherwise the default of
/// zero — staleness is preferable to stopping a polling loop.
pub open spec fn spec_playlist_pos_of(r: IpcResponseView) -> int {
    match r.data {
        Some(IpcValueView::Int(v)) => if i32::MIN <= v <= i32::MAX {
            v
        } else {
            0
        },
        _ => 0,
    }
}

/// The playback time in milliseconds carried by a get-property response: a
/// non-negative fixed-point or integer payload, otherwise the default of
/// zero.
pub open spec fn spec_position_ms_of(r: IpcResponseView) -> int {
    match r.data {
        Some(IpcValueView::Time(ms)) => if 0 <= ms {
            ms
        } else {
            0
        },
        Some(IpcValueView::Int(v)) => if 0 <= v && v * 1000 <= i64::MAX {
            v * 1000
        } else {
            0
        },
        _ => 0,
    }
}

/// The pause flag carried by a get-property response: the boolean payload,
/// otherwise the default of paused.
pub open spec fn spec_paused_of(r: IpcResponseView) -> bool {
    match r.data {
        Some(IpcValueView::Bool(b)) => b,
        _ => true,
    }
}

/// Read the playlist index out of a response, as `spec_playlist_pos_of`
/// says.
pub fn playlist_pos_from(r: &IpcResponse) -> (pos: i32)
    ensures
        pos as int == spec_playlist_pos_of(r@),
{
    match &r.data {
        Some(IpcValue::Int(v)) => {
            if i32::MIN as i64 <= *v && *v <= i32::MAX as i64 {
                *v as i32
            } else {
                0
            }
        },
        _ => 0,
    }
}

/// Read the playback time in milliseconds out of a response, as
/// `spec_position_ms_of` says.
pub fn position_ms_from(r: &IpcResponse) -> (ms: u64)
    ensures
        ms as int == spec_position_ms_of(r@),
{
    match &r.data {
        Some(IpcValue::Time(v)) => {
            if 0 <= *v {
                *v as u64
            } else {
                0
            }
        },
        Some(IpcValue::Int(v)) => {
            if 0 <= *v && *v <= i64::MAX / 1000 {
                (*v * 1000) as u64
            } else {
                0
            }
        },
        _ => 0,
    }
}

/// Read the pause flag out of a response, as `spec_paused_of` says.
pub fn paused_from(r: &IpcResponse) -> (paused: bool)
    ensures
        paused == spec_paused_of(r@),
{
    match &r.data {
        Some(IpcValue::Bool(b)) => *b,
        _ => true,
    }
}

/// The arguments that set the pause property.
pub fn set_pause_args(paused: bool) -> (r: Vec<CommandArg>)
    ensures
        r@.map_values(|a: CommandArg| a@) =~= seq![
            CommandArgView::Text("set_property"@),
            CommandArgView::Text("pause"@),
            CommandArgView::Flag(paused),
        ],
{
    let mut v: Vec<CommandArg> = Vec::new();
    v.push(CommandArg::Text("set_property".to_owned()));
    v.push(CommandArg::Text("pause".to_owned()));
    v.push(CommandArg::Flag(paused));
    v
}

/// The arguments that seek by a signed time in milliseconds.
pub fn seek_args(ms: i64) -> (r: Vec<CommandArg>)
    ensures
        r@.map_values(|a: CommandArg| a@) =~= seq![
            CommandArgView::Text("seek"@),
            CommandArgView::Millis(ms as int),
        ],
{
    let mut v: Vec<CommandArg> = Vec::new();
    v.push(CommandArg::Text("seek".to_owned()));
    v.push(CommandArg::Millis(ms));
    v
}

/// The single-word command arguments, such as stepping the playlist.
pub fn word_args(word: &str) -> (r: Vec<CommandArg>)
    ensures
        r@.map_values(|a: CommandArg| a@) =~= seq![CommandArgView::Text(word@)],
{
    let mut v: Vec<CommandArg> = Vec::new();
    v.push(CommandArg::Text(word.to_owned()));
    v
}

/// The arguments that read a property.
pub fn get_property_args(name: &str) -> (r: Vec<CommandArg>)
    ensures
        r@.map_values(|a: CommandArg| a@) =~= seq![
            CommandArgView::Text("get_property"@),
            CommandArgView::Text(name@),
        ],
{
    let mut v: Vec<CommandArg> = Vec::new();
    v.push(CommandArg::Text("get_property".to_owned()));
    v.push(CommandArg::Text(name.to_owned()));
    v
}

/// The request-id counter of one control connection: each command takes the
/// next id, and the counter wraps at the end of its range.
pub struct IpcSession {
    next_request_id: u32,
}

impl IpcSession {
    /// The id the next command will be sent with.
    pub closed spec fn next_id(self) -> int {
        self.next_request_id as int
    }

    /// A fresh session; ids start at one.
    pub fn new() -> (r: Self)
        ensures
            r.next_id() == 1,
    {
        IpcSession { next_request_id: 1 }
    }

    /// Encode a command under the next request id and hand back the line to
    /// write and the pending command that will accept only the matching
    /// response. Fails exactly when an argument is not wire safe, and then
    /// leaves the counter alone.
    pub fn begin_command(&mut self, args: &Vec<CommandArg>) -> (r: Option<(String, PendingCommand)>)
        ensures
            (match r {
                Some((line, pc)) => (forall|i: int|
                    0 <= i < args@.len() ==> wf_arg(#[trigger] args@[i]@)) && line@ == enc_command(
                    args@.map_values(|a: CommandArg| a@),
                    old(self).next_id(),
                ) && pc.id() == old(self).next_id() && pc.attempts() == RESPONSE_ATTEMPTS as int
                    && final(self).next_id() == (if old(self).next_id() == u32::MAX as int {
                    0int
                } else {
                    old(self).next_id() + 1
                }),
                None => !(forall|i: int| 0 <= i < args@.len() ==> wf_arg(#[trigger] args@[i]@))
                    && final(self).next_id() == old(self).next_id(),
            }),
    {
        let id = self.next_request_id;
        match encode_command(args, id) {
            Some(line) => {
                self.next_request_id = if id == u32::MAX {
                    0
                } else {
                    id + 1
                };
                Some((line, PendingCommand::new(id)))
            },
            None => None,
        }
    }
}

} // verus!
