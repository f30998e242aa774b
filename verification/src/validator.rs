//! Per-client filter for noisy playlist-position reports.
//!
//! The playback process can briefly report a stale position while it switches
//! files; this state machine suppresses those glitches while still accepting
//! legitimate navigation. It keeps the last accepted position and, for large
//! backward jumps, a pending candidate that must be confirmed by a second
//! consecutive identical report before it is committed.

use vstd::prelude::*;

verus! {

/// Small jitter around the last position that is always accepted.
pub const SMALL_JUMP_LIMIT: i32 = 3;

/// Largest backward distance that is accepted without confirmation.
pub const MODERATE_BACKWARD_LIMIT: i32 = 10;

/// Number of consecutive identical reports needed to commit a large backward jump.
pub const CONFIRMATIONS_REQUIRED: u8 = 2;

/// Mathematical state of the filter: the last accepted position and the
/// pending large-backward candidate with its confirmation count.
pub struct ValidatorModel {
    pub last: Option<int>,
    pub pending: Option<(int, int)>,
}

/// One step of the filter on a candidate position bounded by the playlist
/// length: the state after the step, and whether the candidate was accepted.
///
/// In order: out-of-range candidates are rejected and clear the pending
/// record; with no accepted position yet, any in-range candidate seeds the
/// state; small jitter, any forward jump, and moderate backward jumps are
/// accepted at once; a large backward jump from deep in the playlist to its
/// very start is the known glitch signature and is always rejected; any other
/// large backward jump is held pending and committed only once it has been
/// reported on enough consecutive polls.
pub open spec fn step(m: ValidatorModel, new_pos: int, len: int) -> (ValidatorModel, bool) {
    if !(0 <= new_pos < len) {
        (ValidatorModel { last: m.last, pending: None }, false)
    } else if m.last is None {
        (ValidatorModel { last: Some(new_pos), pending: None }, true)
    } else {
        let last = m.last->0;
        let diff = new_pos - last;
        if -(SMALL_JUMP_LIMIT as int) <= diff <= SMALL_JUMP_LIMIT as int {
            (ValidatorModel { last: Some(new_pos), pending: None }, true)
        } else if diff > SMALL_JUMP_LIMIT as int {
            (ValidatorModel { last: Some(new_pos), pending: None }, true)
        } else if diff >= -(MODERATE_BACKWARD_LIMIT as int) {
            (ValidatorModel { last: Some(new_pos), pending: None }, true)
        } else if last > 5 && new_pos <= 1 {
            (ValidatorModel { last: m.last, pending: None }, false)
        } else {
            match m.pending {
                Some((p, c)) => if p == new_pos {
                    if c + 1 >= CONFIRMATIONS_REQUIRED as int {
                        (ValidatorModel { last: Some(new_pos), pending: None }, true)
                    } else {
                        (ValidatorModel { last: m.last, pending: Some((p, c + 1)) }, false)
                    }
                } else {
                    (ValidatorModel { last: m.last, pending: Some((new_pos, 1)) }, false)
                },
                None => (ValidatorModel { last: m.last, pending: Some((new_pos, 1)) }, false),
            }
        }
    }
}

/// The last position is either a previously accepted in-range position or
/// the seed value for "no file selected", so at least minus one; a pending
/// candidate is in range and its count is at least one and bounded by the
/// confirmation threshold.
pub open spec fn model_wf(m: ValidatorModel) -> bool {
    &&& (m.last matches Some(p) ==> -1 <= p)
    &&& (m.pending matches Some((p, c)) ==> 0 <= p && 1 <= c <= CONFIRMATIONS_REQUIRED as int)
}

/// With no accepted position yet, any in-range candidate is accepted and
/// becomes the last known position, and any out-of-range candidate is
/// rejected and leaves the state unseeded.
pub proof fn lemma_unseeded(m: ValidatorModel, new_pos: int, len: int)
    requires
        m.last is None,
    ensures
        0 <= new_pos < len ==> step(m, new_pos, len) == (
            ValidatorModel { last: Some(new_pos), pending: None },
            true,
        ),
        !(0 <= new_pos < len) ==> step(m, new_pos, len) == (
            ValidatorModel { last: m.last, pending: None },
            false,
        ),
{
}

/// An in-range candidate within the jitter bound of the last accepted
/// position, or ahead of it by any amount, or behind it by at most the
/// moderate-backward bound, is accepted at once and commits.
pub proof fn lemma_near_or_forward_accepted(m: ValidatorModel, new_pos: int, len: int)
    requires
        0 <= new_pos < len,
        m.last matches Some(last) && (new_pos - last >= -(MODERATE_BACKWARD_LIMIT as int)),
    ensures
        step(m, new_pos, len) == (ValidatorModel { last: Some(new_pos), pending: None }, true),
{
}

/// The glitch signature — a large backward jump from deep in the playlist
/// (beyond position five) to its very start (position at most one) — is
/// rejected outright and never becomes pending.
pub proof fn lemma_glitch_rejected(m: ValidatorModel, new_pos: int, len: int)
    requires
        0 <= new_pos < len,
        m.last matches Some(last) && new_pos - last < -(MODERATE_BACKWARD_LIMIT as int) && last > 5
            && new_pos <= 1,
    ensures
        step(m, new_pos, len) == (ValidatorModel { last: m.last, pending: None }, false),
{
}

/// A large backward jump that is not the glitch signature is rejected on its
/// first occurrence and recorded as pending with a single confirmation; a
/// second consecutive report of the same candidate is then accepted and
/// commits, while a differing candidate restarts the pending record.
pub proof fn lemma_backward_jump_confirmation(m: ValidatorModel, new_pos: int, len: int)
    requires
        model_wf(m),
        0 <= new_pos < len,
        m.last matches Some(last) && new_pos - last < -(MODERATE_BACKWARD_LIMIT as int)
            && !(last > 5 && new_pos <= 1),
    ensures
        (m.pending matches Some((p, _)) ==> p != new_pos) ==> step(m, new_pos, len) == (
            ValidatorModel { last: m.last, pending: Some((new_pos, 1)) },
            false,
        ),
        (m.pending matches Some((p, c)) && p == new_pos
            && c + 1 >= CONFIRMATIONS_REQUIRED as int) ==> step(m, new_pos, len) == (
            ValidatorModel { last: Some(new_pos), pending: None },
            true,
        ),
{
}

/// A candidate is committed exactly when it is accepted: on acceptance the
/// last known position becomes the candidate, and on rejection it is
/// unchanged.
pub proof fn lemma_commit_iff_accepted(m: ValidatorModel, new_pos: int, len: int)
    ensures
        step(m, new_pos, len).1 ==> step(m, new_pos, len).0.last == Some(new_pos),
        !step(m, new_pos, len).1 ==> step(m, new_pos, len).0.last == m.last,
{
}

/// Filter state owned by one sync client; mutated only by
/// `validate_position_change`, one atomic step per poll cycle.
pub struct PositionValidator {
    last_known_position: Option<i32>,
    pending_position: Option<(i32, u8)>,
}

impl View for PositionValidator {
    type V = ValidatorModel;

    closed spec fn view(&self) -> ValidatorModel {
        ValidatorModel {
            last: match self.last_known_position {
                Some(p) => Some(p as int),
                None => None,
            },
            pending: match self.pending_position {
                Some((p, c)) => Some((p as int, c as int)),
                None => None,
            },
        }
    }
}

impl PositionValidator {
    /// The filter state is well formed as `model_wf` says of its model.
    pub open spec fn wf(&self) -> bool {
        model_wf(self@)
    }

    /// A fresh filter: no accepted position, nothing pending.
    pub fn new() -> (v: Self)
        ensures
            v.wf(),
            v@.last is None,
            v@.pending is None,
    {
        PositionValidator { last_known_position: None, pending_position: None }
    }

    /// The last accepted position, if any.
    pub fn last_known_position(&self) -> (r: Option<i32>)
        ensures
            r matches Some(p) ==> self@.last == Some(p as int),
            r is None ==> self@.last is None,
    {
        self.last_known_position
    }

    /// Seed the filter with a position accepted outside the polling loop,
    /// such as the state sent when joining a session; minus one stands for
    /// "no file selected".
    pub fn seed(&mut self, position: i32)
        requires
            position >= -1,
    ensures
            final(self).wf(),
            final(self)@.last == Some(position as int),
            final(self)@.pending is None,
    {
        self.last_known_position = Some(position);
        self.pending_position = None;
    }

    /// Run one step of the filter on a candidate position. Returns whether the
    /// candidate was accepted; exactly on acceptance the last known position
    /// becomes the candidate.
    pub fn validate_position_change(&mut self, new_position: i32, playlist_length: usize) -> (accepted: bool)
        requires
            old(self).wf(),
            playlist_length <= i32::MAX as usize,
        ensures
            final(self).wf(),
            (final(self)@, accepted) == step(old(self)@, new_position as int, playlist_length as int),
            accepted ==> final(self)@.last == Some(new_position as int),
            !accepted ==> final(self)@.last == old(self)@.last,
    {
        let len = playlist_length as i32;
        if new_position < 0 || new_position >= len {
            self.pending_position = None;
            return false;
        }
        let last = match self.last_known_position {
            None => {
                self.last_known_position = Some(new_position);
                self.pending_position = None;
                return true;
            },
            Some(last) => last,
        };
        let diff = new_position - last;
        if -SMALL_JUMP_LIMIT <= diff && diff <= SMALL_JUMP_LIMIT {
            self.last_known_position = Some(new_position);
            self.pending_position = None;
            true
        } else if diff > SMALL_JUMP_LIMIT {
            self.last_known_position = Some(new_position);
            self.pending_position = None;
            true
        } else if diff >= -MODERATE_BACKWARD_LIMIT {
            self.last_known_position = Some(new_position);
            self.pending_position = None;
            true
        } else if last > 5 && new_position <= 1 {
            self.pending_position = None;
            false
        } else {
            match self.pending_position {
                Some((p, c)) if p == new_position => {
                    if c + 1 >= CONFIRMATIONS_REQUIRED {
                        self.last_known_position = Some(new_position);
                        self.pending_position = None;
                        true
                    } else {
                        self.pending_position = Some((p, c + 1));
                        false
                    }
                },
                _ => {
                    self.pending_position = Some((new_position, 1));
                    false
                },
            }
        }
    }
}

} // verus!
