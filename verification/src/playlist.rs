//! Local playlist bookkeeping: the ordered items, the current index, the
//! playback position and the pause flag, with times in whole milliseconds
//! and the formatting of clock readouts.

use vstd::prelude::*;
use crate::num::{spec_u64_dec, append_u64};
use crate::protocol::{file_name_of, spec_display_name};

verus! {

/// One playlist entry: its path, a display title derived from the path, and
/// the duration in milliseconds once the playback process has reported it.
#[derive(Debug, Clone, PartialEq)]
pub struct PlaylistItem {
    pub path: String,
    pub title: Option<String>,
    pub duration_ms: Option<u64>,
}

/// Mathematical value of a `PlaylistItem`.
pub struct PlaylistItemView {
    pub path: Seq<char>,
    pub title: Option<Seq<char>>,
    pub duration_ms: Option<int>,
}

impl View for PlaylistItem {
    type V = PlaylistItemView;

    open spec fn view(&self) -> PlaylistItemView {
        PlaylistItemView {
            path: self.path@,
            title: match self.title {
                Some(ref t) => Some(t@),
                None => None,
            },
            duration_ms: match self.duration_ms {
                Some(d) => Some(d as int),
                None => None,
            },
        }
    }
}

/// The local playlist with the current playback state.
#[derive(Debug)]
pub struct PlaylistState {
    pub items: Vec<PlaylistItem>,
    pub current_index: i32,
    pub current_position_ms: u64,
    pub is_paused: bool,
}

impl PlaylistState {
    /// The items' mathematical values.
    pub open spec fn items_view(self) -> Seq<PlaylistItemView> {
        self.items@.map_values(|it: PlaylistItem| it@)
    }

    /// Whether the current index selects an item.
    pub open spec fn has_current(self) -> bool {
        0 <= self.current_index < self.items@.len()
    }

    /// A playlist over the given files, at the first entry, paused at time
    /// zero, each item's title the file-name component of its path.
    pub fn new(files: Vec<String>) -> (r: Self)
        ensures
            r.items_view().len() == files@.len(),
            forall|i: int|
                0 <= i < files@.len() ==> (#[trigger] r.items_view()[i]).path == files@[i]@
                    && r.items_view()[i].title == spec_display_name(Some(files@[i]@))
                    && r.items_view()[i].duration_ms is None,
            r.current_index == 0,
            r.current_position_ms == 0,
            r.is_paused == true,
    {
        let n = files.len();
        let mut items: Vec<PlaylistItem> = Vec::new();
        let mut i: usize = 0;
        while i < n
            invariant
                0 <= i <= n,
                n == files@.len(),
                items@.len() == i,
                forall|m: int|
                    0 <= m < i ==> (#[trigger] items@[m]@).path == files@[m]@
                        && items@[m]@.title == spec_display_name(Some(files@[m]@))
                        && items@[m]@.duration_ms is None,
            decreases n - i,
        {
            let path = files[i].clone();
            let title = file_name_of(path.as_str());
            items.push(PlaylistItem { path, title, duration_ms: None });
            i = i + 1;
        }
        PlaylistState { items, current_index: 0, current_position_ms: 0, is_paused: true }
    }

    /// The currently selected item, when the index is in range.
    pub fn current_item(&self) -> (r: Option<&PlaylistItem>)
        ensures
            (match r {
                Some(it) => self.has_current() && it@ == self.items_view()[self.current_index as int],
                None => !self.has_current(),
            }),
    {
        if self.current_index >= 0 && (self.current_index as usize) < self.items.len() {
            Some(&self.items[self.current_index as usize])
        } else {
            None
        }
    }

    /// Record a polled index, position and pause flag. Returns whether
    /// anything worth acting on changed: a new index, a new pause state, or
    /// the position moving by more than half a second.
    pub fn update_position(&mut self, index: i32, position_ms: u64, paused: bool) -> (changed:
        bool)
        ensures
            final(self).items == old(self).items,
            final(self).current_index == index,
            final(self).current_position_ms == position_ms,
            final(self).is_paused == paused,
            changed == (old(self).current_index != index || (old(self).current_position_ms as int - position_ms as int > 500) || (
            position_ms as int - old(self).current_position_ms as int > 500) || old(self).is_paused
                != paused),
    {
        let moved: bool = if self.current_position_ms >= position_ms {
            self.current_position_ms - position_ms > 500
        } else {
            position_ms - self.current_position_ms > 500
        };
        let changed = self.current_index != index || moved || self.is_paused != paused;
        self.current_index = index;
        self.current_position_ms = position_ms;
        self.is_paused = paused;
        changed
    }

    /// Step to the next item when one follows; the position resets.
    pub fn next(&mut self) -> (moved: bool)
        requires
            old(self).items@.len() <= i32::MAX as usize,
    ensures
            final(self).items == old(self).items,
            final(self).is_paused == old(self).is_paused,
            moved == (0 <= old(self).current_index && old(self).current_index + 1 < old(self).items@.len()),
            moved ==> final(self).current_index == old(self).current_index + 1 && final(self).current_position_ms == 0,
            !moved ==> final(self).current_index == old(self).current_index && final(self).current_position_ms == old(self).current_position_ms,
    {
        let n = self.items.len();
        if self.current_index >= 0 && n > 0 && (self.current_index as usize) < n - 1 {
            self.current_index = self.current_index + 1;
            self.current_position_ms = 0;
            true
        } else {
            false
        }
    }

    /// Step to the previous item when not at the beginning; the position
    /// resets.
    pub fn prev(&mut self) -> (moved: bool)
        ensures
            final(self).items == old(self).items,
            final(self).is_paused == old(self).is_paused,
            moved == (old(self).current_index > 0),
            moved ==> final(self).current_index == old(self).current_index - 1 && final(self).current_position_ms == 0,
            !moved ==> final(self).current_index == old(self).current_index && final(self).current_position_ms == old(self).current_position_ms,
    {
        if self.current_index > 0 {
            self.current_index = self.current_index - 1;
            self.current_position_ms = 0;
            true
        } else {
            false
        }
    }

    /// Whether the current index is at or past the last item.
    pub fn is_at_end(&self) -> (r: bool)
        requires
            self.items@.len() <= i32::MAX as usize,
        ensures
            r == (self.current_index as int >= self.items@.len() - 1),
    {
        self.current_index as i64 >= self.items.len() as i64 - 1
    }

    /// Whether the current index is at or before the first item.
    pub fn is_at_beginning(&self) -> (r: bool)
        ensures
            r == (self.current_index <= 0),
    {
        self.current_index <= 0
    }

    /// How many items the playlist holds.
    pub fn len(&self) -> (n: usize)
        ensures
            n == self.items@.len(),
    {
        self.items.len()
    }

    /// Whether the playlist holds no items.
    pub fn is_empty(&self) -> (r: bool)
        ensures
            r == (self.items@.len() == 0),
    {
        self.items.len() == 0
    }

    /// How far through the current item playback stands, in thousandths of
    /// the item's duration, clamped to whole; zero while no item is selected
    /// or its duration is unknown or zero.
    pub fn current_progress_permille(&self) -> (r: u64)
        ensures
            r == (if self.has_current() && (match self.items_view()[self.current_index as int].duration_ms {
                Some(d) => d > 0,
                None => false,
            }) {
                let d = self.items_view()[self.current_index as int].duration_ms->0;
                if self.current_position_ms * 1000 / d > 1000 {
                    1000int
                } else {
                    self.current_position_ms * 1000 / d
                }
            } else {
                0int
            }),
    {
        match self.current_item() {
            Some(item) => match item.duration_ms {
                Some(d) => {
                    if d > 0 {
                        let scaled: u128 = (self.current_position_ms as u128) * 1000;
                        let ratio: u128 = scaled / (d as u128);
                        if ratio > 1000 {
                            1000
                        } else {
                            ratio as u64
                        }
                    } else {
                        0
                    }
                },
                None => 0,
            },
            None => 0,
        }
    }

    /// The current position as clock text.
    pub fn format_current_time(&self) -> (r: String)
        ensures
            r@ == spec_format_time((self.current_position_ms / 1000) as nat),
    {
        format_time(self.current_position_ms / 1000)
    }

    /// The current item's duration as clock text, or a placeholder while it
    /// is unknown.
    pub fn format_current_duration(&self) -> (r: String)
        ensures
            r@ == (if self.has_current() && self.items_view()[self.current_index as int].duration_ms
                is Some {
                spec_format_time(
                    (self.items_view()[self.current_index as int].duration_ms->0 / 1000) as nat,
                )
            } else {
                "--:--"@
            }),
    {
        match self.current_item() {
            Some(item) => match item.duration_ms {
                Some(d) => format_time(d / 1000),
                None => "--:--".to_owned(),
            },
            None => "--:--".to_owned(),
        }
    }

    /// Record the duration the playback process reported for the current
    /// item; without a current item nothing changes.
    pub fn update_current_duration(&mut self, duration_ms: u64)
        ensures
            final(self).current_index == old(self).current_index,
            final(self).current_position_ms == old(self).current_position_ms,
            final(self).is_paused == old(self).is_paused,
            final(self).items@.len() == old(self).items@.len(),
            old(self).has_current() ==> {
                &&& final(self).items_view()[old(self).current_index as int].duration_ms == Some(
                    duration_ms as int,
                )
                &&& final(self).items_view()[old(self).current_index as int].path == old(self).items_view()[old(self).current_index as int].path
                &&& final(self).items_view()[old(self).current_index as int].title == old(self).items_view()[old(self).current_index as int].title
                &&& forall|i: int|
                    0 <= i < old(self).items@.len() && i != old(self).current_index as int
                        ==> #[trigger] final(self).items_view()[i] == old(self).items_view()[i]
            },
            !old(self).has_current() ==> final(self).items == old(self).items,
    {
        if self.current_index >= 0 && (self.current_index as usize) < self.items.len() {
            let idx = self.current_index as usize;
            let ghost oldvec = self.items@;
            let old_item = &self.items[idx];
            let updated = PlaylistItem {
                path: old_item.path.clone(),
                title: match &old_item.title {
                    Some(t) => Some(t.clone()),
                    None => None,
                },
                duration_ms: Some(duration_ms),
            };
            self.items.remove(idx);
            self.items.insert(idx, updated);
            proof {
                oldvec.remove_ensures(idx as int);
                oldvec.remove(idx as int).insert_ensures(idx as int, final(self).items@[idx as int]);
                assert(final(self).items@ =~= oldvec.remove(idx as int).insert(
                    idx as int,
                    final(self).items@[idx as int],
                ));
            }
        }
    }
}

impl Default for PlaylistState {
    /// The default playlist is empty, at the first entry, paused.
    fn default() -> (r: Self)
        ensures
            r.items_view().len() == 0,
            r.current_index == 0,
            r.current_position_ms == 0,
            r.is_paused == true,
    {
        Self::new(Vec::new())
    }
}

/// Clock text for a second count: minutes and seconds, with hours in front
/// once the count reaches an hour, each part padded to two digits.
pub open spec fn spec_pad2(n: nat) -> Seq<char> {
    if n < 10 {
        seq!['0'] + spec_u64_dec(n)
    } else {
        spec_u64_dec(n)
    }
}

/// Clock text for a second count, as `MM:SS` or `HH:MM:SS`.
pub open spec fn spec_format_time(total_seconds: nat) -> Seq<char> {
    let hours = total_seconds / 3600;
    let minutes = (total_seconds % 3600) / 60;
    let secs = total_seconds % 60;
    if hours > 0 {
        spec_pad2(hours) + ":"@ + spec_pad2(minutes) + ":"@ + spec_pad2(secs)
    } else {
        spec_pad2(minutes) + ":"@ + spec_pad2(secs)
    }
}

/// Append a two-digit-padded count.
fn append_pad2(out: &mut String, n: u64)
    ensures
        final(out)@ == old(out)@ + spec_pad2(n as nat),
{
    if n < 10 {
        proof {
            reveal_strlit("0");
            assert("0"@ =~= seq!['0']);
        }
        out.append("0");
    }
    append_u64(out, n);
    proof {
        assert(final(out)@ =~= old(out)@ + spec_pad2(n as nat));
    }
}

/// Render a second count as clock text, as `spec_format_time` says.
pub fn format_time(total_seconds: u64) -> (r: String)
    ensures
        r@ == spec_format_time(total_seconds as nat),
{
    let hours = total_seconds / 3600;
    let minutes = (total_seconds % 3600) / 60;
    let secs = total_seconds % 60;
    let mut out = String::new();
    if hours > 0 {
        append_pad2(&mut out, hours);
        out.append(":");
    }
    append_pad2(&mut out, minutes);
    out.append(":");
    append_pad2(&mut out, secs);
    proof {
        assert(out@ =~= spec_format_time(total_seconds as nat));
    }
    out
}

} // verus!
