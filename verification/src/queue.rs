//! The play queue: the tracks handed to the player, the order in which they
//! are played (identity, or a random permutation when shuffling) and the
//! cursor into that order.

use vstd::prelude::*;

use crate::models::RepeatMode;
use rand::Rng;

verus! {

/// Maximum number of queue entries mirrored into the UI snapshot.
pub const MAX_VISIBLE_QUEUE: usize = 2000;

/// A uniformly drawn index in `0..=upper` (`rand::Rng::gen_range` on the
/// thread-local generator). Only the range of the result is stated: the
/// value itself depends on chance.
#[verifier::external_body]
fn random_index_upto(upper: usize) -> (r: usize)
    ensures
        r <= upper,
{
    rand::thread_rng().gen_range(0..=upper)
}

/// Every draw is in range for its step of the Fisher-Yates loop: draw `k`
/// is taken for playback position `n - 1 - k` and is at most that position.
pub open spec fn draws_fit(n: nat, draws: Seq<usize>) -> bool {
    forall|k: int| 0 <= k < draws.len() ==> (#[trigger] draws[k]) + k < n
}

/// A complete set of draws for shuffling `n` entries: one for each of the
/// positions `n - 1` down to `1`, each in range.
pub open spec fn valid_draws(n: nat, draws: Seq<usize>) -> bool {
    &&& draws_fit(n, draws)
    &&& draws.len() == (if n > 0 {
        n - 1
    } else {
        0
    })
}

/// The identity order `0, 1, .., n - 1`.
pub open spec fn identity_order(n: nat) -> Seq<usize> {
    Seq::new(n, |p: int| p as usize)
}

/// The order that the Fisher-Yates shuffle produces from `draws`: starting
/// from the identity, step `k` swaps position `n - 1 - k` with position
/// `draws[k]`.
pub open spec fn fisher_yates(n: nat, draws: Seq<usize>) -> Seq<usize>
    decreases draws.len(),
{
    if draws.len() == 0 {
        identity_order(n)
    } else {
        let prev = fisher_yates(n, draws.drop_last());
        let last = n - draws.len();
        let j = draws.last() as int;
        prev.update(last, prev[j]).update(j, prev[last])
    }
}

/// Whatever the draws, the Fisher-Yates shuffle of `n` entries lists each
/// of `0..n` exactly once.
pub proof fn lemma_fisher_yates_permutation(n: nat, draws: Seq<usize>)
    requires
        n <= usize::MAX,
        draws_fit(n, draws),
    ensures
        is_permutation_of_range(fisher_yates(n, draws), n),
    decreases draws.len(),
{
    if draws.len() == 0 {
        let s = identity_order(n);
        assert forall|k: usize| k < n implies #[trigger] s.contains(k) by {
            assert(s[k as int] == k);
        }
        assert forall|p: int, q: int| 0 <= p < s.len() && 0 <= q < s.len() && p != q implies s[p]
            != s[q] by {
            assert(s[p] == p && s[q] == q);
        }
    } else {
        let d = draws.drop_last();
        assert(draws_fit(n, d)) by {
            assert forall|k: int| 0 <= k < d.len() implies (#[trigger] d[k]) + k < n by {
                assert(d[k] == draws[k]);
            }
        }
        lemma_fisher_yates_permutation(n, d);
        let k = draws.len() - 1;
        assert(draws[k] + k < n);
        lemma_swap_permutation(
            fisher_yates(n, d),
            n - draws.len(),
            draws.last() as int,
            n,
        );
    }
}

/// The identity order of `n` entries.
fn identity_vec(n: usize) -> (r: Vec<usize>)
    ensures
        r@ == identity_order(n as nat),
{
    let mut idx: Vec<usize> = Vec::new();
    let mut k: usize = 0;
    while k < n
        invariant
            k <= n,
            idx@ == identity_order(k as nat),
        decreases n - k,
    {
        idx.push(k);
        proof {
            assert(idx@ =~= identity_order((k + 1) as nat));
        }
        k += 1;
    }
    idx
}

/// Shuffles the order of `n` entries with the given draws (see
/// [`fisher_yates`]); the draws come from `random_index_upto` when the
/// queue shuffles.
pub fn shuffled_order(n: usize, draws: &Vec<usize>) -> (r: Vec<usize>)
    requires
        valid_draws(n as nat, draws@),
    ensures
        r@ == fisher_yates(n as nat, draws@),
        is_permutation_of_range(r@, n as nat),
{
    let mut idx = identity_vec(n);
    proof {
        assert(draws@.take(0) =~= Seq::<usize>::empty());
    }
    let mut step: usize = 0;
    while step < draws.len()
        invariant
            valid_draws(n as nat, draws@),
            step <= draws@.len(),
            idx@ == fisher_yates(n as nat, draws@.take(step as int)),
        decreases draws@.len() - step,
    {
        let last = n - 1 - step;
        let j = draws[step];
        assert(draws@[step as int] + step < n);
        proof {
            assert(draws@.take(step + 1).drop_last() =~= draws@.take(step as int));
            lemma_fisher_yates_permutation(n as nat, draws@.take(step as int));
        }
        let a = idx[last];
        let b = idx[j];
        idx.set(last, b);
        idx.set(j, a);
        step += 1;
    }
    proof {
        assert(draws@.take(draws@.len() as int) =~= draws@);
        lemma_fisher_yates_permutation(n as nat, draws@);
    }
    idx
}

/// A queued track together with the fields that queue decisions read.
pub struct QueueEntry<T> {
    pub id: i64,
    pub album: String,
    pub duration_ms: i64,
    pub track: T,
}

/// `s` lists each of `0..n` exactly once.
pub open spec fn is_permutation_of_range(s: Seq<usize>, n: nat) -> bool {
    &&& s.len() == n
    &&& s.no_duplicates()
    &&& forall|p: int| 0 <= p < s.len() ==> (#[trigger] s[p]) < n
    &&& forall|k: usize| k < n ==> #[trigger] s.contains(k)
}

/// `i` is the first queue index whose entry has track id `id`.
pub open spec fn first_with_id<T>(entries: Seq<QueueEntry<T>>, id: i64, i: int) -> bool {
    &&& 0 <= i < entries.len()
    &&& entries[i].id == id
    &&& forall|j: int| 0 <= j < i ==> entries[j].id != id
}

/// How a removal request was carried out.
#[derive(Debug, Clone, Copy, PartialEq, Eq, Structural)]
pub enum RemoveOutcome {
    /// The position was out of range; nothing changed.
    Ignored,
    /// Another entry was removed.
    Removed,
    /// The entry under the cursor was removed; playback must stop.
    RemovedCurrent,
}

/// The play queue.
pub struct PlayQueue<T> {
    entries: Vec<QueueEntry<T>>,
    order: Vec<usize>,
    cursor: i64,
    shuffle: bool,
    repeat: RepeatMode,
}

impl<T> PlayQueue<T> {
    /// Queued entries, by queue index.
    pub closed spec fn entries_view(&self) -> Seq<QueueEntry<T>> {
        self.entries@
    }

    /// Playback order: `order_view()[p]` is a queue index.
    pub closed spec fn order_view(&self) -> Seq<usize> {
        self.order@
    }

    /// Position in the playback order; `-1` before anything was queued.
    pub closed spec fn cursor_view(&self) -> int {
        self.cursor as int
    }

    pub closed spec fn shuffle_view(&self) -> bool {
        self.shuffle
    }

    pub closed spec fn repeat_view(&self) -> RepeatMode {
        self.repeat
    }

    /// Well-formedness, kept by every operation: each playback position
    /// names a queued entry, no entry is named twice, the order is no
    /// longer than the queue, the queue length fits the cursor's type, and
    /// the cursor is `-1` or a position of the order (or `0` on an empty
    /// order).
    pub open spec fn wf(&self) -> bool {
        &&& forall|p: int|
            0 <= p < self.order_view().len() ==> (#[trigger] self.order_view()[p])
                < self.entries_view().len()
        &&& self.order_view().no_duplicates()
        &&& self.order_view().len() <= self.entries_view().len()
        &&& self.entries_view().len() <= i64::MAX
        &&& -1 <= self.cursor_view()
        &&& (self.cursor_view() < self.order_view().len() || self.cursor_view() == 0)
    }

    /// The entry at playback position `pos`, if there is one.
    pub open spec fn entry_spec(&self, pos: int) -> Option<QueueEntry<T>> {
        if 0 <= pos < self.order_view().len() && self.order_view()[pos]
            < self.entries_view().len() {
            Some(self.entries_view()[self.order_view()[pos] as int])
        } else {
            None
        }
    }

    /// The cursor, floored at zero (how the player reads it).
    pub open spec fn cursor_pos(&self) -> int {
        if self.cursor_view() < 0 {
            0
        } else {
            self.cursor_view()
        }
    }

    /// Playback position of the track after the current one.
    pub open spec fn next_pos_spec(&self) -> Option<int> {
        if self.entries_view().len() == 0 {
            None
        } else if self.cursor_pos() + 1 < self.order_view().len() {
            Some(self.cursor_pos() + 1)
        } else if self.repeat_view() == RepeatMode::All {
            Some(0)
        } else {
            None
        }
    }

    /// Where `advance_cursor` puts the cursor.
    pub open spec fn advanced_cursor(&self) -> int {
        if self.cursor_pos() + 1 < self.order_view().len() {
            self.cursor_pos() + 1
        } else if self.repeat_view() == RepeatMode::All {
            0
        } else {
            self.cursor_view()
        }
    }

    /// Where `previous` puts the cursor: one position back, wrapping to the
    /// last position when the whole queue repeats.
    pub open spec fn previous_cursor(&self) -> int {
        if self.cursor_pos() > 0 {
            self.cursor_pos() - 1
        } else if self.repeat_view() == RepeatMode::All {
            self.order_view().len() - 1
        } else {
            0
        }
    }

    /// An empty queue.
    pub fn new(shuffle: bool, repeat: RepeatMode) -> (q: Self)
        ensures
            q.wf(),
            q.entries_view().len() == 0,
            q.order_view().len() == 0,
            q.cursor_view() == -1,
            q.shuffle_view() == shuffle,
            q.repeat_view() == repeat,
    {
        PlayQueue { entries: Vec::new(), order: Vec::new(), cursor: -1, shuffle, repeat }
    }

    /// Number of queued entries.
    pub fn len(&self) -> (n: usize)
        ensures
            n == self.entries_view().len(),
    {
        self.entries.len()
    }

    /// Number of positions in the playback order.
    pub fn order_len(&self) -> (n: usize)
        ensures
            n == self.order_view().len(),
    {
        self.order.len()
    }

    pub fn cursor(&self) -> (c: i64)
        ensures
            c == self.cursor_view(),
    {
        self.cursor
    }

    pub fn shuffle(&self) -> (b: bool)
        ensures
            b == self.shuffle_view(),
    {
        self.shuffle
    }

    pub fn repeat(&self) -> (m: RepeatMode)
        ensures
            m == self.repeat_view(),
    {
        self.repeat
    }

    pub fn set_repeat(&mut self, mode: RepeatMode)
        requires
            old(self).wf(),
        ensures
            final(self).wf(),
            final(self).repeat_view() == mode,
            final(self).entries_view() == old(self).entries_view(),
            final(self).order_view() == old(self).order_view(),
            final(self).cursor_view() == old(self).cursor_view(),
            final(self).shuffle_view() == old(self).shuffle_view(),
    {
        self.repeat = mode;
    }

    /// Records the shuffle preference without reordering the queue; it
    /// takes effect the next time a playback order is built.
    pub fn set_shuffle_flag(&mut self, on: bool)
        requires
            old(self).wf(),
        ensures
            final(self).wf(),
            final(self).shuffle_view() == on,
            final(self).entries_view() == old(self).entries_view(),
            final(self).order_view() == old(self).order_view(),
            final(self).cursor_view() == old(self).cursor_view(),
            final(self).repeat_view() == old(self).repeat_view(),
    {
        self.shuffle = on;
    }

    /// The cursor as a playback position, floored at zero.
    fn cursor_index(&self) -> (c: usize)
        requires
            self.wf(),
        ensures
            c == self.cursor_pos(),
            c == 0 || c < self.order_view().len(),
            self.order_view().len() <= usize::MAX,
    {
        let len = self.order.len();
        if self.cursor < 0 {
            0
        } else {
            proof {
                assert(self.cursor < len || self.cursor == 0);
            }
            self.cursor as usize
        }
    }

    /// The entry at queue index `index`.
    pub fn entry(&self, index: usize) -> (r: Option<&QueueEntry<T>>)
        ensures
            r is Some <==> index < self.entries_view().len(),
            r matches Some(e) ==> *e == self.entries_view()[index as int],
    {
        if index < self.entries.len() {
            Some(&self.entries[index])
        } else {
            None
        }
    }

    /// The entry at playback position `pos`.
    pub fn entry_at(&self, pos: usize) -> (r: Option<&QueueEntry<T>>)
        ensures
            r is Some <==> self.entry_spec(pos as int) is Some,
            r matches Some(e) ==> *e == self.entry_spec(pos as int)->0,
    {
        if pos < self.order.len() {
            let idx = self.order[pos];
            if idx < self.entries.len() {
                return Some(&self.entries[idx]);
            }
        }
        None
    }

    /// The entry under the cursor.
    pub fn entry_at_cursor(&self) -> (r: Option<&QueueEntry<T>>)
        requires
            self.wf(),
        ensures
            r is Some <==> self.entry_spec(self.cursor_pos()) is Some,
            r matches Some(e) ==> *e == self.entry_spec(self.cursor_pos())->0,
    {
        let pos = self.cursor_index();
        self.entry_at(pos)
    }

    /// First playback position that plays queue index `index`.
    pub fn position_of_queue_index(&self, index: usize) -> (r: Option<usize>)
        ensures
            r matches Some(p) ==> p < self.order_view().len() && self.order_view()[p as int]
                == index && forall|q: int| 0 <= q < p ==> self.order_view()[q] != index,
            r is None ==> !self.order_view().contains(index),
    {
        let mut p: usize = 0;
        while p < self.order.len()
            invariant
                p <= self.order@.len(),
                forall|q: int| 0 <= q < p ==> self.order@[q] != index,
            decreases self.order@.len() - p,
        {
            if self.order[p] == index {
                return Some(p);
            }
            p += 1;
        }
        None
    }

    /// First queue index whose entry has track id `id`.
    pub fn find_by_id(&self, id: i64) -> (r: Option<usize>)
        ensures
            r matches Some(i) ==> i < self.entries_view().len() && self.entries_view()[i as int].id
                == id && forall|j: int| 0 <= j < i ==> self.entries_view()[j].id != id,
            r is None ==> forall|j: int|
                0 <= j < self.entries_view().len() ==> self.entries_view()[j].id != id,
    {
        let mut i: usize = 0;
        while i < self.entries.len()
            invariant
                i <= self.entries@.len(),
                forall|j: int| 0 <= j < i ==> self.entries@[j].id != id,
            decreases self.entries@.len() - i,
        {
            if self.entries[i].id == id {
                return Some(i);
            }
            i += 1;
        }
        None
    }

    /// The entry that plays after the current one: the next position, or
    /// the first one when the whole queue repeats.
    pub fn next_entry(&self) -> (r: Option<&QueueEntry<T>>)
        requires
            self.wf(),
        ensures
            r is Some <==> (self.next_pos_spec() matches Some(p) && self.entry_spec(p) is Some),
            r matches Some(e) ==> *e == self.entry_spec(self.next_pos_spec()->0)->0,
    {
        if self.entries.len() == 0 {
            return None;
        }
        let c = self.cursor_index();
        if c + 1 < self.order.len() {
            return self.entry_at(c + 1);
        }
        if self.repeat == RepeatMode::All {
            return self.entry_at(0);
        }
        None
    }

    /// Moves the cursor to the position that `next_entry` names.
    pub fn advance_cursor(&mut self)
        requires
            old(self).wf(),
        ensures
            final(self).wf(),
            final(self).entries_view() == old(self).entries_view(),
            final(self).order_view() == old(self).order_view(),
            final(self).shuffle_view() == old(self).shuffle_view(),
            final(self).repeat_view() == old(self).repeat_view(),
            final(self).cursor_view() == old(self).advanced_cursor(),
    {
        let c = self.cursor_index();
        if c + 1 < self.order.len() {
            self.cursor = (c + 1) as i64;
        } else if self.repeat == RepeatMode::All {
            self.cursor = 0;
        }
    }

    /// Rebuilds the playback order: the identity, or, when shuffling is on,
    /// the Fisher-Yates shuffle of the draws made with `random_index_upto`.
    fn set_playback_order(&mut self)
        requires
            old(self).wf(),
        ensures
            final(self).entries_view() == old(self).entries_view(),
            final(self).cursor_view() == old(self).cursor_view(),
            final(self).shuffle_view() == old(self).shuffle_view(),
            final(self).repeat_view() == old(self).repeat_view(),
            is_permutation_of_range(final(self).order_view(), old(self).entries_view().len()),
            !old(self).shuffle_view() ==> final(self).order_view() == identity_order(
                old(self).entries_view().len(),
            ),
            old(self).shuffle_view() ==> exists|d: Seq<usize>|
                valid_draws(old(self).entries_view().len(), d) && #[trigger] fisher_yates(
                    old(self).entries_view().len(),
                    d,
                ) == final(self).order_view(),
            final(self).wf(),
    {
        let n = self.entries.len();
        if !self.shuffle {
            self.order = identity_vec(n);
            proof {
                lemma_fisher_yates_permutation(n as nat, Seq::empty());
            }
            return;
        }
        let mut draws: Vec<usize> = Vec::new();
        if n > 0 {
            let mut k: usize = 0;
            while k < n - 1
                invariant
                    n > 0,
                    k <= n - 1,
                    draws@.len() == k,
                    draws_fit(n as nat, draws@),
                decreases n - 1 - k,
            {
                let j = random_index_upto(n - 1 - k);
                draws.push(j);
                proof {
                    assert forall|q: int| 0 <= q < draws@.len() implies (#[trigger] draws@[q]) + q
                        < n by {
                        if q < k {
                            assert(draws@[q] == draws@.drop_last()[q]);
                        }
                    }
                }
                k += 1;
            }
        }
        self.order = shuffled_order(n, &draws);
    }

    /// Replaces the queue with `tracks` and puts the cursor on queue index
    /// `start_index` (clamped to the last entry). Nothing changes, and
    /// `false` is returned, when `tracks` is empty.
    pub fn play_context(&mut self, tracks: Vec<QueueEntry<T>>, start_index: usize) -> (started:
        bool)
        requires
            old(self).wf(),
            tracks@.len() <= i64::MAX,
        ensures
            final(self).wf(),
            started == (tracks@.len() > 0),
            !started ==> *final(self) == *old(self),
            started ==> {
                let start = if start_index < tracks@.len() {
                    start_index as int
                } else {
                    tracks@.len() - 1
                };
                &&& final(self).entries_view() == tracks@
                &&& is_permutation_of_range(final(self).order_view(), tracks@.len())
                &&& (!old(self).shuffle_view() ==> final(self).order_view() == identity_order(
                    tracks@.len(),
                ))
                &&& (old(self).shuffle_view() ==> exists|d: Seq<usize>|
                    valid_draws(tracks@.len(), d) && #[trigger] fisher_yates(tracks@.len(), d)
                        == final(self).order_view())
                &&& 0 <= final(self).cursor_view() < tracks@.len()
                &&& final(self).order_view()[final(self).cursor_view()] == start
                &&& final(self).entry_spec(final(self).cursor_view()) == Some(tracks@[start])
                &&& final(self).shuffle_view() == old(self).shuffle_view()
                &&& final(self).repeat_view() == old(self).repeat_view()
            },
    {
        if tracks.len() == 0 {
            return false;
        }
        let n = tracks.len();
        self.entries = tracks;
        self.order = Vec::new();
        self.cursor = 0;
        self.set_playback_order();
        let start = if start_index < n {
            start_index
        } else {
            n - 1
        };
        proof {
            assert(self.order@.contains(start));
        }
        let pos = match self.position_of_queue_index(start) {
            Some(p) => p,
            None => 0,
        };
        self.cursor = pos as i64;
        true
    }

    /// Puts the cursor on the track with id `id` if it is queued (returns
    /// `true`); otherwise empties the queue with the cursor at `0` (returns
    /// `false`), ready for `load_single`.
    pub fn select_track(&mut self, id: i64) -> (found: bool)
        requires
            old(self).wf(),
        ensures
            final(self).wf(),
            final(self).shuffle_view() == old(self).shuffle_view(),
            final(self).repeat_view() == old(self).repeat_view(),
            found <==> exists|i: int|
                first_with_id(old(self).entries_view(), id, i) && old(self).order_view().contains(
                    i as usize,
                ),
            found ==> {
                &&& final(self).entries_view() == old(self).entries_view()
                &&& final(self).order_view() == old(self).order_view()
                &&& final(self).entry_spec(final(self).cursor_view()) matches Some(e) && e.id == id
                &&& exists|i: int|
                    first_with_id(old(self).entries_view(), id, i) && final(self).order_view()[
                        final(self).cursor_view()] == i && forall|q: int|
                        0 <= q < final(self).cursor_view() ==> final(self).order_view()[q] != i
            },
            !found ==> {
                &&& final(self).entries_view().len() == 0
                &&& final(self).order_view().len() == 0
                &&& final(self).cursor_view() == 0
            },
    {
        let ghost es = self.entries@;
        let ghost ord = self.order@;
        let first = self.find_by_id(id);
        let found = match first {
            Some(i) => self.position_of_queue_index(i),
            None => None,
        };
        proof {
            match first {
                Some(i) => {
                    assert(first_with_id(es, id, i as int));
                    assert forall|k: int| first_with_id(es, id, k) implies k == i by {
                        if k < i {
                            assert(es[k].id != id);
                        } else if k > i {
                            assert(es[i as int].id != id);
                        }
                    }
                },
                None => {
                    assert(es == self.entries_view());
                    assert forall|k: int| !first_with_id(es, id, k) by {
                        if 0 <= k < es.len() {
                            assert(self.entries_view()[k].id != id);
                        }
                    }
                },
            }
        }
        match found {
            Some(p) => {
                self.cursor = p as i64;
                proof {
                    let i = first->0;
                    assert(first_with_id(es, id, i as int));
                    assert(ord[p as int] == i);
                    assert(ord.contains(i));
                }
                true
            },
            None => {
                self.entries = Vec::new();
                self.order = Vec::new();
                self.cursor = 0;
                false
            },
        }
    }

    /// Makes `entry` the whole queue, with the cursor on it.
    pub fn load_single(&mut self, entry: QueueEntry<T>)
        requires
            old(self).wf(),
        ensures
            final(self).wf(),
            final(self).entries_view() == seq![entry],
            final(self).order_view() == seq![0usize],
            final(self).cursor_view() == 0,
            final(self).shuffle_view() == old(self).shuffle_view(),
            final(self).repeat_view() == old(self).repeat_view(),
    {
        let mut entries: Vec<QueueEntry<T>> = Vec::new();
        entries.push(entry);
        let mut order: Vec<usize> = Vec::new();
        order.push(0);
        self.entries = entries;
        self.order = order;
        self.cursor = 0;
    }

    /// Steps the cursor back one position (wrapping to the end when the
    /// whole queue repeats), unless more than three seconds of the current
    /// track have played: then `false` is returned, nothing changes and the
    /// current track is to be restarted instead.
    pub fn previous(&mut self, position_ms: u64) -> (moved: bool)
        requires
            old(self).wf(),
        ensures
            final(self).wf(),
            moved == (position_ms <= 3000),
            final(self).entries_view() == old(self).entries_view(),
            final(self).order_view() == old(self).order_view(),
            final(self).shuffle_view() == old(self).shuffle_view(),
            final(self).repeat_view() == old(self).repeat_view(),
            !moved ==> final(self).cursor_view() == old(self).cursor_view(),
            moved ==> final(self).cursor_view() == old(self).previous_cursor(),
    {
        if position_ms > 3000 {
            return false;
        }
        let c = self.cursor_index();
        if c > 0 {
            self.cursor = (c - 1) as i64;
        } else if self.repeat == RepeatMode::All {
            self.cursor = self.order.len() as i64 - 1;
        } else {
            self.cursor = 0;
        }
        true
    }

    /// Turns shuffling on or off. On a change the playback order is
    /// rebuilt and, when `current_id` is queued, the cursor follows that
    /// track. Returns whether anything changed.
    pub fn set_shuffle(&mut self, on: bool, current_id: Option<i64>) -> (changed: bool)
        requires
            old(self).wf(),
        ensures
            final(self).wf(),
            changed == (old(self).shuffle_view() != on),
            final(self).shuffle_view() == on,
            final(self).entries_view() == old(self).entries_view(),
            final(self).repeat_view() == old(self).repeat_view(),
            !changed ==> *final(self) == *old(self),
            changed ==> is_permutation_of_range(
                final(self).order_view(),
                old(self).entries_view().len(),
            ),
            changed && on ==> exists|d: Seq<usize>|
                valid_draws(old(self).entries_view().len(), d) && #[trigger] fisher_yates(
                    old(self).entries_view().len(),
                    d,
                ) == final(self).order_view(),
            changed && !on ==> final(self).order_view() == identity_order(
                old(self).entries_view().len(),
            ),
            changed ==> (current_id matches Some(id) && exists|j: int|
                0 <= j < old(self).entries_view().len() && old(self).entries_view()[j].id == id)
                ==> (final(self).entry_spec(final(self).cursor_view()) matches Some(e) && e.id
                == current_id->0),
            changed ==> (current_id matches Some(id) && exists|j: int|
                0 <= j < old(self).entries_view().len() && old(self).entries_view()[j].id == id)
                ==> exists|i: int|
                first_with_id(old(self).entries_view(), current_id->0, i)
                    && final(self).order_view()[final(self).cursor_view()] == i,
            changed ==> !(current_id matches Some(id) && exists|j: int|
                0 <= j < old(self).entries_view().len() && old(self).entries_view()[j].id == id)
                ==> final(self).cursor_view() == old(self).cursor_view(),
    {
        if self.shuffle == on {
            return false;
        }
        self.shuffle = on;
        self.set_playback_order();
        if let Some(id) = current_id {
            if let Some(pos) = self.find_by_id(id) {
                proof {
                    assert(self.order@.contains(pos));
                    assert(old(self).entries_view()[pos as int].id == id);
                    assert(first_with_id(old(self).entries_view(), id, pos as int));
                }
                let p = match self.position_of_queue_index(pos) {
                    Some(p) => p,
                    None => 0,
                };
                self.cursor = p as i64;
            }
        }
        true
    }

    /// Appends `tracks` to the queue and to the end of the playback order.
    /// Returns `true` when nothing is playing and the queue is not empty:
    /// the cursor is then reset and queue index `0` is to be started.
    pub fn append(&mut self, tracks: Vec<QueueEntry<T>>, nothing_playing: bool) -> (start_first:
        bool)
        requires
            old(self).wf(),
            old(self).entries_view().len() + tracks@.len() <= i64::MAX,
        ensures
            final(self).wf(),
            final(self).entries_view() == old(self).entries_view() + tracks@,
            final(self).order_view() == old(self).order_view() + Seq::new(
                tracks@.len(),
                |k: int| (old(self).entries_view().len() + k) as usize,
            ),
            start_first == (nothing_playing && final(self).entries_view().len() > 0),
            start_first ==> final(self).cursor_view() == 0,
            !start_first ==> final(self).cursor_view() == old(self).cursor_view(),
            final(self).shuffle_view() == old(self).shuffle_view(),
            final(self).repeat_view() == old(self).repeat_view(),
    {
        let start_len = self.entries.len();
        let ghost old_order = self.order@;
        let mut tracks = tracks;
        let ghost added = tracks@;
        self.entries.append(&mut tracks);
        let end = self.entries.len();
        let mut i = start_len;
        while i < end
            invariant
                start_len <= i <= end,
                end == self.entries@.len(),
                end == start_len + added.len(),
                self.order@ == old_order + Seq::new(
                    (i - start_len) as nat,
                    |k: int| (start_len + k) as usize,
                ),
                self.entries@ == old(self).entries@ + added,
                self.cursor == old(self).cursor,
                self.shuffle == old(self).shuffle,
                self.repeat == old(self).repeat,
                old_order == old(self).order@,
                old_order.no_duplicates(),
                forall|p: int| 0 <= p < old_order.len() ==> (#[trigger] old_order[p]) < start_len,
            decreases end - i,
        {
            self.order.push(i);
            proof {
                assert(old_order + Seq::new(
                    (i + 1 - start_len) as nat,
                    |k: int| (start_len + k) as usize,
                ) =~= (old_order + Seq::new(
                    (i - start_len) as nat,
                    |k: int| (start_len + k) as usize,
                )).push(i));
            }
            i += 1;
        }
        proof {
            assert forall|p: int, q: int|
                0 <= p < self.order@.len() && 0 <= q < self.order@.len() && p != q implies
                self.order@[p] != self.order@[q] by {
                if p < old_order.len() && q >= old_order.len() {
                    assert(self.order@[p] == old_order[p]);
                } else if q < old_order.len() && p >= old_order.len() {
                    assert(self.order@[q] == old_order[q]);
                }
            }
        }
        if nothing_playing && end > 0 {
            self.cursor = 0;
            true
        } else {
            false
        }
    }

    /// Empties the queue.
    pub fn clear(&mut self)
        requires
            old(self).wf(),
        ensures
            final(self).wf(),
            final(self).entries_view().len() == 0,
            final(self).order_view().len() == 0,
            final(self).cursor_view() == -1,
            final(self).shuffle_view() == old(self).shuffle_view(),
            final(self).repeat_view() == old(self).repeat_view(),
    {
        self.entries.clear();
        self.order.clear();
        self.cursor = -1;
    }

    /// Removes playback position `pos` from the order (the entry stays in
    /// the queue). A cursor past the new end moves to the last position.
    pub fn remove_at(&mut self, pos: usize) -> (outcome: RemoveOutcome)
        requires
            old(self).wf(),
        ensures
            final(self).wf(),
            final(self).entries_view() == old(self).entries_view(),
            final(self).shuffle_view() == old(self).shuffle_view(),
            final(self).repeat_view() == old(self).repeat_view(),
            pos >= old(self).order_view().len() ==> outcome == RemoveOutcome::Ignored && *final(self) == *old(self),
            pos < old(self).order_view().len() ==> {
                &&& final(self).order_view() == old(self).order_view().remove(pos as int)
                &&& outcome == (if pos == old(self).cursor_pos() {
                    RemoveOutcome::RemovedCurrent
                } else {
                    RemoveOutcome::Removed
                })
                &&& final(self).cursor_view() == (if final(self).order_view().len() == 0 {
                    -1
                } else if old(self).cursor_view() < 0 || old(self).cursor_view() >= final(self).order_view().len() {
                    final(self).order_view().len() - 1
                } else {
                    old(self).cursor_view()
                })
            },
    {
        if pos >= self.order.len() {
            return RemoveOutcome::Ignored;
        }
        let c = self.cursor_index();
        let outcome = if pos == c {
            RemoveOutcome::RemovedCurrent
        } else {
            RemoveOutcome::Removed
        };
        let ghost old_order = self.order@;
        self.order.remove(pos);
        proof {
            assert forall|p: int| 0 <= p < self.order@.len() implies (#[trigger] self.order@[p])
                < self.entries@.len() by {
                if p < pos {
                    assert(self.order@[p] == old_order[p]);
                } else {
                    assert(self.order@[p] == old_order[p + 1]);
                }
            }
            assert forall|p: int, q: int|
                0 <= p < self.order@.len() && 0 <= q < self.order@.len() && p != q implies
                self.order@[p] != self.order@[q] by {
                let pp = if p < pos {
                    p
                } else {
                    p + 1
                };
                let qq = if q < pos {
                    q
                } else {
                    q + 1
                };
                assert(self.order@[p] == old_order[pp]);
                assert(self.order@[q] == old_order[qq]);
            }
        }
        if self.order.len() == 0 {
            self.cursor = -1;
        } else if self.cursor < 0 || self.cursor as usize >= self.order.len() {
            self.cursor = self.order.len() as i64 - 1;
        }
        outcome
    }

    /// Moves the entry at playback position `from` to position `to`; the
    /// cursor keeps pointing at the same entry. Returns whether anything
    /// moved (both positions in range and different).
    pub fn move_item(&mut self, from: usize, to: usize) -> (moved: bool)
        requires
            old(self).wf(),
        ensures
            final(self).wf(),
            final(self).entries_view() == old(self).entries_view(),
            final(self).shuffle_view() == old(self).shuffle_view(),
            final(self).repeat_view() == old(self).repeat_view(),
            moved == (from < old(self).order_view().len() && to < old(self).order_view().len()
                && from != to),
            !moved ==> *final(self) == *old(self),
            moved ==> final(self).order_view() == old(self).order_view().remove(from as int).insert(
                to as int,
                old(self).order_view()[from as int],
            ),
            moved ==> final(self).order_view()[final(self).cursor_view()] == old(self).order_view()[
                old(self).cursor_pos()],
            moved ==> final(self).entry_spec(final(self).cursor_view()) == old(self).entry_spec(
                old(self).cursor_pos(),
            ),
            moved ==> 0 <= final(self).cursor_view() < final(self).order_view().len(),
    {
        if !(from < self.order.len() && to < self.order.len() && from != to) {
            return false;
        }
        let c = self.cursor_index();
        let ghost old_order = self.order@;
        let item = self.order.remove(from);
        self.order.insert(to, item);
        let ghost mid = old_order.remove(from as int);
        proof {
            assert(self.order@ == mid.insert(to as int, item));
        }
        let new_c: usize = if c == from {
            to
        } else if from < to && c > from && c <= to {
            c - 1
        } else if to < from && c >= to && c < from {
            c + 1
        } else {
            c
        };
        self.cursor = new_c as i64;
        proof {
            assert(self.order@[new_c as int] == old_order[c as int]);
            assert forall|p: int| 0 <= p < self.order@.len() implies (#[trigger] self.order@[p])
                < self.entries@.len() by {
                lemma_move_index(old_order, from as int, to as int, p);
            }
            assert forall|p: int, q: int|
                0 <= p < self.order@.len() && 0 <= q < self.order@.len() && p != q implies
                self.order@[p] != self.order@[q] by {
                lemma_move_index(old_order, from as int, to as int, p);
                lemma_move_index(old_order, from as int, to as int, q);
            }
        }
        true
    }

    /// The playback positions `[start, end)` mirrored into the UI: all of
    /// them, or a window of `MAX_VISIBLE_QUEUE` around the cursor.
    pub fn visible_window(&self) -> (r: (usize, usize))
        requires
            self.wf(),
        ensures
            r.0 == (if self.order_view().len() > MAX_VISIBLE_QUEUE {
                if self.cursor_pos() >= MAX_VISIBLE_QUEUE / 2 {
                    self.cursor_pos() - MAX_VISIBLE_QUEUE / 2
                } else {
                    0
                }
            } else {
                0
            }),
            r.1 == (if self.order_view().len() < r.0 + MAX_VISIBLE_QUEUE {
                self.order_view().len() as int
            } else {
                r.0 + MAX_VISIBLE_QUEUE
            }),
            r.0 <= r.1 <= self.order_view().len(),
    {
        let n = self.order.len();
        let c = self.cursor_index();
        let start = if n > MAX_VISIBLE_QUEUE {
            if c >= MAX_VISIBLE_QUEUE / 2 {
                c - MAX_VISIBLE_QUEUE / 2
            } else {
                0
            }
        } else {
            0
        };
        let end = if n - start < MAX_VISIBLE_QUEUE {
            n
        } else {
            start + MAX_VISIBLE_QUEUE
        };
        (start, end)
    }

    /// The entries at the visible playback positions, in playback order.
    pub fn visible_entries(&self) -> (v: Vec<&QueueEntry<T>>)
        requires
            self.wf(),
        ensures
            ({
                let start = if self.order_view().len() > MAX_VISIBLE_QUEUE {
                    if self.cursor_pos() >= MAX_VISIBLE_QUEUE / 2 {
                        self.cursor_pos() - MAX_VISIBLE_QUEUE / 2
                    } else {
                        0
                    }
                } else {
                    0
                };
                &&& v@.len() <= MAX_VISIBLE_QUEUE
                &&& forall|k: int|
                    0 <= k < v@.len() ==> *v@[k] == self.entry_spec(start + k)->0
                    && self.entry_spec(start + k) is Some
                &&& v@.len() == (if self.order_view().len() < start + MAX_VISIBLE_QUEUE {
                    self.order_view().len() - start
                } else {
                    MAX_VISIBLE_QUEUE as int
                })
            }),
    {
        let (start, end) = self.visible_window();
        let mut v: Vec<&QueueEntry<T>> = Vec::new();
        let mut i = start;
        while i < end
            invariant
                self.wf(),
                start <= i <= end <= self.order@.len(),
                end - start <= MAX_VISIBLE_QUEUE,
                v@.len() == i - start,
                forall|k: int|
                    0 <= k < v@.len() ==> *v@[k] == self.entry_spec(start + k)->0
                    && self.entry_spec(start + k) is Some,
            decreases end - i,
        {
            let idx = self.order[i];
            v.push(&self.entries[idx]);
            i += 1;
        }
        v
    }
}

/// The conditions the engine keeps on its queue: every playback position
/// names a queued track, no track is named twice, the cursor is at least
/// `-1`, and on a non-empty order the cursor is one of its positions.
pub open spec fn queue_conditions<T>(q: PlayQueue<T>) -> bool {
    &&& forall|p: int|
        0 <= p < q.order_view().len() ==> (#[trigger] q.order_view()[p]) < q.entries_view().len()
    &&& q.order_view().no_duplicates()
    &&& q.cursor_view() >= -1
    &&& (q.order_view().len() == 0 || q.cursor_view() < q.order_view().len())
}

/// Every queue operation keeps the queue well-formed (each one ensures
/// `wf`), and a well-formed queue meets the engine's queue conditions; so
/// those conditions hold after every command the engine carries out on
/// its queue.
pub proof fn lemma_wf_gives_queue_conditions<T>(q: PlayQueue<T>)
    requires
        q.wf(),
    ensures
        queue_conditions(q),
{
}

/// Advancing the cursor lands exactly on the entry that `next_entry`
/// announced: the track that is started after a track ends is the one the
/// queue reported as next.
pub proof fn lemma_advance_lands_on_next<T>(q: PlayQueue<T>)
    requires
        q.wf(),
        q.next_pos_spec() is Some,
    ensures
        q.advanced_cursor() == q.next_pos_spec()->0,
{
}

/// Going to the next track and then back to the previous one returns to
/// the track that was playing, whenever a next track existed: `q2` is `q`
/// after advancing its cursor.
pub proof fn lemma_next_then_previous<T>(q: PlayQueue<T>, q2: PlayQueue<T>)
    requires
        q.wf(),
        q.next_pos_spec() matches Some(p) && q.entry_spec(p) is Some,
        q2.order_view() == q.order_view(),
        q2.repeat_view() == q.repeat_view(),
        q2.cursor_view() == q.advanced_cursor(),
    ensures
        q2.previous_cursor() == q.cursor_pos(),
{
}

/// When the whole queue repeats, playback never runs out of tracks: as
/// long as the order is not empty there is always a next entry.
pub proof fn lemma_repeat_all_always_has_next<T>(q: PlayQueue<T>)
    requires
        q.wf(),
        q.repeat_view() == RepeatMode::All,
        q.order_view().len() > 0,
    ensures
        q.next_pos_spec() matches Some(p) && q.entry_spec(p) is Some,
{
    assert(q.entries_view().len() > 0) by {
        assert(q.order_view()[0] < q.entries_view().len());
    }
}

/// Swapping two positions of a permutation gives a permutation.
proof fn lemma_swap_permutation(s: Seq<usize>, a: int, b: int, n: nat)
    requires
        is_permutation_of_range(s, n),
        0 <= a < n,
        0 <= b < n,
    ensures
        is_permutation_of_range(s.update(a, s[b]).update(b, s[a]), n),
{
    let t = s.update(a, s[b]).update(b, s[a]);
    assert forall|p: int| 0 <= p < t.len() implies (#[trigger] t[p]) < n by {
        if p != a && p != b {
            assert(t[p] == s[p]);
        }
    }
    assert forall|p: int, q: int| 0 <= p < t.len() && 0 <= q < t.len() && p != q implies t[p]
        != t[q] by {
        let pp = if p == a {
            b
        } else if p == b {
            a
        } else {
            p
        };
        let qq = if q == a {
            b
        } else if q == b {
            a
        } else {
            q
        };
        assert(t[p] == s[pp]);
        assert(t[q] == s[qq]);
    }
    assert forall|k: usize| k < n implies #[trigger] t.contains(k) by {
        assert(s.contains(k));
        let p = choose|p: int| 0 <= p < s.len() && s[p] == k;
        let pp = if p == a {
            b
        } else if p == b {
            a
        } else {
            p
        };
        assert(t[pp] == k);
    }
}

/// Where position `p` of the order after moving `from` to `to` came from.
proof fn lemma_move_index(s: Seq<usize>, from: int, to: int, p: int)
    requires
        0 <= from < s.len(),
        0 <= to < s.len(),
        0 <= p < s.len(),
    ensures
        ({
            let t = s.remove(from).insert(to, s[from]);
            let src = if p == to {
                from
            } else if from < to && from <= p < to {
                p + 1
            } else if to < from && to < p <= from {
                p - 1
            } else {
                p
            };
            t.len() == s.len() && t[p] == s[src]
        }),
{
}

} // verus!
