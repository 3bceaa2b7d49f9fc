//! Ordered playlist with cursor-based traversal.
//!
//! The playlist owns an ordered sequence of entries, an optional cursor, a
//! derived shuffle order (a deterministic permutation of the valid indices),
//! a repeat mode and a shuffle mode. Traversal (`get_next_track` /
//! `get_previous_track`) walks the linear order or the shuffle order and
//! wraps at the ends only under `RepeatMode::All`.
//!
//! Two deliberate decisions, both documented at the functions concerned:
//! `RepeatMode::One` is accepted as a mode value but is given no special
//! traversal behaviour, and removing an entry clamps an out-of-range cursor
//! to the new last index (or clears it when the playlist becomes empty).

use vstd::prelude::*;

verus! {

use crate::AmpereError;
use vstd::string::StringExecFns;

/// Abstract value of a [`PlaylistEntry`]: every text field as a sequence of
/// characters.
#[verifier::ext_equal]
pub struct EntryView {
    pub path: Seq<char>,
    pub title: Option<Seq<char>>,
    pub artist: Option<Seq<char>>,
    pub album: Option<Seq<char>>,
    pub duration: Option<u64>,
}

/// One playable item: a file path plus optional metadata.
pub struct PlaylistEntry {
    pub path: String,
    pub title: Option<String>,
    pub artist: Option<String>,
    pub album: Option<String>,
    pub duration: Option<u64>,
}

impl View for PlaylistEntry {
    type V = EntryView;

    open spec fn view(&self) -> EntryView {
        EntryView {
            path: self.path@,
            title: match self.title {
                Some(s) => Some(s@),
                None => None,
            },
            artist: match self.artist {
                Some(s) => Some(s@),
                None => None,
            },
            album: match self.album {
                Some(s) => Some(s@),
                None => None,
            },
            duration: self.duration,
        }
    }
}

impl DeepView for PlaylistEntry {
    type V = EntryView;

    open spec fn deep_view(&self) -> EntryView {
        self.view()
    }
}

impl Clone for PlaylistEntry {
    fn clone(&self) -> (r: Self)
        ensures
            r@ == self@,
    {
        PlaylistEntry {
            path: self.path.clone(),
            title: match &self.title {
                Some(s) => Some(s.clone()),
                None => None,
            },
            artist: match &self.artist {
                Some(s) => Some(s.clone()),
                None => None,
            },
            album: match &self.album {
                Some(s) => Some(s.clone()),
                None => None,
            },
            duration: self.duration,
        }
    }
}

/// Policy for what happens when traversal reaches a boundary of the order.
#[derive(Debug, Clone, Copy, PartialEq, Eq, Structural)]
pub enum RepeatMode {
    /// Stop at the boundary of the order.
    Off,
    /// Accepted as a mode value; traversal gives it no behaviour of its own
    /// and treats it like [`RepeatMode::Off`].
    One,
    /// Wrap around at the boundary of the order.
    All,
}

/// Whether traversal follows the linear order or the shuffle order.
#[derive(Debug, Clone, Copy, PartialEq, Eq, Structural)]
pub enum ShuffleMode {
    Off,
    On,
}

/// Error kinds of the fallible playlist operations.
#[derive(Debug, Clone, Copy, PartialEq, Eq, Structural)]
pub enum PlaylistError {
    /// The file named at add-time does not exist.
    NotFound,
    /// An index at or past the entry count was given.
    OutOfRange,
    /// The text handed to `load_from_json` is not a playlist document.
    PersistenceError,
}

/// Abstract state of a [`Playlist`].
#[verifier::ext_equal]
pub struct PlaylistView {
    pub entries: Seq<EntryView>,
    pub current_index: Option<usize>,
    pub shuffle_order: Seq<usize>,
    pub repeat_mode: RepeatMode,
    pub shuffle_mode: ShuffleMode,
}

/// Ordered collection of entries with cursor-based traversal.
pub struct Playlist {
    entries: Vec<PlaylistEntry>,
    current_index: Option<usize>,
    shuffle_order: Vec<usize>,
    repeat_mode: RepeatMode,
    shuffle_mode: ShuffleMode,
}

impl View for Playlist {
    type V = PlaylistView;

    closed spec fn view(&self) -> PlaylistView {
        PlaylistView {
            entries: self.entries.deep_view(),
            current_index: self.current_index,
            shuffle_order: self.shuffle_order@,
            repeat_mode: self.repeat_mode,
            shuffle_mode: self.shuffle_mode,
        }
    }
}

/// The identity permutation of `0..n`.
pub open spec fn identity_order(n: nat) -> Seq<usize> {
    Seq::new(n, |i: int| i as usize)
}

/// `s` with the elements at positions `a` and `b` exchanged.
pub open spec fn swap_at(s: Seq<usize>, a: int, b: int) -> Seq<usize> {
    s.update(a, s[b]).update(b, s[a])
}

/// The identity permutation of `0..n` after the first `k` swap steps:
/// step `i` exchanges positions `i` and `(i + n/3) mod n`.
pub open spec fn swaps_prefix(n: nat, k: nat) -> Seq<usize>
    decreases k,
{
    if k == 0 {
        identity_order(n)
    } else {
        let prev = swaps_prefix(n, (k - 1) as nat);
        swap_at(prev, k - 1, ((k - 1) + n / 3) % (n as int))
    }
}

/// The shuffle order of a playlist of `n` entries: a deterministic
/// pseudo-shuffle, a function of `n` alone (no seed and no randomness), so
/// that rebuilding it after any mutation depends only on the new length.
pub open spec fn shuffle_order_spec(n: nat) -> Seq<usize> {
    swaps_prefix(n, n)
}

/// `s` is a permutation of `0..n`: each of the `n` indices occurs exactly
/// once.
pub open spec fn is_index_permutation(s: Seq<usize>, n: nat) -> bool {
    &&& s.len() == n
    &&& forall|i: int| 0 <= i < s.len() ==> (#[trigger] s[i]) < n
    &&& forall|v: usize| v < n ==> s.contains(v)
    &&& s.no_duplicates()
}

proof fn lemma_identity_is_permutation(n: nat)
    requires
        n <= usize::MAX,
    ensures
        is_index_permutation(identity_order(n), n),
{
    let s = identity_order(n);
    assert forall|v: usize| v < n implies s.contains(v) by {
        assert(s[v as int] == v);
    }
    assert forall|i: int, j: int|
        0 <= i < s.len() && 0 <= j < s.len() && i != j implies s[i] != s[j] by {
        assert(s[i] == i as usize);
        assert(s[j] == j as usize);
    }
    assert(s.no_duplicates());
}

proof fn lemma_swap_preserves_permutation(s: Seq<usize>, n: nat, a: int, b: int)
    requires
        is_index_permutation(s, n),
        0 <= a < s.len(),
        0 <= b < s.len(),
    ensures
        is_index_permutation(swap_at(s, a, b), n),
{
    let t = swap_at(s, a, b);
    assert(t[b] == s[a]);
    assert forall|i: int| 0 <= i < t.len() implies (#[trigger] t[i]) < n by {
        if i != a && i != b {
            assert(t[i] == s[i]);
        }
    }
    assert forall|v: usize| v < n implies t.contains(v) by {
        assert(s.contains(v));
        let w = choose|w: int| 0 <= w < s.len() && s[w] == v;
        if w == b {
            if a == b {
                assert(t[b] == v);
            } else {
                assert(t[a] == v);
            }
        } else if w == a {
            assert(t[b] == v);
        } else {
            assert(t[w] == v);
        }
        assert(t.contains(v));
    }
    assert forall|i: int, j: int|
        0 <= i < t.len() && 0 <= j < t.len() && i != j implies t[i] != t[j] by {
        let si = if i == b { a } else if i == a { b } else { i };
        let sj = if j == b { a } else if j == a { b } else { j };
        assert(t[i] == s[si]);
        assert(t[j] == s[sj]);
        assert(si != sj);
    }
    assert(t.no_duplicates());
}

proof fn lemma_swaps_prefix_is_permutation(n: nat, k: nat)
    requires
        n <= usize::MAX,
        k <= n,
    ensures
        is_index_permutation(swaps_prefix(n, k), n),
    decreases k,
{
    if k != 0 {
        lemma_swaps_prefix_is_permutation(n, (k - 1) as nat);
        let prev = swaps_prefix(n, (k - 1) as nat);
        let j = ((k - 1) + n / 3) % (n as int);
        vstd::arithmetic::div_mod::lemma_mod_bound((k - 1) + n / 3, n as int);
        lemma_swap_preserves_permutation(prev, n, k - 1, j);
    } else {
        lemma_identity_is_permutation(n);
    }
}

/// The shuffle order of any entry count `n` is a permutation of `0..n`: it
/// has length `n`, holds only indices below `n`, holds every such index, and
/// holds no index twice.
pub proof fn lemma_shuffle_order_is_permutation(n: nat)
    requires
        n <= usize::MAX,
    ensures
        is_index_permutation(shuffle_order_spec(n), n),
{
    lemma_swaps_prefix_is_permutation(n, n);
}

/// Well-formedness of a playlist state: the shuffle order is the one derived
/// from the entry count, and the cursor, when present, is a valid index.
pub open spec fn view_inv(p: PlaylistView) -> bool {
    &&& p.shuffle_order == shuffle_order_spec(p.entries.len())
    &&& match p.current_index {
        Some(c) => c < p.entries.len(),
        None => true,
    }
}

/// The entry appended by `add_file`: the given path, no metadata.
pub open spec fn fresh_entry(path: Seq<char>) -> EntryView {
    EntryView { path: path, title: None, artist: None, album: None, duration: None }
}

/// Cursor after a removal that shrank the entries to `new_len`: unchanged
/// while still in range, clamped to the new last index when past the end,
/// cleared when nothing is left.
pub open spec fn clamped_cursor(cur: Option<usize>, new_len: nat) -> Option<usize> {
    match cur {
        None => None,
        Some(c) => if (c as nat) < new_len {
            Some(c)
        } else if new_len == 0 {
            None
        } else {
            Some((new_len - 1) as usize)
        },
    }
}

/// The index `get_next_track` moves to, or none when traversal is exhausted:
/// one step forward in the linear order (shuffle off) or in the shuffle
/// order (shuffle on), wrapping to the front only under `RepeatMode::All`.
/// Without a cursor, or on an empty playlist, there is no next index.
pub open spec fn next_index_spec(p: PlaylistView) -> Option<usize> {
    if p.entries.len() == 0 {
        None
    } else {
        match p.current_index {
            None => None,
            Some(c) => if p.shuffle_mode == ShuffleMode::On {
                match p.shuffle_order.index_of_first(c) {
                    None => None,
                    Some(pos) => if pos + 1 < p.shuffle_order.len() {
                        Some(p.shuffle_order[pos + 1])
                    } else if p.repeat_mode == RepeatMode::All {
                        Some(p.shuffle_order[0])
                    } else {
                        None
                    },
                }
            } else {
                if c + 1 < p.entries.len() {
                    Some((c + 1) as usize)
                } else if p.repeat_mode == RepeatMode::All {
                    Some(0usize)
                } else {
                    None
                }
            },
        }
    }
}

/// The index `get_previous_track` moves to: the mirror image of
/// [`next_index_spec`], one step backward, wrapping to the back only under
/// `RepeatMode::All`.
pub open spec fn prev_index_spec(p: PlaylistView) -> Option<usize> {
    if p.entries.len() == 0 {
        None
    } else {
        match p.current_index {
            None => None,
            Some(c) => if p.shuffle_mode == ShuffleMode::On {
                match p.shuffle_order.index_of_first(c) {
                    None => None,
                    Some(pos) => if pos > 0 {
                        Some(p.shuffle_order[pos - 1])
                    } else if p.repeat_mode == RepeatMode::All {
                        Some(p.shuffle_order[p.shuffle_order.len() - 1])
                    } else {
                        None
                    },
                }
            } else {
                if c > 0 {
                    Some((c - 1) as usize)
                } else if p.repeat_mode == RepeatMode::All {
                    Some((p.entries.len() - 1) as usize)
                } else {
                    None
                }
            },
        }
    }
}

/// The state after one `get_next_track` call: the cursor moves to the next
/// index when there is one; otherwise nothing changes.
pub open spec fn advance_view(p: PlaylistView) -> PlaylistView {
    match next_index_spec(p) {
        Some(idx) => PlaylistView { current_index: Some(idx), ..p },
        None => p,
    }
}

/// The state after one `get_previous_track` call.
pub open spec fn retreat_view(p: PlaylistView) -> PlaylistView {
    match prev_index_spec(p) {
        Some(idx) => PlaylistView { current_index: Some(idx), ..p },
        None => p,
    }
}

/// Advancing and then immediately retreating returns the cursor to its
/// prior index, in both shuffle and non-shuffle modes, from any cursor
/// position where the advance does not wrap past a boundary.
pub proof fn lemma_advance_then_retreat(p: PlaylistView)
    requires
        view_inv(p),
        p.entries.len() <= usize::MAX,
        match p.current_index {
            Some(c) => if p.shuffle_mode == ShuffleMode::On {
                match p.shuffle_order.index_of_first(c) {
                    Some(pos) => pos + 1 < p.shuffle_order.len(),
                    None => false,
                }
            } else {
                c + 1 < p.entries.len()
            },
            None => false,
        },
    ensures
        next_index_spec(p) is Some,
        retreat_view(advance_view(p)).current_index == p.current_index,
{
    lemma_shuffle_order_is_permutation(p.entries.len());
    let c = p.current_index.unwrap();
    if p.shuffle_mode == ShuffleMode::On {
        let ord = p.shuffle_order;
        ord.index_of_first_ensures(c);
        let pos = ord.index_of_first(c).unwrap();
        let idx = ord[pos + 1];
        assert(next_index_spec(p) == Some(idx));
        let q = advance_view(p);
        assert(ord.contains(idx));
        ord.index_of_first_ensures(idx);
        let pos2 = ord.index_of_first(idx).unwrap();
        assert(ord[pos2] == ord[pos + 1]);
        assert(pos2 == pos + 1);
        assert(prev_index_spec(q) == Some(ord[pos2 - 1]));
    }
}

/// Cursor state after `k` successive advance steps.
pub open spec fn advance_n(p: PlaylistView, k: nat) -> PlaylistView
    decreases k,
{
    if k == 0 {
        p
    } else {
        advance_view(advance_n(p, (k - 1) as nat))
    }
}

proof fn lemma_repeat_all_cycle_aux(p: PlaylistView, k: nat)
    requires
        view_inv(p),
        p.entries.len() <= usize::MAX,
        p.shuffle_mode == ShuffleMode::Off,
        p.repeat_mode == RepeatMode::All,
        p.entries.len() >= 1,
        p.current_index == Some(0usize),
        k <= p.entries.len(),
    ensures
        advance_n(p, k) == (PlaylistView {
            current_index: Some((if k < p.entries.len() { k } else { 0 }) as usize),
            ..p
        }),
    decreases k,
{
    let n = p.entries.len();
    if k == 0 {
        assert(p =~= (PlaylistView { current_index: Some(0usize), ..p }));
    } else {
        lemma_repeat_all_cycle_aux(p, (k - 1) as nat);
        let q = advance_n(p, (k - 1) as nat);
        assert(q.current_index == Some(((k - 1) as nat) as usize));
        if k < n {
            assert(next_index_spec(q) == Some(k as usize));
        } else {
            assert(next_index_spec(q) == Some(0usize));
        }
        assert(advance_n(p, k) =~= (PlaylistView {
            current_index: Some((if k < n { k } else { 0 }) as usize),
            ..p
        }));
    }
}

/// With repeat-all and shuffle off, advancing `n` times from index 0 walks
/// through every entry in linear order and returns the cursor to index 0.
pub proof fn lemma_repeat_all_cycle(p: PlaylistView)
    requires
        view_inv(p),
        p.entries.len() <= usize::MAX,
        p.shuffle_mode == ShuffleMode::Off,
        p.repeat_mode == RepeatMode::All,
        p.entries.len() >= 1,
        p.current_index == Some(0usize),
    ensures
        advance_n(p, p.entries.len()).current_index == Some(0usize),
{
    lemma_repeat_all_cycle_aux(p, p.entries.len());
}

/// With repeat off and shuffle off, advancing at the last index is
/// exhausted: there is no next index, so the cursor (and the whole state)
/// is left unchanged.
pub proof fn lemma_repeat_off_stops_at_end(p: PlaylistView)
    requires
        view_inv(p),
        p.entries.len() <= usize::MAX,
        p.shuffle_mode == ShuffleMode::Off,
        p.repeat_mode == RepeatMode::Off,
        p.entries.len() >= 1,
        p.current_index == Some((p.entries.len() - 1) as usize),
    ensures
        next_index_spec(p) is None,
        advance_view(p) == p,
{
}

/// The same exhaustion law under shuffle: with repeat off, advancing at the
/// last position of the shuffle order has no next index, and the state is
/// unchanged.
pub proof fn lemma_repeat_off_stops_at_shuffle_end(p: PlaylistView)
    requires
        view_inv(p),
        p.entries.len() <= usize::MAX,
        p.shuffle_mode == ShuffleMode::On,
        p.repeat_mode == RepeatMode::Off,
        p.entries.len() >= 1,
        match p.current_index {
            Some(c) => p.shuffle_order.index_of_first(c) == Some(p.shuffle_order.len() - 1),
            None => false,
        },
    ensures
        next_index_spec(p) is None,
        advance_view(p) == p,
{
}

/// First position of `v` in `order`, or none when `v` does not occur.
fn find_position(order: &Vec<usize>, v: usize) -> (r: Option<usize>)
    ensures
        match r {
            Some(p) => order@.index_of_first(v) == Some(p as int),
            None => order@.index_of_first(v) is None,
        },
{
    let mut i: usize = 0;
    while i < order.len()
        invariant
            i <= order@.len(),
            forall|k: int| 0 <= k < i ==> order@[k] != v,
        decreases order@.len() - i,
    {
        if order[i] == v {
            proof {
                assert(order@.contains(v));
                order@.index_of_first_ensures(v);
            }
            return Some(i);
        }
        i = i + 1;
    }
    proof {
        order@.index_of_first_ensures(v);
        if order@.contains(v) {
            let w = choose|w: int| 0 <= w < order@.len() && order@[w] == v;
            assert(order@[w] != v);
        }
    }
    None
}

impl Playlist {
    /// Well-formedness of this playlist; established by `new` and preserved
    /// by every operation.
    pub open spec fn inv(self) -> bool {
        view_inv(self@)
    }

    /// Creates an empty playlist: no entries, no cursor, repeat off,
    /// shuffle off.
    pub fn new() -> (r: Self)
        ensures
            r.inv(),
            r@.entries.len() == 0,
            r@.current_index is None,
            r@.repeat_mode == RepeatMode::Off,
            r@.shuffle_mode == ShuffleMode::Off,
    {
        let r = Playlist {
            entries: Vec::new(),
            current_index: None,
            shuffle_order: Vec::new(),
            repeat_mode: RepeatMode::Off,
            shuffle_mode: ShuffleMode::Off,
        };
        proof {
            assert(r@.entries =~= Seq::<EntryView>::empty());
            assert(r@.shuffle_order =~= shuffle_order_spec(0));
        }
        r
    }

    /// Recomputes the shuffle order from the current entry count. The
    /// abstract state is unchanged except for the `shuffle_order` field.
    fn rebuild_shuffle_order(&mut self)
        ensures
            final(self)@ == (PlaylistView {
                shuffle_order: shuffle_order_spec(old(self)@.entries.len()),
                ..old(self)@
            }),
    {
        let n = self.entries.len();
        let mut order: Vec<usize> = Vec::new();
        let mut i: usize = 0;
        while i < n
            invariant
                i <= n,
                order@ =~= identity_order(i as nat),
            decreases n - i,
        {
            order.push(i);
            i = i + 1;
            proof {
                assert(order@ =~= identity_order(i as nat));
            }
        }
        let step = n / 3;
        let mut i: usize = 0;
        while i < n
            invariant
                i <= n,
                step == n / 3,
                order@.len() == n,
                order@ =~= swaps_prefix(n as nat, i as nat),
            decreases n - i,
        {
            let j = if i < n - step {
                i + step
            } else {
                i - (n - step)
            };
            proof {
                vstd::arithmetic::div_mod::lemma_mod_bound((i + step) as int, n as int);
                if i + step < n {
                    vstd::arithmetic::div_mod::lemma_small_mod((i + step) as nat, n as nat);
                } else {
                    vstd::arithmetic::div_mod::lemma_mod_sub_multiples_vanish(
                        (i + step) as int,
                        n as int,
                    );
                    vstd::arithmetic::div_mod::lemma_small_mod((i + step - n) as nat, n as nat);
                }
                assert(j == (i + n / 3) % (n as int));
            }
            let a = order[i];
            let b = order[j];
            order.set(i, b);
            order.set(j, a);
            i = i + 1;
            proof {
                assert(order@ =~= swaps_prefix(n as nat, i as nat));
            }
        }
        self.shuffle_order = order;
    }

    /// Appends an entry for `path` with no metadata, then rebuilds the
    /// shuffle order. The caller performs the file-existence check at the
    /// I/O boundary and passes its outcome as `file_exists`; when the file
    /// is absent the playlist is unchanged and `NotFound` is returned.
    pub fn add_file(&mut self, path: String, file_exists: bool) -> (r: Result<(), PlaylistError>)
        requires
            old(self).inv(),
        ensures
            final(self).inv(),
            match r {
                Ok(()) => file_exists && final(self)@ == (PlaylistView {
                    entries: old(self)@.entries.push(fresh_entry(path@)),
                    shuffle_order: shuffle_order_spec(old(self)@.entries.len() + 1),
                    ..old(self)@
                }),
                Err(e) => {
                    &&& !file_exists
                    &&& e == PlaylistError::NotFound
                    &&& final(self)@ == old(self)@
                },
            },
    {
        if !file_exists {
            return Err(PlaylistError::NotFound);
        }
        let entry = PlaylistEntry {
            path: path,
            title: None,
            artist: None,
            album: None,
            duration: None,
        };
        let ghost before = self@.entries;
        self.entries.push(entry);
        proof {
            assert(self@.entries =~= before.push(fresh_entry(path@)));
        }
        self.rebuild_shuffle_order();
        Ok(())
    }

    /// Removes the entry at `index`, shifting later entries down, then
    /// rebuilds the shuffle order; `OutOfRange` when `index` is not a valid
    /// index. A cursor left past the new end is clamped to the new last
    /// index (cleared when the playlist becomes empty); a cursor still in
    /// range is left numerically unchanged even when it now names a
    /// different entry.
    pub fn remove_file(&mut self, index: usize) -> (r: Result<(), PlaylistError>)
        requires
            old(self).inv(),
        ensures
            final(self).inv(),
            match r {
                Ok(()) => {
                    &&& index < old(self)@.entries.len()
                    &&& final(self)@ == (PlaylistView {
                        entries: old(self)@.entries.remove(index as int),
                        current_index: clamped_cursor(
                            old(self)@.current_index,
                            (old(self)@.entries.len() - 1) as nat,
                        ),
                        shuffle_order: shuffle_order_spec(
                            (old(self)@.entries.len() - 1) as nat,
                        ),
                        ..old(self)@
                    })
                },
                Err(e) => {
                    &&& index >= old(self)@.entries.len()
                    &&& e == PlaylistError::OutOfRange
                    &&& final(self)@ == old(self)@
                },
            },
    {
        if index >= self.entries.len() {
            return Err(PlaylistError::OutOfRange);
        }
        let ghost before = self@.entries;
        self.entries.remove(index);
        proof {
            assert(self@.entries =~= before.remove(index as int));
        }
        let new_len = self.entries.len();
        match self.current_index {
            Some(c) => {
                if c >= new_len {
                    if new_len == 0 {
                        self.current_index = None;
                    } else {
                        self.current_index = Some(new_len - 1);
                    }
                }
            },
            None => {},
        }
        self.rebuild_shuffle_order();
        Ok(())
    }

    /// Empties the playlist: no entries, no cursor, empty shuffle order.
    /// The repeat and shuffle modes are kept.
    pub fn clear(&mut self)
        ensures
            final(self).inv(),
            final(self)@ == (PlaylistView {
                entries: Seq::<EntryView>::empty(),
                current_index: None,
                shuffle_order: shuffle_order_spec(0),
                ..old(self)@
            }),
    {
        self.entries.clear();
        self.current_index = None;
        self.shuffle_order.clear();
        proof {
            assert(self@.entries =~= Seq::<EntryView>::empty());
            assert(self@.shuffle_order =~= shuffle_order_spec(0));
        }
    }

    /// The cursor, or none when no entry is selected.
    pub fn get_current_index(&self) -> (r: Option<usize>)
        ensures
            r == self@.current_index,
    {
        self.current_index
    }

    /// Moves the cursor directly to `index`; `OutOfRange` when `index` is
    /// not a valid index, leaving the playlist unchanged.
    pub fn set_current_index(&mut self, index: usize) -> (r: Result<(), PlaylistError>)
        requires
            old(self).inv(),
        ensures
            final(self).inv(),
            match r {
                Ok(()) => {
                    &&& index < old(self)@.entries.len()
                    &&& final(self)@ == (PlaylistView {
                        current_index: Some(index),
                        ..old(self)@
                    })
                },
                Err(e) => {
                    &&& index >= old(self)@.entries.len()
                    &&& e == PlaylistError::OutOfRange
                    &&& final(self)@ == old(self)@
                },
            },
    {
        if index >= self.entries.len() {
            return Err(PlaylistError::OutOfRange);
        }
        self.current_index = Some(index);
        Ok(())
    }

    /// The entry under the cursor, or none when no cursor is set.
    pub fn get_current_track(&self) -> (r: Option<PlaylistEntry>)
        requires
            self.inv(),
        ensures
            match self@.current_index {
                Some(c) => match r {
                    Some(e) => e@ == self@.entries[c as int],
                    None => false,
                },
                None => r is None,
            },
    {
        match self.current_index {
            Some(c) => Some(self.entries[c].clone()),
            None => None,
        }
    }

    /// A copy of the whole entry sequence, in linear order.
    pub fn get_entries(&self) -> (r: Vec<PlaylistEntry>)
        ensures
            r.deep_view() == self@.entries,
    {
        let mut out: Vec<PlaylistEntry> = Vec::new();
        let mut i: usize = 0;
        while i < self.entries.len()
            invariant
                i <= self.entries.len(),
                out@.len() == i,
                forall|k: int| 0 <= k < i ==> (#[trigger] out@[k])@ == self@.entries[k],
            decreases self.entries.len() - i,
        {
            let e = self.entries[i].clone();
            proof {
                assert(e@ == self@.entries[i as int]);
            }
            out.push(e);
            i = i + 1;
        }
        proof {
            assert(out.deep_view() =~= self@.entries);
        }
        out
    }

    /// The number of entries.
    pub fn len(&self) -> (r: usize)
        ensures
            r == self@.entries.len(),
    {
        self.entries.len()
    }

    /// Whether the playlist has no entries.
    pub fn is_empty(&self) -> (r: bool)
        ensures
            r == (self@.entries.len() == 0),
    {
        self.entries.is_empty()
    }

    /// Sets the repeat mode; nothing else changes.
    pub fn set_repeat_mode(&mut self, mode: RepeatMode)
        ensures
            final(self)@ == (PlaylistView { repeat_mode: mode, ..old(self)@ }),
    {
        self.repeat_mode = mode;
    }

    /// The repeat mode.
    pub fn get_repeat_mode(&self) -> (r: RepeatMode)
        ensures
            r == self@.repeat_mode,
    {
        self.repeat_mode
    }

    /// Sets the shuffle mode and rebuilds the shuffle order. The order is a
    /// function of the entry count alone, so on a well-formed playlist only
    /// the mode changes.
    pub fn set_shuffle_mode(&mut self, mode: ShuffleMode)
        requires
            old(self).inv(),
        ensures
            final(self).inv(),
            final(self)@ == (PlaylistView { shuffle_mode: mode, ..old(self)@ }),
    {
        self.shuffle_mode = mode;
        self.rebuild_shuffle_order();
    }

    /// The shuffle mode.
    pub fn get_shuffle_mode(&self) -> (r: ShuffleMode)
        ensures
            r == self@.shuffle_mode,
    {
        self.shuffle_mode
    }

    /// Moves the cursor one step forward — through the linear order, or
    /// through the shuffle order when shuffle is on — and returns the entry
    /// it lands on. Wraps to the front only under `RepeatMode::All`
    /// (`RepeatMode::One` is not special-cased and stops like
    /// `RepeatMode::Off`). Returns none, with the cursor unchanged, when the
    /// playlist is empty, no cursor is set, or the traversal is exhausted;
    /// a starting index is never synthesized.
    pub fn get_next_track(&mut self) -> (r: Option<PlaylistEntry>)
        requires
            old(self).inv(),
        ensures
            final(self).inv(),
            ({
                let nxt = next_index_spec(old(self)@);
                match nxt {
                    Some(idx) => {
                        &&& idx < old(self)@.entries.len()
                        &&& final(self)@ == (PlaylistView {
                            current_index: Some(idx),
                            ..old(self)@
                        })
                        &&& match r {
                            Some(e) => e@ == old(self)@.entries[idx as int],
                            None => false,
                        }
                    },
                    None => final(self)@ == old(self)@ && r is None,
                }
            }),
    {
        let n = self.entries.len();
        proof {
            lemma_shuffle_order_is_permutation(self@.entries.len());
        }
        if n == 0 {
            return None;
        }
        let cur = match self.current_index {
            Some(c) => c,
            None => {
                return None;
            },
        };
        let next_idx: Option<usize> = if self.shuffle_mode == ShuffleMode::On {
            match find_position(&self.shuffle_order, cur) {
                Some(p) => {
                    proof {
                        self.shuffle_order@.index_of_first_ensures(cur);
                    }
                    if p + 1 < self.shuffle_order.len() {
                        Some(self.shuffle_order[p + 1])
                    } else if self.repeat_mode == RepeatMode::All {
                        Some(self.shuffle_order[0])
                    } else {
                        None
                    }
                },
                None => None,
            }
        } else {
            if cur + 1 < self.entries.len() {
                Some(cur + 1)
            } else if self.repeat_mode == RepeatMode::All {
                Some(0)
            } else {
                None
            }
        };
        match next_idx {
            Some(idx) => {
                self.current_index = Some(idx);
                Some(self.entries[idx].clone())
            },
            None => None,
        }
    }

    /// Moves the cursor one step backward, the mirror image of
    /// `get_next_track`: wraps to the back only under `RepeatMode::All` and
    /// otherwise stops at the lower boundary.
    pub fn get_previous_track(&mut self) -> (r: Option<PlaylistEntry>)
        requires
            old(self).inv(),
        ensures
            final(self).inv(),
            ({
                let prv = prev_index_spec(old(self)@);
                match prv {
                    Some(idx) => {
                        &&& idx < old(self)@.entries.len()
                        &&& final(self)@ == (PlaylistView {
                            current_index: Some(idx),
                            ..old(self)@
                        })
                        &&& match r {
                            Some(e) => e@ == old(self)@.entries[idx as int],
                            None => false,
                        }
                    },
                    None => final(self)@ == old(self)@ && r is None,
                }
            }),
    {
        let n = self.entries.len();
        proof {
            lemma_shuffle_order_is_permutation(self@.entries.len());
        }
        if n == 0 {
            return None;
        }
        let cur = match self.current_index {
            Some(c) => c,
            None => {
                return None;
            },
        };
        let prev_idx: Option<usize> = if self.shuffle_mode == ShuffleMode::On {
            match find_position(&self.shuffle_order, cur) {
                Some(p) => {
                    proof {
                        self.shuffle_order@.index_of_first_ensures(cur);
                    }
                    if p > 0 {
                        Some(self.shuffle_order[p - 1])
                    } else if self.repeat_mode == RepeatMode::All {
                        Some(self.shuffle_order[self.shuffle_order.len() - 1])
                    } else {
                        None
                    }
                },
                None => None,
            }
        } else {
            if cur > 0 {
                Some(cur - 1)
            } else if self.repeat_mode == RepeatMode::All {
                Some(self.entries.len() - 1)
            } else {
                None
            }
        };
        match prev_idx {
            Some(idx) => {
                self.current_index = Some(idx);
                Some(self.entries[idx].clone())
            },
            None => None,
        }
    }
}

impl Playlist {
    /// The entry sequence rendered as a JSON document. The host writes the
    /// text to disk; the playlist itself performs no I/O.
    pub fn save_to_json(&self) -> (r: String)
        ensures
            r@ == crate::json::ser_entries(self@.entries),
    {
        crate::json::render_entries(&self.entries)
    }

    /// Replaces the entry sequence with the one parsed from `text` and
    /// rebuilds the shuffle order; `PersistenceError`, with the playlist
    /// unchanged, when `text` is not a playlist document. The repeat and
    /// shuffle modes are untouched; the cursor too, except that a cursor
    /// left past the end of a shorter list is clamped to the new last index
    /// (cleared when the list is empty).
    pub fn load_from_json(&mut self, text: &str) -> (r: Result<(), PlaylistError>)
        requires
            old(self).inv(),
        ensures
            final(self).inv(),
            match crate::json::parse_entries(text@) {
                Some(es) => r is Ok && final(self)@ == (PlaylistView {
                    entries: es,
                    current_index: clamped_cursor(old(self)@.current_index, es.len()),
                    shuffle_order: shuffle_order_spec(es.len()),
                    ..old(self)@
                }),
                None => {
                    &&& r == Err::<(), PlaylistError>(PlaylistError::PersistenceError)
                    &&& final(self)@ == old(self)@
                },
            },
    {
        match crate::json::parse_entries_exec(text) {
            Some(es) => {
                self.entries = es;
                let new_len = self.entries.len();
                match self.current_index {
                    Some(c) => {
                        if c >= new_len {
                            if new_len == 0 {
                                self.current_index = None;
                            } else {
                                self.current_index = Some(new_len - 1);
                            }
                        }
                    },
                    None => {},
                }
                self.rebuild_shuffle_order();
                Ok(())
            },
            None => Err(PlaylistError::PersistenceError),
        }
    }
}

impl Playlist {
    /// Creates an empty playlist; the host-facing name of [`Playlist::new`].
    pub fn new_playlist() -> (r: Self)
        ensures
            r.inv(),
            r@.entries.len() == 0,
            r@.current_index is None,
            r@.repeat_mode == RepeatMode::Off,
            r@.shuffle_mode == ShuffleMode::Off,
    {
        Playlist::new()
    }

    /// [`Playlist::add_file`], with the error mapped to the host-facing
    /// error type.
    pub fn add_file_to_playlist(&mut self, path: String, file_exists: bool) -> (r: Result<
        (),
        AmpereError,
    >)
        requires
            old(self).inv(),
        ensures
            final(self).inv(),
            match r {
                Ok(()) => file_exists && final(self)@ == (PlaylistView {
                    entries: old(self)@.entries.push(fresh_entry(path@)),
                    shuffle_order: shuffle_order_spec(old(self)@.entries.len() + 1),
                    ..old(self)@
                }),
                Err(e) => {
                    &&& !file_exists
                    &&& crate::is_file_error(e)
                    &&& final(self)@ == old(self)@
                },
            },
    {
        let msg_path = path.clone();
        match self.add_file(path, file_exists) {
            Ok(()) => Ok(()),
            Err(_) => Err(AmpereError::FileError {
                message: String::from_str("File does not exist: ").concat(msg_path.as_str()),
            }),
        }
    }

    /// [`Playlist::remove_file`], with a 32-bit index and the error mapped
    /// to the host-facing error type.
    pub fn remove_file_from_playlist(&mut self, index: u32) -> (r: Result<(), AmpereError>)
        requires
            old(self).inv(),
        ensures
            final(self).inv(),
            match r {
                Ok(()) => (index as usize) < old(self)@.entries.len() && final(self)@
                    == (PlaylistView {
                    entries: old(self)@.entries.remove(index as int),
                    current_index: clamped_cursor(
                        old(self)@.current_index,
                        (old(self)@.entries.len() - 1) as nat,
                    ),
                    shuffle_order: shuffle_order_spec((old(self)@.entries.len() - 1) as nat),
                    ..old(self)@
                }),
                Err(e) => {
                    &&& (index as usize) >= old(self)@.entries.len()
                    &&& crate::is_file_error(e)
                    &&& final(self)@ == old(self)@
                },
            },
    {
        match self.remove_file(index as usize) {
            Ok(()) => Ok(()),
            Err(_) => Err(AmpereError::FileError {
                message: String::from_str("Index out of range"),
            }),
        }
    }

    /// [`Playlist::clear`] under its host-facing name.
    pub fn clear_playlist(&mut self)
        ensures
            final(self).inv(),
            final(self)@ == (PlaylistView {
                entries: Seq::<EntryView>::empty(),
                current_index: None,
                shuffle_order: shuffle_order_spec(0),
                ..old(self)@
            }),
    {
        self.clear();
    }

    /// The cursor as a 32-bit index (truncated on overflowing hosts), or
    /// none when no entry is selected.
    pub fn get_current_track_index(&self) -> (r: Option<u32>)
        ensures
            r == match self@.current_index {
                Some(c) => Some(c as u32),
                None => None::<u32>,
            },
    {
        match self.current_index {
            Some(c) => Some(#[verifier::truncate] (c as u32)),
            None => None,
        }
    }

    /// [`Playlist::set_current_index`] with a 32-bit index and the error
    /// mapped to the host-facing error type.
    pub fn set_current_track_index(&mut self, index: u32) -> (r: Result<(), AmpereError>)
        requires
            old(self).inv(),
        ensures
            final(self).inv(),
            match r {
                Ok(()) => (index as usize) < old(self)@.entries.len() && final(self)@
                    == (PlaylistView {
                    current_index: Some(index as usize),
                    ..old(self)@
                }),
                Err(e) => {
                    &&& (index as usize) >= old(self)@.entries.len()
                    &&& crate::is_invalid_parameter(e)
                    &&& final(self)@ == old(self)@
                },
            },
    {
        match self.set_current_index(index as usize) {
            Ok(()) => Ok(()),
            Err(_) => Err(AmpereError::InvalidParameter {
                message: String::from_str("Index out of range"),
            }),
        }
    }

    /// The path of the entry under the cursor, or none when no cursor is
    /// set.
    pub fn get_current_track_path(&self) -> (r: Option<String>)
        requires
            self.inv(),
        ensures
            match self@.current_index {
                Some(c) => match r {
                    Some(s) => s@ == self@.entries[c as int].path,
                    None => false,
                },
                None => r is None,
            },
    {
        match self.get_current_track() {
            Some(e) => Some(e.path),
            None => None,
        }
    }

    /// [`Playlist::get_next_track`], returning only the path of the entry
    /// the cursor lands on.
    pub fn get_next_track_path(&mut self) -> (r: Option<String>)
        requires
            old(self).inv(),
        ensures
            final(self).inv(),
            ({
                let nxt = next_index_spec(old(self)@);
                match nxt {
                    Some(idx) => {
                        &&& idx < old(self)@.entries.len()
                        &&& final(self)@ == (PlaylistView {
                            current_index: Some(idx),
                            ..old(self)@
                        })
                        &&& match r {
                            Some(s) => s@ == old(self)@.entries[idx as int].path,
                            None => false,
                        }
                    },
                    None => final(self)@ == old(self)@ && r is None,
                }
            }),
    {
        match self.get_next_track() {
            Some(e) => Some(e.path),
            None => None,
        }
    }

    /// [`Playlist::get_previous_track`], returning only the path of the
    /// entry the cursor lands on.
    pub fn get_previous_track_path(&mut self) -> (r: Option<String>)
        requires
            old(self).inv(),
        ensures
            final(self).inv(),
            ({
                let prv = prev_index_spec(old(self)@);
                match prv {
                    Some(idx) => {
                        &&& idx < old(self)@.entries.len()
                        &&& final(self)@ == (PlaylistView {
                            current_index: Some(idx),
                            ..old(self)@
                        })
                        &&& match r {
                            Some(s) => s@ == old(self)@.entries[idx as int].path,
                            None => false,
                        }
                    },
                    None => final(self)@ == old(self)@ && r is None,
                }
            }),
    {
        match self.get_previous_track() {
            Some(e) => Some(e.path),
            None => None,
        }
    }

    /// The entry count as a 32-bit value (truncated on overflowing hosts).
    pub fn get_playlist_length(&self) -> (r: u32)
        ensures
            r == self@.entries.len() as u32,
    {
        #[verifier::truncate] (self.entries.len() as u32)
    }

    /// [`Playlist::is_empty`] under its host-facing name.
    pub fn is_playlist_empty(&self) -> (r: bool)
        ensures
            r == (self@.entries.len() == 0),
    {
        self.is_empty()
    }

    /// [`Playlist::set_repeat_mode`] under its host-facing name.
    pub fn set_repeat(&mut self, mode: RepeatMode)
        ensures
            final(self)@ == (PlaylistView { repeat_mode: mode, ..old(self)@ }),
    {
        self.set_repeat_mode(mode);
    }

    /// [`Playlist::get_repeat_mode`] under its host-facing name.
    pub fn get_repeat(&self) -> (r: RepeatMode)
        ensures
            r == self@.repeat_mode,
    {
        self.get_repeat_mode()
    }

    /// [`Playlist::set_shuffle_mode`] under its host-facing name.
    pub fn set_shuffle(&mut self, mode: ShuffleMode)
        requires
            old(self).inv(),
        ensures
            final(self).inv(),
            final(self)@ == (PlaylistView { shuffle_mode: mode, ..old(self)@ }),
    {
        self.set_shuffle_mode(mode);
    }

    /// [`Playlist::get_shuffle_mode`] under its host-facing name.
    pub fn get_shuffle(&self) -> (r: ShuffleMode)
        ensures
            r == self@.shuffle_mode,
    {
        self.get_shuffle_mode()
    }

    /// [`Playlist::save_to_json`] under its host-facing name.
    pub fn save_playlist(&self) -> (r: String)
        ensures
            r@ == crate::json::ser_entries(self@.entries),
    {
        self.save_to_json()
    }

    /// [`Playlist::load_from_json`], with the error mapped to the
    /// host-facing error type.
    pub fn load_playlist(&mut self, text: &str) -> (r: Result<(), AmpereError>)
        requires
            old(self).inv(),
        ensures
            final(self).inv(),
            match crate::json::parse_entries(text@) {
                Some(es) => r is Ok && final(self)@ == (PlaylistView {
                    entries: es,
                    current_index: clamped_cursor(old(self)@.current_index, es.len()),
                    shuffle_order: shuffle_order_spec(es.len()),
                    ..old(self)@
                }),
                None => {
                    &&& match r {
                        Err(e) => crate::is_file_error(e),
                        Ok(_) => false,
                    }
                    &&& final(self)@ == old(self)@
                },
            },
    {
        match self.load_from_json(text) {
            Ok(()) => Ok(()),
            Err(_) => Err(AmpereError::FileError {
                message: String::from_str("Failed to parse JSON"),
            }),
        }
    }
}

} // verus!
