//! The ordered multi-pane registry: stage entries keyed by rational keys,
//! plus the session dispatcher that turns aggregated operations into
//! registry updates and render actions.

use vstd::prelude::*;

use crate::operator::Buffer;
use crate::operator::Debounce;
use crate::operator::EventStream;
use crate::operator::OtherEvent;
use crate::render::head_index;
use crate::render::lemma_rat_lt_trans;
use crate::render::rat_eq;
use crate::render::rat_lt;
use crate::render::valid_key;
use crate::render::EditorIndex;

verus! {

/// One stage entry: an owned text buffer (the external editing capability is
/// whatever type the caller supplies) and the flag excluding the stage from
/// pipeline submission without deleting it.
pub struct Editor<T> {
    pub state: T,
    pub ignore: bool,
}

/// A walk direction through the registry in sorted-key order, carrying how
/// many steps to take.
pub enum Direction {
    Up(usize),
    Down(usize),
}

impl Direction {
    /// How many steps the walk takes.
    pub fn distance(&self) -> (r: usize)
        ensures
            r == match *self {
                Direction::Up(up) => up,
                Direction::Down(down) => down,
            },
    {
        match self {
            Self::Up(up) => *up,
            Self::Down(down) => *down,
        }
    }
}

/// The keys of a registry snapshot, in storage order.
pub open spec fn key_seq<T>(s: Seq<(EditorIndex, Editor<T>)>) -> Seq<EditorIndex> {
    Seq::new(s.len(), |i: int| s[i].0)
}

/// Well-formed registry snapshot: non-empty, the permanent head key first,
/// keys strictly increasing under the rational order, and every key
/// positive. Strict ordering makes every key rationally unique.
pub open spec fn reg_wf<T>(s: Seq<(EditorIndex, Editor<T>)>) -> bool {
    &&& s.len() >= 1
    &&& s[0].0 == head_index()
    &&& forall|i: int, j: int| 0 <= i < j < s.len() ==> rat_lt(#[trigger] s[i].0, #[trigger] s[j].0)
    &&& forall|i: int| 0 <= i < s.len() ==> valid_key(#[trigger] s[i].0)
}

/// The position of the first occurrence of `k` in `s`; meaningful only when
/// `s` contains `k`.
pub open spec fn key_pos(s: Seq<EditorIndex>, k: EditorIndex) -> int
    decreases s.len(),
{
    if s.len() == 0 {
        0
    } else if s[0] == k {
        0
    } else {
        1 + key_pos(s.drop_first(), k)
    }
}

/// When `k` occurs at `p` and nowhere earlier, `key_pos` is exactly `p`.
pub proof fn lemma_key_pos_at(s: Seq<EditorIndex>, k: EditorIndex, p: int)
    requires
        0 <= p < s.len(),
        s[p] == k,
        forall|i: int| 0 <= i < p ==> s[i] != k,
    ensures
        key_pos(s, k) == p,
        s.contains(k),
    decreases p,
{
    if p == 0 {
    } else {
        lemma_key_pos_at(s.drop_first(), k, p - 1);
    }
}

/// In a sequence the registry keeps (strictly sorted), membership pins the
/// position: `key_pos` is in range and hits `k`.
pub proof fn lemma_key_pos_found(s: Seq<EditorIndex>, k: EditorIndex)
    requires
        s.contains(k),
    ensures
        0 <= key_pos(s, k) < s.len(),
        s[key_pos(s, k)] == k,
        forall|i: int| 0 <= i < key_pos(s, k) ==> s[i] != k,
    decreases s.len(),
{
    if s[0] == k {
    } else {
        let w = choose|w: int| 0 <= w < s.len() && s[w] == k;
        assert(s.drop_first()[w - 1] == k);
        assert(s.drop_first().contains(k));
        lemma_key_pos_found(s.drop_first(), k);
        assert forall|i: int| 0 <= i < key_pos(s, k) implies s[i] != k by {
            if i > 0 {
                assert(s.drop_first()[i - 1] != k);
            }
        }
    }
}

/// The ordered position at which a fresh key `k` belongs: the first entry
/// whose key lies above `k`, or the end.
pub open spec fn insert_pos<T>(s: Seq<(EditorIndex, Editor<T>)>, k: EditorIndex) -> int
    decreases s.len(),
{
    if s.len() == 0 {
        0
    } else if rat_lt(k, s[0].0) {
        0
    } else {
        1 + insert_pos(s.drop_first(), k)
    }
}

/// When everything before `p` lies below `k` and the entry at `p` (if any)
/// lies above, the ordered position of `k` is exactly `p`.
proof fn lemma_insert_pos_at<T>(s: Seq<(EditorIndex, Editor<T>)>, k: EditorIndex, p: int)
    requires
        0 <= p <= s.len(),
        forall|i: int| 0 <= i < p ==> !rat_lt(k, #[trigger] s[i].0),
        p < s.len() ==> rat_lt(k, s[p].0),
    ensures
        insert_pos(s, k) == p,
    decreases p,
{
    if p == 0 {
    } else {
        lemma_insert_pos_at(s.drop_first(), k, p - 1);
    }
}

/// An ordered mapping from rational keys to stage entries. Inserting between
/// any two neighbors is always possible (by mediant keys) without
/// renumbering the others.
pub struct EditorMap<T> {
    entries: Vec<(EditorIndex, Editor<T>)>,
}

impl<T> View for EditorMap<T> {
    type V = Seq<(EditorIndex, Editor<T>)>;

    closed spec fn view(&self) -> Seq<(EditorIndex, Editor<T>)> {
        self.entries@
    }
}

impl<T> EditorMap<T> {
    /// The registry invariant; see `reg_wf`.
    pub open spec fn wf(&self) -> bool {
        reg_wf(self@)
    }

    /// A fresh registry holding only the head stage.
    pub fn new(state: T) -> (r: Self)
        ensures
            r.wf(),
            r@ =~= seq![(head_index(), Editor { state, ignore: false })],
    {
        let mut entries: Vec<(EditorIndex, Editor<T>)> = Vec::new();
        entries.push((EditorIndex(1, 1), Editor { state, ignore: false }));
        EditorMap { entries }
    }

    /// How many stages the registry holds.
    pub fn len(&self) -> (r: usize)
        ensures
            r == self@.len(),
    {
        self.entries.len()
    }

    /// The key of the `i`-th stage in sorted order.
    pub fn key_at(&self, i: usize) -> (r: EditorIndex)
        requires
            i < self@.len(),
        ensures
            r == key_seq(self@)[i as int],
    {
        self.entries[i].0
    }

    /// The `i`-th stage entry in sorted order.
    pub fn editor_at(&self, i: usize) -> (r: &Editor<T>)
        requires
            i < self@.len(),
        ensures
            *r == self@[i as int].1,
    {
        &self.entries[i].1
    }

    /// Mutable access to the `i`-th stage's buffer; the keys and flags are
    /// untouched.
    pub fn state_at_mut(&mut self, i: usize) -> (r: &mut T)
        requires
            i < old(self)@.len(),
        ensures
            *r == old(self)@[i as int].1.state,
            final(self)@ =~= old(self)@.update(
                i as int,
                (old(self)@[i as int].0, Editor { state: *final(r), ignore: old(self)@[i as int].1.ignore }),
            ),
            old(self).wf() ==> final(self).wf(),
    {
        proof {
            assert forall|e: Editor<T>|
                key_seq(#[trigger] old(self)@.update(i as int, (old(self)@[i as int].0, e)))
                    =~= key_seq(old(self)@) by {}
        }
        let entry = &mut self.entries[i];
        &mut entry.1.state
    }

    /// The storage position of `index`, scanning in sorted order; `None`
    /// when no stage has that key.
    pub fn position_of(&self, index: &EditorIndex) -> (r: Option<usize>)
        ensures
            match r {
                Some(p) => {
                    &&& p < self@.len()
                    &&& key_seq(self@)[p as int] == *index
                    &&& key_pos(key_seq(self@), *index) == p
                    &&& key_seq(self@).contains(*index)
                },
                None => !key_seq(self@).contains(*index),
            },
    {
        let mut i: usize = 0;
        while i < self.entries.len()
            invariant
                i <= self@.len(),
                forall|j: int| 0 <= j < i ==> key_seq(self@)[j] != *index,
            decreases self@.len() - i,
        {
            if self.entries[i].0 == *index {
                proof {
                    lemma_key_pos_at(key_seq(self@), *index, i as int);
                }
                return Some(i);
            }
            i = i + 1;
        }
        proof {
            assert forall|j: int| 0 <= j < key_seq(self@).len() implies key_seq(self@)[j]
                != *index by {}
        }
        None
    }

    /// Whether a stage with key `index` exists.
    pub fn contains_key(&self, index: &EditorIndex) -> (r: bool)
        ensures
            r == key_seq(self@).contains(*index),
    {
        self.position_of(index).is_some()
    }

    /// The stage entry stored under `index`, if any.
    pub fn get(&self, index: &EditorIndex) -> (r: Option<&Editor<T>>)
        ensures
            match r {
                Some(e) => {
                    &&& key_seq(self@).contains(*index)
                    &&& *e == self@[key_pos(key_seq(self@), *index)].1
                },
                None => !key_seq(self@).contains(*index),
            },
    {
        match self.position_of(index) {
            Some(p) => Some(&self.entries[p].1),
            None => None,
        }
    }

    /// The greatest key currently in the registry.
    pub fn last_index(&self) -> (r: EditorIndex)
        requires
            self@.len() >= 1,
        ensures
            r == key_seq(self@).last(),
    {
        self.entries[self.entries.len() - 1].0
    }

    /// Whether `index` is (structurally) the greatest key.
    pub fn is_last(&self, index: &EditorIndex) -> (r: bool)
        requires
            self@.len() >= 1,
        ensures
            r == (key_seq(self@).last() == *index),
    {
        let last = self.entries[self.entries.len() - 1].0;
        last.0 == index.0 && last.1 == index.1
    }

    /// Walks `distance` steps from `index` toward the head (`Up`) or the
    /// tail (`Down`) in sorted-key order, clamping at the first or last
    /// stage; it never fails.
    pub fn seek_index(&self, index: &EditorIndex, direction: Direction) -> (r: EditorIndex)
        requires
            self.wf(),
            key_seq(self@).contains(*index),
        ensures
            ({
                let ks = key_seq(self@);
                let p = key_pos(ks, *index);
                match direction {
                    Direction::Up(d) => r == ks[if p - d >= 0 { p - d } else { 0 }],
                    Direction::Down(d) => r == ks[if p + d < ks.len() { p + d } else {
                        ks.len() - 1
                    }],
                }
            }),
    {
        proof {
            lemma_key_pos_found(key_seq(self@), *index);
        }
        let p = match self.position_of(index) {
            Some(p) => p,
            None => unreached(),
        };
        let q: usize = match direction {
            Direction::Up(d) => {
                if p >= d {
                    p - d
                } else {
                    0
                }
            },
            Direction::Down(d) => {
                let len = self.entries.len();
                if d < len - p {
                    p + d
                } else {
                    len - 1
                }
            },
        };
        self.entries[q].0
    }

    /// Moves `|up - down|` steps toward the head (when `up > down`) or the
    /// tail (when `down > up`); equal counts are a no-op.
    pub fn shift_index(&self, index: &EditorIndex, up: usize, down: usize) -> (r: EditorIndex)
        requires
            self.wf(),
            key_seq(self@).contains(*index),
        ensures
            ({
                let ks = key_seq(self@);
                let p = key_pos(ks, *index);
                if up > down {
                    r == ks[if p - (up - down) >= 0 { p - (up - down) } else { 0 }]
                } else if down > up {
                    r == ks[if p + (down - up) < ks.len() { p + (down - up) } else {
                        ks.len() - 1
                    }]
                } else {
                    r == *index
                }
            }),
    {
        if up > down {
            self.seek_index(index, Direction::Up(up - down))
        } else if down > up {
            self.seek_index(index, Direction::Down(down - up))
        } else {
            *index
        }
    }

    /// The key under which a stage inserted next to `index` will be stored:
    /// past the tail it is `(numerator+1, denominator)`, strictly greater
    /// than every key; otherwise the mediant of `index` and its successor,
    /// strictly between them (and hence distinct from every key).
    pub fn new_index(&self, index: &EditorIndex) -> (r: EditorIndex)
        requires
            self.wf(),
            key_seq(self@).contains(*index),
            key_seq(self@).last() == *index ==> index.0 < usize::MAX,
            key_seq(self@).last() != *index ==> ({
                let ks = key_seq(self@);
                let p = key_pos(ks, *index);
                ks[p].0 + ks[p + 1].0 <= usize::MAX && ks[p].1 + ks[p + 1].1 <= usize::MAX
            }),
        ensures
            valid_key(r),
            ({
                let ks = key_seq(self@);
                let p = key_pos(ks, *index);
                if ks.last() == *index {
                    r == EditorIndex((index.0 + 1) as usize, index.1) && rat_lt(*index, r)
                } else {
                    &&& r.0 == ks[p].0 + ks[p + 1].0
                    &&& r.1 == ks[p].1 + ks[p + 1].1
                    &&& rat_lt(ks[p], r)
                    &&& rat_lt(r, ks[p + 1])
                }
            }),
    {
        proof {
            lemma_key_pos_found(key_seq(self@), *index);
        }
        if self.is_last(index) {
            let r = EditorIndex(index.0 + 1, index.1);
            proof {
                let ks = key_seq(self@);
                let p = key_pos(ks, *index);
                assert(valid_key(ks[p]));
                assert(index.0 * index.1 < (index.0 + 1) * index.1) by (nonlinear_arith)
                    requires
                        index.1 >= 1,
                ;
            }
            r
        } else {
            let p = match self.position_of(index) {
                Some(p) => p,
                None => unreached(),
            };
            let len = self.entries.len();
            proof {
                let ks = key_seq(self@);
                if p + 1 >= ks.len() {
                    assert(ks.last() == *index);
                    assert(false);
                }
            }
            let next = self.entries[p + 1].0;
            let m = EditorIndex::mediant(index, &next);
            proof {
                crate::render::lemma_mediant_between(*index, next, m);
            }
            m
        }
    }

    /// Inserts a fresh stage under `index`, which must sit strictly between
    /// the head and its ordered neighbors (`new_index` produces such keys).
    pub fn insert(&mut self, index: EditorIndex, state: T)
        requires
            old(self).wf(),
            valid_key(index),
            rat_lt(head_index(), index),
            forall|i: int|
                0 <= i < old(self)@.len() ==> !rat_eq(#[trigger] key_seq(old(self)@)[i], index),
        ensures
            final(self).wf(),
            final(self)@ =~= old(self)@.insert(
                insert_pos(old(self)@, index),
                (index, Editor { state, ignore: false }),
            ),
            1 <= insert_pos(old(self)@, index) <= old(self)@.len(),
    {
        let ghost s0 = self@;
        let mut p: usize = 0;
        while p < self.entries.len() && !index.lt(&self.entries[p].0)
            invariant
                p <= self@.len(),
                self@ == s0,
                forall|i: int| 0 <= i < p ==> !rat_lt(index, #[trigger] s0[i].0),
            decreases self@.len() - p,
        {
            p = p + 1;
        }
        proof {
            lemma_insert_pos_at(s0, index, p as int);
            assert(p >= 1) by {
                assert(!rat_lt(index, s0[0].0));
            }
        }
        self.entries.insert(p, (index, Editor { state, ignore: false }));
        proof {
            s0.insert_ensures(p as int, (index, Editor { state, ignore: false }));
            assert forall|i: int| 0 <= i < p implies rat_lt(#[trigger] s0[i].0, index) by {
                assert(!rat_eq(key_seq(s0)[i], index));
            }
            assert forall|i: int, j: int|
                0 <= i < j < self@.len() implies rat_lt(
                #[trigger] self@[i].0,
                #[trigger] self@[j].0,
            ) by {
                if p < j {
                    assert(rat_lt(index, s0[j - 1].0)) by {
                        if j - 1 > p {
                            lemma_rat_lt_trans(index, s0[p as int].0, s0[j - 1].0);
                        }
                    }
                }
                if i < p && p < j {
                    lemma_rat_lt_trans(s0[i].0, index, s0[j - 1].0);
                }
            }
        }
    }

    /// Removes the stage under `index` and hands back the focus: the
    /// immediate predecessor key, or the head key unchanged when `index` is
    /// the head (the head stage is never removed).
    pub fn remove_editor(&mut self, index: &EditorIndex) -> (r: EditorIndex)
        requires
            old(self).wf(),
            key_seq(old(self)@).contains(*index),
        ensures
            final(self).wf(),
            ({
                let s0 = old(self)@;
                let p = key_pos(key_seq(s0), *index);
                if p == 0 {
                    final(self)@ == s0 && r == key_seq(s0)[0]
                } else {
                    final(self)@ =~= s0.remove(p) && r == key_seq(s0)[p - 1]
                }
            }),
    {
        let ghost s0 = self@;
        let p = match self.position_of(index) {
            Some(p) => p,
            None => unreached(),
        };
        if p == 0 {
            self.entries[0].0
        } else {
            let prev = self.entries[p - 1].0;
            self.entries.remove(p);
            proof {
                s0.remove_ensures(p as int);
                assert(self@ =~= s0.remove(p as int));
            }
            prev
        }
    }

    /// Removes and returns the greatest stage; the head is never popped.
    pub fn pop_last(&mut self) -> (r: (EditorIndex, Editor<T>))
        requires
            old(self).wf(),
            old(self)@.len() >= 2,
        ensures
            final(self).wf(),
            final(self)@ =~= old(self)@.drop_last(),
            r == old(self)@.last(),
    {
        match self.entries.pop() {
            Some(e) => e,
            None => unreached(),
        }
    }

    /// Removes up to `times` stages from the tail, never the head; the
    /// removed keys come back highest first.
    pub fn pop_editors(&mut self, times: usize) -> (r: Vec<EditorIndex>)
        requires
            old(self).wf(),
        ensures
            final(self).wf(),
            ({
                let n0 = old(self)@.len();
                let m = if times <= n0 - 1 { times as int } else { n0 - 1 };
                &&& r@.len() == m
                &&& final(self)@ =~= old(self)@.take(n0 - m)
                &&& forall|j: int| 0 <= j < m ==> r@[j] == key_seq(old(self)@)[n0 - 1 - j]
            }),
    {
        let ghost s0 = self@;
        let mut popped: Vec<EditorIndex> = Vec::new();
        let mut t: usize = 0;
        while t < times && self.entries.len() > 1
            invariant
                self.wf(),
                t <= times,
                popped@.len() == t,
                popped@.len() <= s0.len() - 1,
                self@ =~= s0.take(s0.len() - popped@.len()),
                forall|j: int| 0 <= j < t ==> popped@[j] == key_seq(s0)[s0.len() - 1 - j],
            decreases times - t,
        {
            proof {
                assert(self@.len() >= 2);
            }
            let (k, _e) = self.pop_last();
            popped.push(k);
            t = t + 1;
            proof {
                assert(self@ =~= s0.take(s0.len() - popped@.len()));
            }
        }
        popped
    }

    /// Like `new_index`, but reports arithmetic that would overflow the
    /// key components as `None` instead of requiring room.
    pub fn checked_new_index(&self, index: &EditorIndex) -> (r: Option<EditorIndex>)
        requires
            self.wf(),
            key_seq(self@).contains(*index),
        ensures
            r == if no_room(self@, *index) {
                Option::<EditorIndex>::None
            } else {
                Option::Some(next_key(self@, *index))
            },
    {
        proof {
            lemma_key_pos_found(key_seq(self@), *index);
        }
        if self.is_last(index) {
            if index.0 < usize::MAX {
                Some(EditorIndex(index.0 + 1, index.1))
            } else {
                None
            }
        } else {
            let p = match self.position_of(index) {
                Some(p) => p,
                None => unreached(),
            };
            let len = self.entries.len();
            proof {
                if p + 1 >= self@.len() {
                    assert(key_seq(self@).last() == *index);
                    assert(false);
                }
            }
            let next = self.entries[p + 1].0;
            if usize::MAX - index.0 >= next.0 && usize::MAX - index.1 >= next.1 {
                Some(EditorIndex(index.0 + next.0, index.1 + next.1))
            } else {
                None
            }
        }
    }

    /// Flips the excluded-from-submission flag of the stage under `index`;
    /// its key and buffer are untouched.
    pub fn toggle_ignore(&mut self, index: &EditorIndex)
        requires
            old(self).wf(),
            key_seq(old(self)@).contains(*index),
        ensures
            final(self).wf(),
            ({
                let s0 = old(self)@;
                let p = key_pos(key_seq(s0), *index);
                final(self)@ =~= s0.update(
                    p,
                    (s0[p].0, Editor { state: s0[p].1.state, ignore: !s0[p].1.ignore }),
                )
            }),
    {
        let ghost s0 = self@;
        let p = match self.position_of(index) {
            Some(p) => p,
            None => unreached(),
        };
        let flag = !self.entries[p].1.ignore;
        let entry = &mut self.entries[p];
        entry.1.ignore = flag;
        proof {
            assert(key_seq(self@) =~= key_seq(s0));
        }
    }
}

/// Whether computing the key adjacent to `cur` would overflow a key
/// component (the accepted cost of never reducing fractions: components
/// only grow).
pub open spec fn no_room<T>(m: Seq<(EditorIndex, Editor<T>)>, cur: EditorIndex) -> bool {
    let ks = key_seq(m);
    if ks.last() == cur {
        cur.0 + 1 > usize::MAX
    } else {
        let p = key_pos(ks, cur);
        ks[p].0 + ks[p + 1].0 > usize::MAX || ks[p].1 + ks[p + 1].1 > usize::MAX
    }
}

/// The key a stage inserted next to `cur` receives: past the tail the
/// numerator grows by one, otherwise the mediant of `cur` and its
/// successor.
pub open spec fn next_key<T>(m: Seq<(EditorIndex, Editor<T>)>, cur: EditorIndex) -> EditorIndex {
    let ks = key_seq(m);
    if ks.last() == cur {
        EditorIndex((cur.0 + 1) as usize, cur.1)
    } else {
        let p = key_pos(ks, cur);
        EditorIndex((ks[p].0 + ks[p + 1].0) as usize, (ks[p].1 + ks[p + 1].1) as usize)
    }
}

/// In a well-formed registry keys are structurally pairwise distinct, so a
/// key's position is unique.
pub proof fn lemma_wf_key_pos<T>(s: Seq<(EditorIndex, Editor<T>)>, q: int)
    requires
        reg_wf(s),
        0 <= q < s.len(),
    ensures
        key_pos(key_seq(s), s[q].0) == q,
        key_seq(s).contains(s[q].0),
{
    assert forall|i: int| 0 <= i < q implies key_seq(s)[i] != s[q].0 by {
        assert(rat_lt(s[i].0, s[q].0));
    }
    lemma_key_pos_at(key_seq(s), s[q].0, q);
}

/// The adjacent key is positive, strictly above the head, rationally fresh,
/// and belongs at the position right after `cur`.
pub proof fn lemma_next_key_props<T>(m: Seq<(EditorIndex, Editor<T>)>, cur: EditorIndex)
    requires
        reg_wf(m),
        key_seq(m).contains(cur),
        !no_room(m, cur),
    ensures
        ({
            let k = next_key(m, cur);
            let p = key_pos(key_seq(m), cur);
            &&& valid_key(k)
            &&& rat_lt(head_index(), k)
            &&& forall|i: int| 0 <= i < m.len() ==> !rat_eq(#[trigger] key_seq(m)[i], k)
            &&& insert_pos(m, k) == p + 1
            &&& rat_lt(cur, k)
        }),
{
    let ks = key_seq(m);
    let k = next_key(m, cur);
    let p = key_pos(ks, cur);
    lemma_key_pos_found(ks, cur);
    assert(ks[p] == cur);
    if ks.last() == cur {
        assert(p == m.len() - 1) by {
            if p < m.len() - 1 {
                assert(rat_lt(ks[p], ks[m.len() - 1]));
                assert(rat_lt(cur, cur));
            }
        }
        assert(rat_lt(cur, k)) by {
            assert(cur.0 * cur.1 < (cur.0 + 1) * cur.1) by (nonlinear_arith)
                requires
                    cur.1 >= 1,
            ;
        }
        assert forall|i: int| 0 <= i < m.len() implies rat_lt(#[trigger] ks[i], k) by {
            if i < p {
                lemma_rat_lt_trans(ks[i], cur, k);
            }
        }
        assert forall|i: int| 0 <= i < p + 1 implies !rat_lt(k, #[trigger] m[i].0) by {
            assert(rat_lt(ks[i], k));
        }
        lemma_insert_pos_at(m, k, p + 1);
    } else {
        assert(p < m.len() - 1) by {
            if p == m.len() - 1 {
                assert(ks.last() == cur);
            }
        }
        crate::render::lemma_mediant_between(ks[p], ks[p + 1], k);
        assert forall|i: int| 0 <= i < m.len() implies !rat_eq(#[trigger] ks[i], k) by {
            if i <= p {
                assert(rat_lt(ks[i], k)) by {
                    if i < p {
                        lemma_rat_lt_trans(ks[i], ks[p], k);
                    }
                }
            } else {
                assert(rat_lt(k, ks[i])) by {
                    if i > p + 1 {
                        lemma_rat_lt_trans(k, ks[p + 1], ks[i]);
                    }
                }
            }
        }
        assert forall|i: int| 0 <= i < p + 1 implies !rat_lt(k, #[trigger] m[i].0) by {
            assert(rat_lt(ks[i], k)) by {
                if i < p {
                    lemma_rat_lt_trans(ks[i], ks[p], k);
                }
            }
        }
        lemma_insert_pos_at(m, k, p + 1);
        assert(rat_lt(head_index(), k)) by {
            assert(rat_lt(ks[0], k)) by {
                if 0 < p {
                    lemma_rat_lt_trans(ks[0], ks[p], k);
                }
            }
        }
    }
    assert(rat_lt(head_index(), k)) by {
        assert(rat_lt(ks[0], k)) by {
            if 0 < p {
                lemma_rat_lt_trans(ks[0], ks[p], k);
            }
        }
    }
    assert forall|i: int| 0 <= i < m.len() implies !rat_eq(#[trigger] ks[i], k) by {
        if ks.last() == cur {
            assert(rat_lt(ks[i], k));
        }
    }
}

/// The result of a chain of adjacent insertions: the final registry and
/// focus, the keys inserted in order, and whether the viewport capacity was
/// hit.
pub struct ChainOut<T> {
    pub entries: Seq<(EditorIndex, Editor<T>)>,
    pub cur: EditorIndex,
    pub inserted: Seq<EditorIndex>,
    pub full: bool,
}

/// How many editors the viewport can hold: its height minus the
/// notification and output panes.
pub open spec fn cap_of(height: u16) -> nat {
    if height >= 2 {
        (height - 2) as nat
    } else {
        0
    }
}

/// Inserting up to `times` stages one after another, each adjacent to the
/// previously inserted one, taking buffers from `fresh`; stops early when
/// the viewport is full (reported) or a key component would overflow.
pub open spec fn insert_chain<T>(
    m: Seq<(EditorIndex, Editor<T>)>,
    cur: EditorIndex,
    fresh: Seq<T>,
    times: nat,
    cap: nat,
) -> ChainOut<T>
    decreases times,
{
    if times == 0 {
        ChainOut { entries: m, cur, inserted: Seq::empty(), full: false }
    } else if m.len() >= cap {
        ChainOut { entries: m, cur, inserted: Seq::empty(), full: true }
    } else if no_room(m, cur) {
        ChainOut { entries: m, cur, inserted: Seq::empty(), full: false }
    } else {
        let k = next_key(m, cur);
        let m2 = m.insert(insert_pos(m, k), (k, Editor { state: fresh[0], ignore: false }));
        let rest = insert_chain(m2, k, fresh.drop_first(), (times - 1) as nat, cap);
        ChainOut {
            entries: rest.entries,
            cur: rest.cur,
            inserted: seq![k] + rest.inserted,
            full: rest.full,
        }
    }
}

/// One text-editing operation to apply to the focused stage's buffer; the
/// buffer itself is an external capability, so the operation is handed out
/// as data.
#[derive(Clone, Debug, PartialEq, Eq)]
pub enum EditCmd {
    /// Move the cursor `left` then `right` steps.
    ShiftCursor(usize, usize),
    MoveToHead,
    MoveToTail,
    MovePrevNearest(usize),
    MoveNextNearest(usize),
    /// Erase one character backward, `n` times.
    Erase(usize),
    EraseAll,
    ErasePrevNearest(usize),
    EraseNextNearest(usize),
    /// Insert or overwrite the characters at the cursor, by the buffer's
    /// own editing mode.
    Input(Vec<char>),
    Noop,
}

/// Which editing operation an aggregated operation asks of the focused
/// buffer.
pub open spec fn edit_cmd_of(event: EventStream) -> EditCmd {
    match event {
        EventStream::Buffer(b) => match b {
            Buffer::Key(cs) => EditCmd::Input(cs),
            Buffer::HorizontalCursor(l, r) => EditCmd::ShiftCursor(l, r),
            Buffer::Other(o, times) => match o {
                OtherEvent::CtrlA => EditCmd::MoveToHead,
                OtherEvent::CtrlE => EditCmd::MoveToTail,
                OtherEvent::AltB => EditCmd::MovePrevNearest(times),
                OtherEvent::AltF => EditCmd::MoveNextNearest(times),
                OtherEvent::Backspace => EditCmd::Erase(times),
                OtherEvent::CtrlU => EditCmd::EraseAll,
                OtherEvent::CtrlW => EditCmd::ErasePrevNearest(times),
                OtherEvent::AltD => EditCmd::EraseNextNearest(times),
                _ => EditCmd::Noop,
            },
            _ => EditCmd::Noop,
        },
        _ => EditCmd::Noop,
    }
}

/// Maps an aggregated operation to the editing operation it performs on
/// the focused buffer; operations that steer the session itself map to
/// `Noop`.
pub fn edit_action(event: EventStream) -> (r: EditCmd)
    ensures
        r == edit_cmd_of(event),
{
    match event {
        EventStream::Buffer(b) => match b {
            Buffer::Key(cs) => EditCmd::Input(cs),
            Buffer::HorizontalCursor(l, r) => EditCmd::ShiftCursor(l, r),
            Buffer::Other(o, times) => match o {
                OtherEvent::CtrlA => EditCmd::MoveToHead,
                OtherEvent::CtrlE => EditCmd::MoveToTail,
                OtherEvent::AltB => EditCmd::MovePrevNearest(times),
                OtherEvent::AltF => EditCmd::MoveNextNearest(times),
                OtherEvent::Backspace => EditCmd::Erase(times),
                OtherEvent::CtrlU => EditCmd::EraseAll,
                OtherEvent::CtrlW => EditCmd::ErasePrevNearest(times),
                OtherEvent::AltD => EditCmd::EraseNextNearest(times),
                _ => EditCmd::Noop,
            },
            _ => EditCmd::Noop,
        },
        _ => EditCmd::Noop,
    }
}

/// What one dispatched operation did to the session, for the caller to
/// mirror on screen.
pub enum DispatchOutcome {
    /// The terminal was resized; panes under `removed` disappeared, and if
    /// `refocused`, focus snapped back to the head stage.
    Resized { removed: Vec<EditorIndex>, refocused: bool },
    /// Stages were inserted under `inserted`, in order; the stage under
    /// `defocused` lost focus; `full` reports that the viewport could not
    /// hold them all.
    Inserted { inserted: Vec<EditorIndex>, defocused: EditorIndex, full: bool },
    /// The stages under `removed` were deleted; focus moved to their
    /// predecessor.
    Removed { removed: Vec<EditorIndex> },
    /// Whether the focused stage's excluded-from-submission flag flipped.
    Toggled { toggled: bool },
    /// Focus moved from `defocused` to `focused`.
    FocusMoved { defocused: EditorIndex, focused: EditorIndex },
    /// The operation edits the focused buffer.
    Edited { cmd: EditCmd },
}

/// The editing session: the stage registry, the focused key, and the
/// current terminal shape.
pub struct Session<T> {
    pub editors: EditorMap<T>,
    pub cur_index: EditorIndex,
    pub shape: (u16, u16),
}

impl<T> Session<T> {
    /// The registry is well-formed and the focused key is one of its keys.
    pub open spec fn wf(&self) -> bool {
        &&& self.editors.wf()
        &&& key_seq(self.editors@).contains(self.cur_index)
    }

    /// A fresh session: one head stage, focused, under the given terminal
    /// shape.
    pub fn new(state: T, shape: (u16, u16)) -> (r: Self)
        ensures
            r.wf(),
            r.editors@ =~= seq![(head_index(), Editor { state, ignore: false })],
            r.cur_index == head_index(),
            r.shape == shape,
    {
        let editors = EditorMap::new(state);
        let r = Session { editors, cur_index: EditorIndex(1, 1), shape };
        proof {
            assert(key_seq(r.editors@)[0] == head_index());
        }
        r
    }

    /// Records a new terminal shape; when the viewport no longer holds
    /// every pane, tail stages are dropped until it does and focus snaps
    /// back to the head.
    pub fn handle_resize(&mut self, width: u16, height: u16) -> (r: (Vec<EditorIndex>, bool))
        requires
            old(self).wf(),
            old(self).editors@.len() + 2 <= usize::MAX,
        ensures
            final(self).wf(),
            final(self).shape == (width, height),
            ({
                let s0 = old(self).editors@;
                if (height as int) < s0.len() + 2 {
                    let times = s0.len() + 2 - height;
                    let m = if times <= s0.len() - 1 {
                        times
                    } else {
                        s0.len() - 1
                    };
                    &&& final(self).editors@ =~= s0.take(s0.len() - m)
                    &&& final(self).cur_index == head_index()
                    &&& r.0@.len() == m
                    &&& (forall|j: int| 0 <= j < m ==> r.0@[j] == key_seq(s0)[s0.len() - 1 - j])
                    &&& r.1 == true
                } else {
                    &&& final(self).editors@ == s0
                    &&& final(self).cur_index == old(self).cur_index
                    &&& r.0@.len() == 0
                    &&& r.1 == false
                }
            }),
    {
        self.shape = (width, height);
        let len = self.editors.len();
        if (height as usize) < len + 2 {
            let times = len + 2 - (height as usize);
            let removed = self.editors.pop_editors(times);
            self.cur_index = EditorIndex(1, 1);
            proof {
                assert(key_seq(self.editors@)[0] == head_index());
            }
            (removed, true)
        } else {
            (Vec::new(), false)
        }
    }

    /// Inserts up to `times` fresh stages, each adjacent to the previously
    /// inserted one, and focuses the last; stops early when the viewport is
    /// full (reported in the second component) or a key component would
    /// overflow.
    pub fn insert_editors(&mut self, times: usize, fresh: Vec<T>) -> (r: (Vec<EditorIndex>, bool))
        requires
            old(self).wf(),
            fresh@.len() == times,
        ensures
            final(self).wf(),
            final(self).shape == old(self).shape,
            ({
                let c = insert_chain(
                    old(self).editors@,
                    old(self).cur_index,
                    fresh@,
                    times as nat,
                    cap_of(old(self).shape.1),
                );
                &&& final(self).editors@ == c.entries
                &&& final(self).cur_index == c.cur
                &&& r.0@ == c.inserted
                &&& r.1 == c.full
            }),
    {
        let ghost total = insert_chain(
            self.editors@,
            self.cur_index,
            fresh@,
            times as nat,
            cap_of(self.shape.1),
        );
        let cap: usize = if self.shape.1 >= 2 {
            (self.shape.1 - 2) as usize
        } else {
            0
        };
        let mut fresh = fresh;
        let mut inserted: Vec<EditorIndex> = Vec::new();
        let mut full = false;
        let mut stop = false;
        let mut t: usize = 0;
        while t < times && !stop
            invariant
                self.wf(),
                t <= times,
                fresh@.len() == times - t,
                cap == cap_of(self.shape.1),
                self.shape == old(self).shape,
                !stop ==> ({
                    let rem = insert_chain(
                        self.editors@,
                        self.cur_index,
                        fresh@,
                        (times - t) as nat,
                        cap as nat,
                    );
                    &&& total.entries == rem.entries
                    &&& total.cur == rem.cur
                    &&& total.inserted == inserted@ + rem.inserted
                    &&& total.full == (full || rem.full)
                }),
                stop ==> ({
                    &&& total.entries == self.editors@
                    &&& total.cur == self.cur_index
                    &&& total.inserted == inserted@
                    &&& total.full == full
                }),
            decreases times - t, (if stop { 0int } else { 1int }),
        {
            let ghost m0 = self.editors@;
            let ghost cur0 = self.cur_index;
            let ghost fresh0 = fresh@;
            if self.editors.len() >= cap {
                full = true;
                stop = true;
                proof {
                    assert(insert_chain(m0, cur0, fresh0, (times - t) as nat, cap as nat)
                        == (ChainOut {
                        entries: m0,
                        cur: cur0,
                        inserted: Seq::<EditorIndex>::empty(),
                        full: true,
                    }));
                    assert(total.inserted =~= inserted@);
                }
            } else {
                match self.editors.checked_new_index(&self.cur_index) {
                    None => {
                        stop = true;
                        proof {
                            assert(insert_chain(m0, cur0, fresh0, (times - t) as nat, cap as nat)
                                == (ChainOut {
                                entries: m0,
                                cur: cur0,
                                inserted: Seq::<EditorIndex>::empty(),
                                full: false,
                            }));
                            assert(total.inserted =~= inserted@);
                        }
                    },
                    Some(k) => {
                        proof {
                            lemma_next_key_props(self.editors@, self.cur_index);
                        }
                        let st = fresh.remove(0);
                        self.editors.insert(k, st);
                        inserted.push(k);
                        self.cur_index = k;
                        t = t + 1;
                        proof {
                            let p = insert_pos(m0, k);
                            assert(self.editors@ =~= m0.insert(
                                p,
                                (k, Editor { state: st, ignore: false }),
                            ));
                            assert(key_seq(self.editors@)[p] == k);
                            assert(key_seq(self.editors@).contains(k));
                            let rem0 = insert_chain(m0, cur0, fresh0, (times - (t - 1)) as nat, cap as nat);
                            let rem1 = insert_chain(
                                self.editors@,
                                self.cur_index,
                                fresh@,
                                (times - t) as nat,
                                cap as nat,
                            );
                            assert(fresh0.drop_first() =~= fresh@);
                            assert(rem0.inserted =~= seq![k] + rem1.inserted);
                            assert(total.inserted =~= inserted@ + rem1.inserted) by {
                                assert(total.inserted =~= inserted@.drop_last() + (seq![k]
                                    + rem1.inserted));
                            }
                        }
                    },
                }
            }
        }
        proof {
            if !stop {
                assert(t == times);
                assert(insert_chain(
                    self.editors@,
                    self.cur_index,
                    fresh@,
                    0nat,
                    cap as nat,
                ).inserted =~= Seq::<EditorIndex>::empty());
                assert(total.inserted =~= inserted@);
            }
        }
        (inserted, full)
    }

    /// Deletes up to `times` stages starting at the focused one, walking
    /// toward the head and stopping there (the head stage is never
    /// deleted); focus ends on the predecessor of the last stage deleted.
    #[verifier::loop_isolation(false)]
    pub fn remove_editors(&mut self, times: usize) -> (r: Vec<EditorIndex>)
        requires
            old(self).wf(),
        ensures
            final(self).wf(),
            final(self).shape == old(self).shape,
            ({
                let s0 = old(self).editors@;
                let p0 = key_pos(key_seq(s0), old(self).cur_index);
                let m = if times <= p0 {
                    times as int
                } else {
                    p0
                };
                &&& final(self).editors@ =~= s0.subrange(0, p0 - m + 1) + s0.subrange(
                    p0 + 1,
                    s0.len() as int,
                )
                &&& final(self).cur_index == key_seq(s0)[p0 - m]
                &&& r@.len() == m
                &&& (forall|j: int| 0 <= j < m ==> r@[j] == key_seq(s0)[p0 - j])
            }),
    {
        let ghost s0 = self.editors@;
        let ghost p0 = key_pos(key_seq(s0), self.cur_index);
        proof {
            lemma_key_pos_found(key_seq(s0), self.cur_index);
        }
        let mut removed: Vec<EditorIndex> = Vec::new();
        let mut t: usize = 0;
        while t < times && !(self.cur_index.0 == 1 && self.cur_index.1 == 1)
            invariant
                self.wf(),
                t <= times,
                t <= p0,
                removed@.len() == t,
                self.shape == old(self).shape,
                self.cur_index == key_seq(s0)[p0 - t],
                key_pos(key_seq(self.editors@), self.cur_index) == p0 - t,
                self.editors@ =~= s0.subrange(0, p0 - t + 1) + s0.subrange(p0 + 1, s0.len() as int),
                forall|j: int| 0 <= j < t ==> removed@[j] == key_seq(s0)[p0 - j],
                (self.cur_index == head_index()) == (p0 - t == 0),
            decreases times - t,
        {
            let ghost mprev = self.editors@;
            let ghost posv = p0 - t;
            removed.push(self.cur_index);
            let cur = self.cur_index;
            let prev = self.editors.remove_editor(&cur);
            self.cur_index = prev;
            t = t + 1;
            proof {
                let ghost a = s0.subrange(0, posv + 1);
                let ghost b = s0.subrange(p0 + 1, s0.len() as int);
                assert(mprev == a + b);
                assert(mprev.len() == posv + 1 + b.len());
                assert(0 <= posv < mprev.len());
                assert(self.editors@ == mprev.remove(posv));
                mprev.remove_ensures(posv);
                assert(self.editors@ =~= s0.subrange(0, p0 - t + 1) + s0.subrange(
                    p0 + 1,
                    s0.len() as int,
                )) by {
                    assert forall|i: int| 0 <= i < mprev.remove(posv).len() implies mprev.remove(
                        posv,
                    )[i] == (s0.subrange(0, p0 - t + 1) + s0.subrange(p0 + 1, s0.len() as int))[i] by {
                        if i < posv {
                            assert(mprev[i] == a[i]);
                            assert(a[i] == s0[i]);
                        } else {
                            assert(mprev.remove(posv)[i] == mprev[i + 1]);
                        }
                    }
                }
                assert(self.editors@[p0 - t].0 == key_seq(s0)[p0 - t]);
                lemma_wf_key_pos(self.editors@, p0 - t);
                assert(key_seq(self.editors@).contains(self.cur_index));
                if p0 - t == 0 {
                    assert(self.cur_index == head_index());
                } else {
                    assert(self.cur_index != head_index()) by {
                        if self.cur_index == head_index() {
                            assert(rat_lt(self.editors@[0].0, self.editors@[p0 - t].0));
                        }
                    }
                }
            }
        }
        removed
    }

    /// On an odd repeat count, flips the focused stage's
    /// excluded-from-submission flag; even counts cancel out.
    pub fn toggle_ignore_current(&mut self, times: usize) -> (r: bool)
        requires
            old(self).wf(),
        ensures
            final(self).wf(),
            final(self).shape == old(self).shape,
            final(self).cur_index == old(self).cur_index,
            r == (times % 2 == 1),
            ({
                let s0 = old(self).editors@;
                let p = key_pos(key_seq(s0), old(self).cur_index);
                if times % 2 == 1 {
                    final(self).editors@ =~= s0.update(
                        p,
                        (s0[p].0, Editor { state: s0[p].1.state, ignore: !s0[p].1.ignore }),
                    )
                } else {
                    final(self).editors@ == s0
                }
            }),
    {
        if times % 2 == 1 {
            let cur = self.cur_index;
            self.editors.toggle_ignore(&cur);
            proof {
                let s0 = old(self).editors@;
                let p = key_pos(key_seq(s0), self.cur_index);
                lemma_key_pos_found(key_seq(s0), self.cur_index);
                assert(key_seq(self.editors@) =~= key_seq(s0));
            }
            true
        } else {
            false
        }
    }

    /// Moves focus `|up - down|` stages toward head or tail, clamping at
    /// the ends; returns the key that lost focus and the one that gained
    /// it.
    pub fn move_focus(&mut self, up: usize, down: usize) -> (r: (EditorIndex, EditorIndex))
        requires
            old(self).wf(),
        ensures
            final(self).wf(),
            final(self).editors@ == old(self).editors@,
            final(self).shape == old(self).shape,
            r.0 == old(self).cur_index,
            r.1 == final(self).cur_index,
            ({
                let ks = key_seq(old(self).editors@);
                let p = key_pos(ks, old(self).cur_index);
                if up > down {
                    final(self).cur_index == ks[if p - (up - down) >= 0 {
                        p - (up - down)
                    } else {
                        0
                    }]
                } else if down > up {
                    final(self).cur_index == ks[if p + (down - up) < ks.len() {
                        p + (down - up)
                    } else {
                        ks.len() - 1
                    }]
                } else {
                    final(self).cur_index == old(self).cur_index
                }
            }),
    {
        let cur = self.cur_index;
        let next = self.editors.shift_index(&cur, up, down);
        self.cur_index = next;
        proof {
            lemma_key_pos_found(key_seq(self.editors@), cur);
            if up != down {
                let ks = key_seq(self.editors@);
                let p = key_pos(ks, cur);
                let q = if up > down {
                    if p - (up - down) >= 0 {
                        p - (up - down)
                    } else {
                        0
                    }
                } else {
                    if p + (down - up) < ks.len() {
                        p + (down - up)
                    } else {
                        ks.len() - 1
                    }
                };
                assert(self.editors@[q].0 == ks[q]);
                lemma_wf_key_pos(self.editors@, q);
            }
        }
        (cur, next)
    }

    /// Routes one aggregated operation: a resize reshapes the viewport,
    /// Ctrl-b inserts stages, Ctrl-d deletes them, Ctrl-x toggles the
    /// submission flag, a vertical cursor run moves focus, and every other
    /// operation becomes an edit of the focused buffer. `fresh` supplies
    /// buffers for insertion.
    pub fn dispatch(&mut self, event: EventStream, fresh: Vec<T>) -> (r:
        DispatchOutcome)
        requires
            old(self).wf(),
            old(self).editors@.len() + 2 <= usize::MAX,
            (event matches EventStream::Buffer(
                Buffer::Other(OtherEvent::CtrlB, times),
            ) ==> fresh@.len() == times),
        ensures
            final(self).wf(),
            dispatch_post(
                old(self).editors@,
                old(self).cur_index,
                old(self).shape,
                event,
                fresh@,
                final(self).editors@,
                final(self).cur_index,
                final(self).shape,
                r,
            ),
    {
        match event {
            EventStream::Debounce(Debounce::Resize(w, h)) => {
                let (removed, refocused) = self.handle_resize(w, h);
                DispatchOutcome::Resized { removed, refocused }
            },
            EventStream::Buffer(
                Buffer::Other(OtherEvent::CtrlB, times),
            ) => {
                let defocused = self.cur_index;
                let (inserted, full) = self.insert_editors(times, fresh);
                DispatchOutcome::Inserted { inserted, defocused, full }
            },
            EventStream::Buffer(
                Buffer::Other(OtherEvent::CtrlD, times),
            ) => {
                let removed = self.remove_editors(times);
                DispatchOutcome::Removed { removed }
            },
            EventStream::Buffer(
                Buffer::Other(OtherEvent::CtrlX, times),
            ) => {
                let toggled = self.toggle_ignore_current(times);
                DispatchOutcome::Toggled { toggled }
            },
            EventStream::Buffer(
                Buffer::VerticalCursor(up, down),
            ) => {
                let (defocused, focused) = self.move_focus(up, down);
                DispatchOutcome::FocusMoved { defocused, focused }
            },
            ev => DispatchOutcome::Edited { cmd: edit_action(ev) },
        }
    }
}

/// What `dispatch` guarantees, case by case over the incoming operation:
/// each arm restates the corresponding handler's contract.
pub open spec fn dispatch_post<T>(
    m0: Seq<(EditorIndex, Editor<T>)>,
    cur0: EditorIndex,
    shape0: (u16, u16),
    event: EventStream,
    fresh: Seq<T>,
    m1: Seq<(EditorIndex, Editor<T>)>,
    cur1: EditorIndex,
    shape1: (u16, u16),
    r: DispatchOutcome,
) -> bool {
    match event {
        EventStream::Debounce(Debounce::Resize(w, h)) => {
            &&& shape1 == (w, h)
            &&& r matches DispatchOutcome::Resized { removed, refocused }
            &&& if (h as int) < m0.len() + 2 {
                let times = m0.len() + 2 - h;
                let k = if times <= m0.len() - 1 {
                    times
                } else {
                    m0.len() - 1
                };
                &&& m1 =~= m0.take(m0.len() - k)
                &&& cur1 == head_index()
                &&& removed@.len() == k
                &&& (forall|j: int| 0 <= j < k ==> removed@[j] == key_seq(m0)[m0.len() - 1 - j])
                &&& refocused == true
            } else {
                &&& m1 == m0
                &&& cur1 == cur0
                &&& removed@.len() == 0
                &&& refocused == false
            }
        },
        EventStream::Buffer(Buffer::Other(OtherEvent::CtrlB, times)) => {
            let c = insert_chain(m0, cur0, fresh, times as nat, cap_of(shape0.1));
            &&& shape1 == shape0
            &&& m1 == c.entries
            &&& cur1 == c.cur
            &&& r matches DispatchOutcome::Inserted { inserted, defocused, full }
            &&& inserted@ == c.inserted
            &&& defocused == cur0
            &&& full == c.full
        },
        EventStream::Buffer(Buffer::Other(OtherEvent::CtrlD, times)) => {
            let p0 = key_pos(key_seq(m0), cur0);
            let k = if times <= p0 {
                times as int
            } else {
                p0
            };
            &&& shape1 == shape0
            &&& m1 =~= m0.subrange(0, p0 - k + 1) + m0.subrange(p0 + 1, m0.len() as int)
            &&& cur1 == key_seq(m0)[p0 - k]
            &&& r matches DispatchOutcome::Removed { removed }
            &&& removed@.len() == k
            &&& (forall|j: int| 0 <= j < k ==> removed@[j] == key_seq(m0)[p0 - j])
        },
        EventStream::Buffer(Buffer::Other(OtherEvent::CtrlX, times)) => {
            let p = key_pos(key_seq(m0), cur0);
            &&& shape1 == shape0
            &&& cur1 == cur0
            &&& r matches DispatchOutcome::Toggled { toggled }
            &&& toggled == (times % 2 == 1)
            &&& if times % 2 == 1 {
                m1 =~= m0.update(
                    p,
                    (m0[p].0, Editor { state: m0[p].1.state, ignore: !m0[p].1.ignore }),
                )
            } else {
                m1 == m0
            }
        },
        EventStream::Buffer(Buffer::VerticalCursor(up, down)) => {
            let ks = key_seq(m0);
            let p = key_pos(ks, cur0);
            &&& shape1 == shape0
            &&& m1 == m0
            &&& r matches DispatchOutcome::FocusMoved { defocused, focused }
            &&& defocused == cur0
            &&& focused == cur1
            &&& if up > down {
                cur1 == ks[if p - (up - down) >= 0 {
                    p - (up - down)
                } else {
                    0
                }]
            } else if down > up {
                cur1 == ks[if p + (down - up) < ks.len() {
                    p + (down - up)
                } else {
                    ks.len() - 1
                }]
            } else {
                cur1 == cur0
            }
        },
        _ => {
            &&& shape1 == shape0
            &&& m1 == m0
            &&& cur1 == cur0
            &&& r == (DispatchOutcome::Edited { cmd: edit_cmd_of(event) })
        },
    }
}


/// The storage positions of the stages included in submission (those whose
/// excluded flag is off), in key order.
pub open spec fn active_pos<T>(s: Seq<(EditorIndex, Editor<T>)>) -> Seq<int>
    decreases s.len(),
{
    if s.len() == 0 {
        Seq::empty()
    } else {
        let pre = active_pos(s.drop_last());
        if s.last().1.ignore {
            pre
        } else {
            pre.push(s.len() - 1)
        }
    }
}

impl<T> EditorMap<T> {
    /// The positions of the stages included in submission, in key order.
    pub fn active_positions(&self) -> (r: Vec<usize>)
        ensures
            r@.map_values(|x: usize| x as int) =~= active_pos(self@),
    {
        let mut r: Vec<usize> = Vec::new();
        let mut i: usize = 0;
        #[verifier::loop_isolation(false)]
        while i < self.entries.len()
            invariant
                i <= self@.len(),
                r@.map_values(|x: usize| x as int) =~= active_pos(self@.take(i as int)),
            decreases self@.len() - i,
        {
            proof {
                assert(self@.take(i + 1).drop_last() =~= self@.take(i as int));
                assert(self@.take(i + 1).last() == self@[i as int]);
            }
            if !self.entries[i].1.ignore {
                r.push(i);
                proof {
                    assert(r@.map_values(|x: usize| x as int) =~= active_pos(
                        self@.take(i as int),
                    ).push(i as int));
                }
            }
            i = i + 1;
        }
        proof {
            assert(self@.take(self@.len() as int) =~= self@);
        }
        r
    }
}

/// The submitted command texts: those whose trimmed text is non-empty, in
/// order.
pub open spec fn nonblank(texts: Seq<Seq<char>>) -> Seq<Seq<char>>
    decreases texts.len(),
{
    if texts.len() == 0 {
        Seq::empty()
    } else {
        let pre = nonblank(texts.drop_last());
        if crate::pipeline::trimmed(texts.last()).len() == 0 {
            pre
        } else {
            pre.push(texts.last())
        }
    }
}

/// Keeps the texts whose trimmed form is non-empty, in order: blank stage
/// buffers are left out of a submission.
pub fn filter_nonblank(texts: &Vec<String>) -> (r: Vec<String>)
    ensures
        r.deep_view() =~= nonblank(texts.deep_view()),
{
    let mut r: Vec<String> = Vec::new();
    let mut i: usize = 0;
    #[verifier::loop_isolation(false)]
    while i < texts.len()
        invariant
            i <= texts@.len(),
            r.deep_view() =~= nonblank(texts.deep_view().take(i as int)),
        decreases texts@.len() - i,
    {
        proof {
            assert(texts.deep_view().take(i + 1).drop_last() =~= texts.deep_view().take(i as int));
            assert(texts.deep_view().take(i + 1).last() == texts.deep_view()[i as int]);
            assert(texts.deep_view()[i as int] == texts@[i as int]@);
        }
        let kept = crate::pipeline::keeps_when_trimmed(&texts[i]);
        if kept {
            let t = texts[i].clone();
            r.push(t);
            proof {
                assert(r.deep_view() =~= nonblank(texts.deep_view().take(i as int)).push(
                    texts.deep_view()[i as int],
                ));
            }
        }
        i = i + 1;
    }
    proof {
        assert(texts.deep_view().take(texts.deep_view().len() as int) =~= texts.deep_view());
    }
    r
}

/// Inserting one stage next to the focused one and then deleting it
/// restores the pre-insert key set (indeed the whole registry) and the
/// pre-insert focused key: the inserted key sits right after the focus, so
/// its deletion hands the focus straight back.
pub proof fn lemma_insert_then_remove_restores<T>(
    m: Seq<(EditorIndex, Editor<T>)>,
    cur: EditorIndex,
    fresh: Seq<T>,
    cap: nat,
)
    requires
        reg_wf(m),
        key_seq(m).contains(cur),
        m.len() < cap,
        !no_room(m, cur),
        fresh.len() == 1,
    ensures
        ({
            let c = insert_chain(m, cur, fresh, 1, cap);
            let q = key_pos(key_seq(c.entries), c.cur);
            &&& q >= 1
            &&& c.entries.remove(q) =~= m
            &&& key_seq(c.entries)[q - 1] == cur
        }),
{
    reveal_with_fuel(insert_chain, 3);
    let c = insert_chain(m, cur, fresh, 1, cap);
    let k = next_key(m, cur);
    let p = key_pos(key_seq(m), cur);
    lemma_key_pos_found(key_seq(m), cur);
    lemma_next_key_props(m, cur);
    let e2 = m.insert(p + 1, (k, Editor { state: fresh[0], ignore: false }));
    assert(c.entries == e2);
    assert(c.cur == k);
    m.insert_ensures(p + 1, (k, Editor { state: fresh[0], ignore: false }));
    assert(key_seq(e2)[p + 1] == k);
    assert forall|i: int| 0 <= i < p + 1 implies key_seq(e2)[i] != k by {
        assert(key_seq(e2)[i] == key_seq(m)[i]);
        assert(!rat_eq(key_seq(m)[i], k));
        if key_seq(m)[i] == k {
            assert(rat_eq(key_seq(m)[i], k));
        }
    }
    lemma_key_pos_at(key_seq(e2), k, p + 1);
    assert(e2.remove(p + 1) =~= m) by {
        e2.remove_ensures(p + 1);
    }
    assert(key_seq(e2)[p] == key_seq(m)[p]);
}

} // verus!
