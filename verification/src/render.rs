//! Rational ordering keys for editor panes, pane identities, and the
//! ordered pane map used by the render compositor.

use vstd::prelude::*;

verus! {

/// An ordering key `(numerator, denominator)` read as the fraction
/// `numerator / denominator`. Keys are compared by cross-multiplication and
/// are never reduced to lowest terms.
#[derive(Clone, Copy, Debug, Hash, PartialEq, Eq, Structural)]
pub struct EditorIndex(pub usize, pub usize);

/// The permanent head key `1/1`; it is never deleted from a registry.
pub open spec fn head_index() -> EditorIndex {
    EditorIndex(1, 1)
}

/// Cross-multiplication order on keys: `a/b < c/d` iff `a*d < c*b`.
pub open spec fn rat_lt(a: EditorIndex, b: EditorIndex) -> bool {
    a.0 * b.1 < b.0 * a.1
}

/// Two keys denote the same fraction.
pub open spec fn rat_eq(a: EditorIndex, b: EditorIndex) -> bool {
    a.0 * b.1 == b.0 * a.1
}

/// The product of two `usize` values, widened to `u128` so that it cannot
/// overflow.
fn cross(a: usize, b: usize) -> (r: u128)
    ensures
        r == a * b,
{
    proof {
        assert(usize::MAX <= u64::MAX);
        assert((a as u128) * (b as u128) <= u128::MAX) by (nonlinear_arith)
            requires
                a as u128 <= u64::MAX,
                b as u128 <= u64::MAX,
        ;
    }
    (a as u128) * (b as u128)
}

impl EditorIndex {
    /// The permanent head key `1/1`.
    pub fn head() -> (r: EditorIndex)
        ensures
            r == head_index(),
    {
        EditorIndex(1, 1)
    }

    /// Compares `self` and `other` by cross-multiplication, widening to
    /// `u128` so that the products cannot overflow.
    pub fn lt(&self, other: &EditorIndex) -> (r: bool)
        ensures
            r == rat_lt(*self, *other),
    {
        cross(self.0, other.1) < cross(other.0, self.1)
    }

    /// Tests whether `self` and `other` denote the same fraction.
    pub fn rat_equal(&self, other: &EditorIndex) -> (r: bool)
        ensures
            r == rat_eq(*self, *other),
    {
        cross(self.0, other.1) == cross(other.0, self.1)
    }

    /// The mediant `(a+c)/(b+d)` of `a/b` and `c/d`: the canonical key that
    /// lies strictly between two adjacent keys.
    pub fn mediant(a: &EditorIndex, b: &EditorIndex) -> (r: Self)
        requires
            a.0 + b.0 <= usize::MAX,
            a.1 + b.1 <= usize::MAX,
        ensures
            r.0 == a.0 + b.0,
            r.1 == a.1 + b.1,
    {
        Self(a.0 + b.0, a.1 + b.1)
    }
}

/// The mediant of two keys, strictly between them whenever they are strictly
/// ordered: if `a/b < c/d` by cross-multiplication then
/// `a/b < (a+c)/(b+d) < c/d` under the same order.
pub proof fn lemma_mediant_between(a: EditorIndex, b: EditorIndex, m: EditorIndex)
    requires
        rat_lt(a, b),
        m.0 == a.0 + b.0,
        m.1 == a.1 + b.1,
    ensures
        rat_lt(a, m),
        rat_lt(m, b),
{
    assert(a.0 * (a.1 + b.1) < (a.0 + b.0) * a.1) by (nonlinear_arith)
        requires
            a.0 * b.1 < b.0 * a.1,
    ;
    assert((a.0 + b.0) * b.1 < b.0 * (a.1 + b.1)) by (nonlinear_arith)
        requires
            a.0 * b.1 < b.0 * a.1,
    ;
}

/// Strict cross-multiplication order is transitive when the middle key has a
/// positive denominator.
pub proof fn lemma_rat_lt_trans(a: EditorIndex, b: EditorIndex, c: EditorIndex)
    requires
        rat_lt(a, b),
        rat_lt(b, c),
        b.1 > 0,
    ensures
        rat_lt(a, c),
{
    assert(a.0 * c.1 < c.0 * a.1) by (nonlinear_arith)
        requires
            a.0 * b.1 < b.0 * a.1,
            b.0 * c.1 < c.0 * b.1,
            b.1 > 0,
    ;
}

/// A key whose numerator and denominator are both positive; every key a
/// registry or pane map holds satisfies this.
pub open spec fn valid_key(k: EditorIndex) -> bool {
    k.0 >= 1 && k.1 >= 1
}

/// The message shown in the notification pane.
#[derive(Clone, Debug, PartialEq, Eq)]
pub enum NotifyMessage {
    /// Nothing to report; the pane is blank.
    Quiet,
    /// A one-line error message.
    Error(String),
}

/// Identity of one visible pane. Panes are ordered top to bottom:
/// the notification line first, then one pane per editor in key order,
/// then the output region.
#[derive(Clone, Copy, Debug, PartialEq, Eq, Structural)]
pub enum PaneIndex {
    Notify,
    Editor(EditorIndex),
    Output,
}

/// The top-to-bottom order on pane identities:
/// `Notify < Editor(k) < Output`, editors by their rational keys.
pub open spec fn pane_lt(a: PaneIndex, b: PaneIndex) -> bool {
    match (a, b) {
        (PaneIndex::Notify, PaneIndex::Notify) => false,
        (PaneIndex::Notify, _) => true,
        (_, PaneIndex::Notify) => false,
        (PaneIndex::Output, _) => false,
        (_, PaneIndex::Output) => true,
        (PaneIndex::Editor(x), PaneIndex::Editor(y)) => rat_lt(x, y),
    }
}

/// An editor pane's key is positive; the fixed panes carry no key.
pub open spec fn pane_valid(a: PaneIndex) -> bool {
    match a {
        PaneIndex::Editor(k) => valid_key(k),
        _ => true,
    }
}

/// The pane order is transitive when the middle pane carries a positive key.
pub proof fn lemma_pane_lt_trans(a: PaneIndex, b: PaneIndex, c: PaneIndex)
    requires
        pane_lt(a, b),
        pane_lt(b, c),
        pane_valid(b),
    ensures
        pane_lt(a, c),
{
    if a is Editor && b is Editor && c is Editor {
        lemma_rat_lt_trans(a->Editor_0, b->Editor_0, c->Editor_0);
    }
}

/// Compares two pane identities under the top-to-bottom order.
pub fn pane_before(a: &PaneIndex, b: &PaneIndex) -> (r: bool)
    ensures
        r == pane_lt(*a, *b),
{
    match (a, b) {
        (PaneIndex::Notify, PaneIndex::Notify) => false,
        (PaneIndex::Notify, _) => true,
        (_, PaneIndex::Notify) => false,
        (PaneIndex::Output, _) => false,
        (_, PaneIndex::Output) => true,
        (PaneIndex::Editor(x), PaneIndex::Editor(y)) => x.lt(y),
    }
}

/// Replaces the value stored under `k`, or inserts `(k, v)` at its ordered
/// position when no pane compares equal to `k`. When a pane equal to `k` is
/// already present, its stored identity is kept and only the value changes.
pub open spec fn upsert<P>(s: Seq<(PaneIndex, P)>, k: PaneIndex, v: P) -> Seq<(PaneIndex, P)>
    decreases s.len(),
{
    if s.len() == 0 {
        seq![(k, v)]
    } else if pane_lt(s[0].0, k) {
        seq![s[0]] + upsert(s.drop_first(), k, v)
    } else if pane_lt(k, s[0].0) {
        seq![(k, v)] + s
    } else {
        seq![(s[0].0, v)] + s.drop_first()
    }
}

/// `upsert` applied to each of `items` in order.
pub open spec fn upsert_all<P>(s: Seq<(PaneIndex, P)>, items: Seq<(PaneIndex, P)>) -> Seq<
    (PaneIndex, P),
>
    decreases items.len(),
{
    if items.len() == 0 {
        s
    } else {
        upsert_all(upsert(s, items[0].0, items[0].1), items.drop_first())
    }
}

/// Removes the pane that compares equal to `k`, if any.
pub open spec fn unset<P>(s: Seq<(PaneIndex, P)>, k: PaneIndex) -> Seq<(PaneIndex, P)>
    decreases s.len(),
{
    if s.len() == 0 {
        s
    } else if pane_lt(s[0].0, k) {
        seq![s[0]] + unset(s.drop_first(), k)
    } else if pane_lt(k, s[0].0) {
        s
    } else {
        s.drop_first()
    }
}

/// `unset` applied to each of `items` in order.
pub open spec fn unset_all<P>(s: Seq<(PaneIndex, P)>, items: Seq<PaneIndex>) -> Seq<(PaneIndex, P)>
    decreases items.len(),
{
    if items.len() == 0 {
        s
    } else {
        unset_all(unset(s, items[0]), items.drop_first())
    }
}

/// The ordered set of visible panes: one value of type `P` per pane
/// identity, kept sorted top to bottom. Each physical draw hands the whole
/// ordered set to the terminal, so there is no partial redraw.
pub struct Renderer<P> {
    entries: Vec<(PaneIndex, P)>,
}

impl<P> Renderer<P> {
    /// The panes in top-to-bottom order.
    pub closed spec fn panes(&self) -> Seq<(PaneIndex, P)> {
        self.entries@
    }

    /// Panes are strictly sorted (so identities are pairwise distinct) and
    /// every editor pane carries a positive key.
    pub closed spec fn wf(&self) -> bool {
        &&& forall|i: int, j: int|
            0 <= i < j < self.entries@.len() ==> pane_lt(
                #[trigger] self.entries@[i].0,
                #[trigger] self.entries@[j].0,
            )
        &&& forall|i: int| 0 <= i < self.entries@.len() ==> pane_valid(#[trigger] self.entries@[i].0)
    }

    /// A fresh compositor holding the three initial panes: the notification
    /// line, the head editor, and the output region.
    pub fn new(notify: P, head_editor: P, output: P) -> (r: Self)
        ensures
            r.wf(),
            r.panes() =~= seq![
                (PaneIndex::Notify, notify),
                (PaneIndex::Editor(head_index()), head_editor),
                (PaneIndex::Output, output),
            ],
    {
        let mut entries: Vec<(PaneIndex, P)> = Vec::new();
        entries.push((PaneIndex::Notify, notify));
        entries.push((PaneIndex::Editor(EditorIndex(1, 1)), head_editor));
        entries.push((PaneIndex::Output, output));
        Renderer { entries }
    }

    /// How many panes are visible.
    pub fn len(&self) -> (r: usize)
        ensures
            r == self.panes().len(),
    {
        self.entries.len()
    }

    /// The `i`-th pane from the top.
    pub fn pane_at(&self, i: usize) -> (r: &(PaneIndex, P))
        requires
            i < self.panes().len(),
        ensures
            *r == self.panes()[i as int],
    {
        &self.entries[i]
    }

    /// Stores `v` under `k`: replaces the pane equal to `k` or inserts a new
    /// one at its ordered position.
    pub fn update_one(&mut self, k: PaneIndex, v: P)
        requires
            old(self).wf(),
            pane_valid(k),
        ensures
            final(self).wf(),
            final(self).panes() == upsert(old(self).panes(), k, v),
    {
        let ghost s0 = self.entries@;
        let mut p: usize = 0;
        while p < self.entries.len() && pane_before(&self.entries[p].0, &k)
            invariant
                p <= self.entries@.len(),
                self.entries@ == s0,
                forall|i: int| 0 <= i < p ==> pane_lt(#[trigger] s0[i].0, k),
            decreases self.entries@.len() - p,
        {
            p = p + 1;
        }
        if p < self.entries.len() && !pane_before(&k, &self.entries[p].0) {
            let stored = self.entries[p].0;
            self.entries.set(p, (stored, v));
            proof {
                lemma_upsert_replaces(s0, k, v, p as int);
            }
        } else {
            self.entries.insert(p, (k, v));
            proof {
                lemma_upsert_inserts(s0, k, v, p as int);
                s0.insert_ensures(p as int, (k, v));
                assert forall|i: int, j: int|
                    0 <= i < j < self.entries@.len() implies pane_lt(
                    #[trigger] self.entries@[i].0,
                    #[trigger] self.entries@[j].0,
                ) by {
                    if p < j {
                        assert(pane_lt(k, s0[j - 1].0)) by {
                            if j - 1 > p {
                                lemma_pane_lt_trans(k, s0[p as int].0, s0[j - 1].0);
                            }
                        }
                    }
                    if i < p && p < j {
                        lemma_pane_lt_trans(s0[i].0, k, s0[j - 1].0);
                    }
                }
            }
        }
    }

    /// Removes the pane equal to `k`, if present.
    pub fn remove_one(&mut self, k: PaneIndex)
        requires
            old(self).wf(),
        ensures
            final(self).wf(),
            final(self).panes() == unset(old(self).panes(), k),
    {
        let ghost s0 = self.entries@;
        let mut p: usize = 0;
        while p < self.entries.len() && pane_before(&self.entries[p].0, &k)
            invariant
                p <= self.entries@.len(),
                self.entries@ == s0,
                forall|i: int| 0 <= i < p ==> pane_lt(#[trigger] s0[i].0, k),
            decreases self.entries@.len() - p,
        {
            p = p + 1;
        }
        if p < self.entries.len() && !pane_before(&k, &self.entries[p].0) {
            self.entries.remove(p);
            proof {
                lemma_unset_removes(s0, k, p as int);
            }
        } else {
            proof {
                lemma_unset_misses(s0, k, p as int);
            }
        }
    }

    /// Applies a batch of pane updates in order.
    pub fn update(&mut self, items: Vec<(PaneIndex, P)>)
        requires
            old(self).wf(),
            forall|i: int| 0 <= i < items@.len() ==> pane_valid(#[trigger] items@[i].0),
        ensures
            final(self).wf(),
            final(self).panes() == upsert_all(old(self).panes(), items@),
    {
        let ghost items0 = items@;
        let mut rest = items;
        while rest.len() > 0
            invariant
                self.wf(),
                forall|i: int| 0 <= i < rest@.len() ==> pane_valid(#[trigger] rest@[i].0),
                upsert_all(old(self).panes(), items0) == upsert_all(self.panes(), rest@),
            decreases rest@.len(),
        {
            let (k, v) = rest.remove(0);
            let ghost before = self.panes();
            let ghost rest_before = seq![(k, v)] + rest@;
            self.update_one(k, v);
            proof {
                assert(rest_before.drop_first() =~= rest@);
                assert(upsert_all(before, rest_before) == upsert_all(self.panes(), rest@));
            }
        }
        proof {
            assert(upsert_all(self.panes(), rest@) == self.panes());
        }
    }

    /// Removes a batch of panes in order.
    pub fn remove(&mut self, items: Vec<PaneIndex>)
        requires
            old(self).wf(),
        ensures
            final(self).wf(),
            final(self).panes() == unset_all(old(self).panes(), items@),
    {
        let ghost items0 = items@;
        let mut rest = items;
        while rest.len() > 0
            invariant
                self.wf(),
                unset_all(old(self).panes(), items0) == unset_all(self.panes(), rest@),
            decreases rest@.len(),
        {
            let k = rest.remove(0);
            let ghost before = self.panes();
            let ghost rest_before = seq![k] + rest@;
            self.remove_one(k);
            proof {
                assert(rest_before.drop_first() =~= rest@);
                assert(unset_all(before, rest_before) == unset_all(self.panes(), rest@));
            }
        }
        proof {
            assert(unset_all(self.panes(), rest@) == self.panes());
        }
    }
}

/// When everything before position `p` is strictly below `k` and the pane at
/// `p` compares equal to `k`, `upsert` replaces the value at `p`.
proof fn lemma_upsert_replaces<P>(s: Seq<(PaneIndex, P)>, k: PaneIndex, v: P, p: int)
    requires
        0 <= p < s.len(),
        forall|i: int| 0 <= i < p ==> pane_lt(#[trigger] s[i].0, k),
        !pane_lt(s[p].0, k),
        !pane_lt(k, s[p].0),
    ensures
        upsert(s, k, v) =~= s.update(p, (s[p].0, v)),
    decreases p,
{
    if p == 0 {
    } else {
        lemma_upsert_replaces(s.drop_first(), k, v, p - 1);
        assert(upsert(s, k, v) =~= seq![s[0]] + upsert(s.drop_first(), k, v));
    }
}

/// When everything before position `p` is strictly below `k` and the pane at
/// `p` (if any) is strictly above, `upsert` inserts `(k, v)` at `p`.
proof fn lemma_upsert_inserts<P>(s: Seq<(PaneIndex, P)>, k: PaneIndex, v: P, p: int)
    requires
        0 <= p <= s.len(),
        forall|i: int| 0 <= i < p ==> pane_lt(#[trigger] s[i].0, k),
        p < s.len() ==> pane_lt(k, s[p].0),
    ensures
        upsert(s, k, v) =~= s.insert(p, (k, v)),
    decreases p,
{
    if p == 0 {
    } else {
        lemma_upsert_inserts(s.drop_first(), k, v, p - 1);
        assert(upsert(s, k, v) =~= seq![s[0]] + upsert(s.drop_first(), k, v));
    }
}

/// When everything before position `p` is strictly below `k` and the pane at
/// `p` compares equal to `k`, `unset` removes position `p`.
proof fn lemma_unset_removes<P>(s: Seq<(PaneIndex, P)>, k: PaneIndex, p: int)
    requires
        0 <= p < s.len(),
        forall|i: int| 0 <= i < p ==> pane_lt(#[trigger] s[i].0, k),
        !pane_lt(s[p].0, k),
        !pane_lt(k, s[p].0),
    ensures
        unset(s, k) =~= s.remove(p),
    decreases p,
{
    if p == 0 {
    } else {
        lemma_unset_removes(s.drop_first(), k, p - 1);
        assert(unset(s, k) =~= seq![s[0]] + unset(s.drop_first(), k));
    }
}

/// When everything before position `p` is strictly below `k` and the pane at
/// `p` (if any) is strictly above, no pane equals `k` and `unset` is the
/// identity.
proof fn lemma_unset_misses<P>(s: Seq<(PaneIndex, P)>, k: PaneIndex, p: int)
    requires
        0 <= p <= s.len(),
        forall|i: int| 0 <= i < p ==> pane_lt(#[trigger] s[i].0, k),
        p < s.len() ==> pane_lt(k, s[p].0),
    ensures
        unset(s, k) =~= s,
    decreases p,
{
    if p == 0 {
    } else {
        lemma_unset_misses(s.drop_first(), k, p - 1);
        assert(unset(s, k) =~= seq![s[0]] + unset(s.drop_first(), k));
    }
}

} // verus!
