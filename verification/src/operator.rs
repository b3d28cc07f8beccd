//! Event aggregation: raw terminal events batched on a timer tick are
//! folded into an ordered sequence of semantic operations. Consecutive
//! events of one category merge into a single operation; resize events are
//! debounced to the last value seen, spliced in at the position of the
//! first resize of the batch.

use vstd::prelude::*;

verus! {

/// A key pressed together with a modifier, or any other event that is
/// neither plain text, a cursor arrow, a wheel movement, nor a resize.
/// Carried through aggregation by identity: equal values merge into one
/// counted operation.
#[derive(Clone, Copy, Debug, Hash, PartialEq, Eq, Structural)]
pub enum OtherEvent {
    CtrlA,
    CtrlB,
    CtrlC,
    CtrlD,
    CtrlE,
    CtrlF,
    CtrlU,
    CtrlW,
    CtrlX,
    AltB,
    AltD,
    AltF,
    Backspace,
    Enter,
    Esc,
    /// Any event the model does not name, tagged by an identity code the
    /// caller chooses; equal codes merge.
    Unrecognized(u32),
}

/// One raw input event, already classified into the categories the
/// aggregator merges: a printable character, a cursor arrow, a mouse wheel
/// step, a terminal resize, or one of the remaining events.
#[derive(Clone, Copy, Debug, PartialEq, Eq, Structural)]
pub enum RawEvent {
    Char(char),
    CursorUp,
    CursorDown,
    CursorLeft,
    CursorRight,
    WheelUp,
    WheelDown,
    WheelLeft,
    WheelRight,
    Resize(u16, u16),
    Other(OtherEvent),
}

/// A merged run of events of one category: the characters of a text run,
/// direction step counts as `(up, down)` or `(left, right)` pairs, or a
/// repeated other event with its count.
#[derive(Clone, Debug, PartialEq, Eq)]
pub enum Buffer {
    Key(Vec<char>),
    VerticalCursor(usize, usize),
    VerticalScroll(usize, usize),
    HorizontalCursor(usize, usize),
    HorizontalScroll(usize, usize),
    Other(OtherEvent, usize),
}

/// An operation that collapses a burst to one representative: the debounced
/// terminal resize, carrying the last `(width, height)` seen in the batch.
#[derive(Clone, Copy, Debug, PartialEq, Eq, Structural)]
pub enum Debounce {
    Resize(u16, u16),
}

/// One semantic operation produced by aggregation.
#[derive(Clone, Debug, PartialEq, Eq)]
pub enum EventStream {
    Buffer(Buffer),
    Debounce(Debounce),
}

/// The mathematical value of one semantic operation.
pub enum OpView {
    Key(Seq<char>),
    VerticalCursor(nat, nat),
    VerticalScroll(nat, nat),
    HorizontalCursor(nat, nat),
    HorizontalScroll(nat, nat),
    Other(OtherEvent, nat),
    Resize(u16, u16),
}

impl View for EventStream {
    type V = OpView;

    open spec fn view(&self) -> OpView {
        match self {
            EventStream::Buffer(b) => match b {
                Buffer::Key(cs) => OpView::Key(cs@),
                Buffer::VerticalCursor(u, d) => OpView::VerticalCursor(*u as nat, *d as nat),
                Buffer::VerticalScroll(u, d) => OpView::VerticalScroll(*u as nat, *d as nat),
                Buffer::HorizontalCursor(l, r) => OpView::HorizontalCursor(*l as nat, *r as nat),
                Buffer::HorizontalScroll(l, r) => OpView::HorizontalScroll(*l as nat, *r as nat),
                Buffer::Other(o, c) => OpView::Other(*o, *c as nat),
            },
            EventStream::Debounce(Debounce::Resize(w, h)) => OpView::Resize(*w, *h),
        }
    }
}

impl DeepView for EventStream {
    type V = OpView;

    open spec fn deep_view(&self) -> OpView {
        self.view()
    }
}

/// The one open accumulator of the aggregation fold (at most one category
/// is ever open; an event of another category first flushes it).
pub enum AccView {
    TextRun(Seq<char>),
    Vertical(nat, nat),
    VScroll(nat, nat),
    Horizontal(nat, nat),
    HScroll(nat, nat),
    Other(OtherEvent, nat),
}

/// The state of the aggregation fold: operations already emitted, the open
/// accumulator, and the resize debounce (last value seen, position of the
/// first resize).
pub struct AggState {
    pub out: Seq<OpView>,
    pub acc: Option<AccView>,
    pub last_resize: Option<(u16, u16)>,
    pub resize_at: Option<nat>,
}

/// The operation an open accumulator flushes to.
pub open spec fn acc_op(a: AccView) -> OpView {
    match a {
        AccView::TextRun(cs) => OpView::Key(cs),
        AccView::Vertical(u, d) => OpView::VerticalCursor(u, d),
        AccView::VScroll(u, d) => OpView::VerticalScroll(u, d),
        AccView::Horizontal(l, r) => OpView::HorizontalCursor(l, r),
        AccView::HScroll(l, r) => OpView::HorizontalScroll(l, r),
        AccView::Other(o, c) => OpView::Other(o, c),
    }
}

/// Emits the open accumulator, if any.
pub open spec fn flush(s: AggState) -> AggState {
    match s.acc {
        Option::None => s,
        Option::Some(a) => AggState { out: s.out.push(acc_op(a)), acc: Option::None, ..s },
    }
}

/// Folds one character event: extends an open text run, or flushes
/// whatever else is open and starts a fresh run.
pub open spec fn step_char(s: AggState, c: char) -> AggState {
    match s.acc {
        Option::Some(AccView::TextRun(cs)) => AggState {
            acc: Option::Some(AccView::TextRun(cs.push(c))),
            ..s
        },
        _ => {
            let f = flush(s);
            AggState { acc: Option::Some(AccView::TextRun(seq![c])), ..f }
        },
    }
}

/// Folds one vertical cursor step.
pub open spec fn step_vertical(s: AggState, du: nat, dd: nat) -> AggState {
    match s.acc {
        Option::Some(AccView::Vertical(u, d)) => AggState {
            acc: Option::Some(AccView::Vertical(u + du, d + dd)),
            ..s
        },
        _ => {
            let f = flush(s);
            AggState { acc: Option::Some(AccView::Vertical(du, dd)), ..f }
        },
    }
}

/// Folds one vertical wheel step.
pub open spec fn step_vscroll(s: AggState, du: nat, dd: nat) -> AggState {
    match s.acc {
        Option::Some(AccView::VScroll(u, d)) => AggState {
            acc: Option::Some(AccView::VScroll(u + du, d + dd)),
            ..s
        },
        _ => {
            let f = flush(s);
            AggState { acc: Option::Some(AccView::VScroll(du, dd)), ..f }
        },
    }
}

/// Folds one horizontal cursor step.
pub open spec fn step_horizontal(s: AggState, dl: nat, dr: nat) -> AggState {
    match s.acc {
        Option::Some(AccView::Horizontal(l, r)) => AggState {
            acc: Option::Some(AccView::Horizontal(l + dl, r + dr)),
            ..s
        },
        _ => {
            let f = flush(s);
            AggState { acc: Option::Some(AccView::Horizontal(dl, dr)), ..f }
        },
    }
}

/// Folds one horizontal wheel step.
pub open spec fn step_hscroll(s: AggState, dl: nat, dr: nat) -> AggState {
    match s.acc {
        Option::Some(AccView::HScroll(l, r)) => AggState {
            acc: Option::Some(AccView::HScroll(l + dl, r + dr)),
            ..s
        },
        _ => {
            let f = flush(s);
            AggState { acc: Option::Some(AccView::HScroll(dl, dr)), ..f }
        },
    }
}

/// Folds one other event: an identical neighbor increments the count, a
/// different one flushes first.
pub open spec fn step_other(s: AggState, o: OtherEvent) -> AggState {
    match s.acc {
        Option::Some(AccView::Other(o2, c)) => {
            if o2 == o {
                AggState { acc: Option::Some(AccView::Other(o2, c + 1)), ..s }
            } else {
                let f = flush(s);
                AggState { acc: Option::Some(AccView::Other(o, 1)), ..f }
            }
        },
        _ => {
            let f = flush(s);
            AggState { acc: Option::Some(AccView::Other(o, 1)), ..f }
        },
    }
}

/// Folds one resize: flushes everything open, keeps the latest value, and
/// records the output position where the debounced resize will stand. Each
/// resize re-records it, so within a contiguous run of resizes it stays at
/// the run's start, and a later run supersedes an earlier one.
pub open spec fn step_resize(s: AggState, w: u16, h: u16) -> AggState {
    let f = flush(s);
    AggState {
        last_resize: Option::Some((w, h)),
        resize_at: Option::Some(f.out.len()),
        ..f
    }
}

/// Folds one raw event.
pub open spec fn step(s: AggState, e: RawEvent) -> AggState {
    match e {
        RawEvent::Char(c) => step_char(s, c),
        RawEvent::CursorUp => step_vertical(s, 1, 0),
        RawEvent::CursorDown => step_vertical(s, 0, 1),
        RawEvent::CursorLeft => step_horizontal(s, 1, 0),
        RawEvent::CursorRight => step_horizontal(s, 0, 1),
        RawEvent::WheelUp => step_vscroll(s, 1, 0),
        RawEvent::WheelDown => step_vscroll(s, 0, 1),
        RawEvent::WheelLeft => step_hscroll(s, 1, 0),
        RawEvent::WheelRight => step_hscroll(s, 0, 1),
        RawEvent::Resize(w, h) => step_resize(s, w, h),
        RawEvent::Other(o) => step_other(s, o),
    }
}

/// The empty fold state.
pub open spec fn init_state() -> AggState {
    AggState {
        out: Seq::empty(),
        acc: Option::None,
        last_resize: Option::None,
        resize_at: Option::None,
    }
}

/// The fold state after consuming a whole batch, in order.
pub open spec fn fold_events(events: Seq<RawEvent>) -> AggState
    decreases events.len(),
{
    if events.len() == 0 {
        init_state()
    } else {
        step(fold_events(events.drop_last()), events.last())
    }
}

/// Ends the batch: flushes what is still open, then splices the debounced
/// resize in at the recorded position.
pub open spec fn finish(s: AggState) -> Seq<OpView> {
    let f = flush(s);
    match (s.last_resize, s.resize_at) {
        (Option::Some(wh), Option::Some(i)) => f.out.insert(i as int, OpView::Resize(wh.0, wh.1)),
        _ => f.out,
    }
}

/// What a batch of raw events aggregates to. Pure and deterministic: the
/// output depends on the input sequence alone.
pub open spec fn aggregate(events: Seq<RawEvent>) -> Seq<OpView> {
    finish(fold_events(events))
}

/// A batch slice `events` that is one character run: the `i`-th event
/// carries the `i`-th character of `cs`.
pub open spec fn is_char_run(events: Seq<RawEvent>, cs: Seq<char>) -> bool {
    &&& events.len() == cs.len()
    &&& forall|i: int| 0 <= i < events.len() ==> events[i] == RawEvent::Char(cs[i])
}

/// A batch slice that is `k` identical other events.
pub open spec fn is_other_run(events: Seq<RawEvent>, o: OtherEvent, k: nat) -> bool {
    &&& events.len() == k
    &&& forall|i: int| 0 <= i < events.len() ==> events[i] == RawEvent::Other(o)
}

/// Whether the batch contains a resize event.
pub open spec fn has_resize(events: Seq<RawEvent>) -> bool {
    exists|i: int| 0 <= i < events.len() && (#[trigger] events[i]) is Resize
}

/// The `(width, height)` of the last resize event of the batch.
pub open spec fn last_resize_value(events: Seq<RawEvent>) -> (u16, u16)
    recommends
        has_resize(events),
    decreases events.len(),
{
    if events.len() == 0 {
        (0, 0)
    } else {
        match events.last() {
            RawEvent::Resize(w, h) => (w, h),
            _ => last_resize_value(events.drop_last()),
        }
    }
}

/// The index of the first resize event of the batch.
pub open spec fn first_resize_at(events: Seq<RawEvent>) -> int
    recommends
        has_resize(events),
    decreases events.len(),
{
    if events.len() == 0 {
        0
    } else if has_resize(events.drop_last()) {
        first_resize_at(events.drop_last())
    } else {
        events.len() - 1
    }
}

/// The index of the last resize event of the batch.
pub open spec fn last_resize_at(events: Seq<RawEvent>) -> int
    recommends
        has_resize(events),
    decreases events.len(),
{
    if events.len() == 0 {
        0
    } else if events.last() is Resize {
        events.len() - 1
    } else {
        last_resize_at(events.drop_last())
    }
}

/// Where the debounced resize stands in the output: how many operations
/// had been emitted (the open accumulator flushed) when the last resize
/// arrived. Within one contiguous run of resizes this is the run's start.
pub open spec fn debounce_pos(events: Seq<RawEvent>) -> int
    recommends
        has_resize(events),
{
    flush(fold_events(events.take(last_resize_at(events)))).out.len() as int
}

/// The batch's resizes form one contiguous run.
pub open spec fn single_resize_run(events: Seq<RawEvent>) -> bool {
    forall|i: int|
        first_resize_at(events) <= i <= last_resize_at(events) ==> (#[trigger] events[i]) is Resize
}

/// Identical batches aggregate identically: aggregation is a pure function
/// of the input sequence, with no hidden state across calls.
pub proof fn lemma_aggregate_deterministic(e1: Seq<RawEvent>, e2: Seq<RawEvent>)
    requires
        e1 == e2,
    ensures
        aggregate(e1) == aggregate(e2),
{
}

/// After folding a non-empty pure character run the whole run sits in the
/// open accumulator and nothing has been emitted.
proof fn lemma_fold_char_run(events: Seq<RawEvent>, cs: Seq<char>)
    requires
        is_char_run(events, cs),
        cs.len() >= 1,
    ensures
        fold_events(events) == (AggState {
            out: Seq::<OpView>::empty(),
            acc: Option::Some(AccView::TextRun(cs)),
            last_resize: Option::None,
            resize_at: Option::None,
        }),
    decreases cs.len(),
{
    assert(events.last() == RawEvent::Char(cs.last()));
    if cs.len() == 1 {
        assert(seq![cs.last()] =~= cs);
    } else {
        assert(is_char_run(events.drop_last(), cs.drop_last()));
        lemma_fold_char_run(events.drop_last(), cs.drop_last());
        assert(cs.drop_last().push(cs.last()) =~= cs);
    }
}

/// A run of `k` consecutive character events aggregates to exactly one
/// character-run operation carrying those `k` characters in order.
pub proof fn lemma_char_run_aggregates(events: Seq<RawEvent>, cs: Seq<char>)
    requires
        is_char_run(events, cs),
        cs.len() >= 1,
    ensures
        aggregate(events) =~= seq![OpView::Key(cs)],
{
    lemma_fold_char_run(events, cs);
}

/// After folding a run of `k` identical other events the open accumulator
/// carries the event with count `k` and nothing has been emitted.
proof fn lemma_fold_other_run(events: Seq<RawEvent>, o: OtherEvent, k: nat)
    requires
        is_other_run(events, o, k),
        k >= 1,
    ensures
        fold_events(events) == (AggState {
            out: Seq::<OpView>::empty(),
            acc: Option::Some(AccView::Other(o, k)),
            last_resize: Option::None,
            resize_at: Option::None,
        }),
    decreases k,
{
    assert(events.last() == RawEvent::Other(o));
    if k > 1 {
        assert(is_other_run(events.drop_last(), o, (k - 1) as nat));
        lemma_fold_other_run(events.drop_last(), o, (k - 1) as nat);
    }
}

/// A run of `k` identical non-character other events aggregates to exactly
/// one operation carrying that event and the count `k`.
pub proof fn lemma_other_run_aggregates(events: Seq<RawEvent>, o: OtherEvent, k: nat)
    requires
        is_other_run(events, o, k),
        k >= 1,
    ensures
        aggregate(events) =~= seq![OpView::Other(o, k)],
{
    lemma_fold_other_run(events, o, k);
}

/// Two adjacent runs of distinct categories stay two operations, in
/// arrival order: a character run followed by a run of identical other
/// events is never merged across the interruption.
pub proof fn lemma_char_then_other_run(
    events: Seq<RawEvent>,
    cs: Seq<char>,
    o: OtherEvent,
    k: nat,
)
    requires
        events.len() == cs.len() + k,
        is_char_run(events.take(cs.len() as int), cs),
        is_other_run(events.skip(cs.len() as int), o, k),
        cs.len() >= 1,
        k >= 1,
    ensures
        aggregate(events) =~= seq![OpView::Key(cs), OpView::Other(o, k)],
{
    lemma_fold_two_runs(events, cs, o, k);
}

/// Folding a character run then `k` identical other events leaves the
/// character operation emitted and the other run open with count `k`.
proof fn lemma_fold_two_runs(events: Seq<RawEvent>, cs: Seq<char>, o: OtherEvent, k: nat)
    requires
        events.len() == cs.len() + k,
        is_char_run(events.take(cs.len() as int), cs),
        is_other_run(events.skip(cs.len() as int), o, k),
        cs.len() >= 1,
        k >= 1,
    ensures
        fold_events(events) == (AggState {
            out: seq![OpView::Key(cs)],
            acc: Option::Some(AccView::Other(o, k)),
            last_resize: Option::None,
            resize_at: Option::None,
        }),
    decreases k,
{
    assert(events.last() == events.skip(cs.len() as int)[k - 1]);
    assert(events.last() == RawEvent::Other(o));
    if k == 1 {
        assert(is_char_run(events.drop_last(), cs)) by {
            assert(events.drop_last() =~= events.take(cs.len() as int));
        }
        lemma_fold_char_run(events.drop_last(), cs);
    } else {
        assert(events.drop_last().take(cs.len() as int) =~= events.take(cs.len() as int));
        assert(is_other_run(events.drop_last().skip(cs.len() as int), o, (k - 1) as nat)) by {
            assert(events.drop_last().skip(cs.len() as int) =~= events.skip(
                cs.len() as int,
            ).drop_last());
        }
        lemma_fold_two_runs(events.drop_last(), cs, o, (k - 1) as nat);
    }
}

/// The dual interruption: a run of identical other events followed by a
/// character run yields the two operations in arrival order, never merged
/// across the interruption.
pub proof fn lemma_other_then_char_run(
    events: Seq<RawEvent>,
    o: OtherEvent,
    k: nat,
    cs: Seq<char>,
)
    requires
        events.len() == k + cs.len(),
        is_other_run(events.take(k as int), o, k),
        is_char_run(events.skip(k as int), cs),
        k >= 1,
        cs.len() >= 1,
    ensures
        aggregate(events) =~= seq![OpView::Other(o, k), OpView::Key(cs)],
{
    lemma_fold_other_then_char(events, o, k, cs);
}

/// Folding an other run then a character run leaves the other operation
/// emitted and the character run open.
proof fn lemma_fold_other_then_char(events: Seq<RawEvent>, o: OtherEvent, k: nat, cs: Seq<char>)
    requires
        events.len() == k + cs.len(),
        is_other_run(events.take(k as int), o, k),
        is_char_run(events.skip(k as int), cs),
        k >= 1,
        cs.len() >= 1,
    ensures
        fold_events(events) == (AggState {
            out: seq![OpView::Other(o, k)],
            acc: Option::Some(AccView::TextRun(cs)),
            last_resize: Option::None,
            resize_at: Option::None,
        }),
    decreases cs.len(),
{
    assert(events.last() == events.skip(k as int)[cs.len() - 1]);
    assert(events.last() == RawEvent::Char(cs.last()));
    if cs.len() == 1 {
        assert(is_other_run(events.drop_last(), o, k)) by {
            assert(events.drop_last() =~= events.take(k as int));
        }
        lemma_fold_other_run(events.drop_last(), o, k);
        assert(seq![cs.last()] =~= cs);
    } else {
        assert(events.drop_last().take(k as int) =~= events.take(k as int));
        assert(is_char_run(events.drop_last().skip(k as int), cs.drop_last())) by {
            assert(events.drop_last().skip(k as int) =~= events.skip(k as int).drop_last());
        }
        lemma_fold_other_then_char(events.drop_last(), o, k, cs.drop_last());
        assert(cs.drop_last().push(cs.last()) =~= cs);
    }
}

/// The facts the fold maintains about the resize debounce: the recorded
/// value and position exist exactly when the batch holds a resize, the
/// value is the last one seen, the position is where the operations stood
/// at the last resize, and no emitted operation is itself a resize.
proof fn lemma_fold_facts(events: Seq<RawEvent>)
    ensures
        fold_events(events).last_resize is Some <==> has_resize(events),
        fold_events(events).resize_at is Some <==> has_resize(events),
        has_resize(events) ==> fold_events(events).last_resize == Option::Some(
            last_resize_value(events),
        ),
        has_resize(events) ==> fold_events(events).resize_at == Option::Some(
            debounce_pos(events) as nat,
        ),
        fold_events(events).resize_at matches Some(x) ==> x <= fold_events(events).out.len(),
        forall|m: int|
            0 <= m < fold_events(events).out.len() ==> !((#[trigger] fold_events(
                events,
            ).out[m]) is Resize),
    decreases events.len(),
{
    if events.len() == 0 {
    } else {
        let pre = events.drop_last();
        let e = events.last();
        lemma_fold_facts(pre);
        assert(has_resize(pre) ==> has_resize(events)) by {
            if has_resize(pre) {
                let w = choose|w: int| 0 <= w < pre.len() && pre[w] is Resize;
                assert(events[w] is Resize);
            }
        }
        if e is Resize {
            assert(events[events.len() - 1] is Resize);
            assert(has_resize(events));
            assert(last_resize_at(events) == events.len() - 1);
            assert(events.take(events.len() - 1) =~= pre);
        } else {
            assert(has_resize(events) ==> has_resize(pre)) by {
                if has_resize(events) {
                    let w = choose|w: int| 0 <= w < events.len() && events[w] is Resize;
                    assert(w < pre.len());
                    assert(pre[w] is Resize);
                }
            }
            if has_resize(pre) {
                let j = last_resize_at(pre);
                lemma_last_resize_bounds(pre);
                assert(events.take(j) =~= pre.take(j));
                assert(last_resize_at(events) == j);
            }
        }
    }
}

/// The last resize of a batch that has one lies inside the batch.
proof fn lemma_last_resize_bounds(events: Seq<RawEvent>)
    requires
        has_resize(events),
    ensures
        0 <= last_resize_at(events) < events.len(),
        events[last_resize_at(events)] is Resize,
    decreases events.len(),
{
    if events.last() is Resize {
    } else {
        let pre = events.drop_last();
        assert(has_resize(pre)) by {
            let w = choose|w: int| 0 <= w < events.len() && events[w] is Resize;
            assert(w < pre.len());
            assert(pre[w] is Resize);
        }
        lemma_last_resize_bounds(pre);
        assert(events[last_resize_at(pre)] == pre[last_resize_at(pre)]);
    }
}

/// The first resize of a batch that has one lies inside the batch, and
/// nothing before it is a resize.
proof fn lemma_first_resize_bounds(events: Seq<RawEvent>)
    requires
        has_resize(events),
    ensures
        0 <= first_resize_at(events) < events.len(),
        events[first_resize_at(events)] is Resize,
        !has_resize(events.take(first_resize_at(events))),
        first_resize_at(events) <= last_resize_at(events),
    decreases events.len(),
{
    lemma_last_resize_bounds(events);
    let pre = events.drop_last();
    if has_resize(pre) {
        lemma_first_resize_bounds(pre);
        lemma_last_resize_bounds(pre);
        assert(events[first_resize_at(pre)] == pre[first_resize_at(pre)]);
        assert(events.take(first_resize_at(events)) =~= pre.take(first_resize_at(pre)));
        if !(events.last() is Resize) {
            assert(last_resize_at(events) == last_resize_at(pre));
        }
    } else {
        assert(events.last() is Resize) by {
            let w = choose|w: int| 0 <= w < events.len() && events[w] is Resize;
            if w < events.len() - 1 {
                assert(pre[w] is Resize);
                assert(has_resize(pre));
            }
        }
        assert(events.take(events.len() - 1) =~= pre);
    }
}

/// Several resizes in one batch collapse to exactly one debounced resize
/// operation: it carries the last `(width, height)` pair seen, it stands
/// at `debounce_pos` (the operations emitted up to the last resize), and
/// no other operation of the batch is a resize.
pub proof fn lemma_resize_debounced(events: Seq<RawEvent>)
    requires
        has_resize(events),
    ensures
        ({
            let ops = aggregate(events);
            let p = debounce_pos(events);
            let wh = last_resize_value(events);
            &&& 0 <= p < ops.len()
            &&& ops[p] == OpView::Resize(wh.0, wh.1)
            &&& forall|m: int| 0 <= m < ops.len() && m != p ==> !((#[trigger] ops[m]) is Resize)
        }),
{
    lemma_fold_facts(events);
    let s = fold_events(events);
    let f = flush(s);
    let p = debounce_pos(events);
    let wh = last_resize_value(events);
    assert(forall|m: int| 0 <= m < f.out.len() ==> !((#[trigger] f.out[m]) is Resize));
    f.out.insert_ensures(p, OpView::Resize(wh.0, wh.1));
    assert(aggregate(events) == f.out.insert(p, OpView::Resize(wh.0, wh.1)));
}

/// When the batch's resizes form one contiguous run, the debounced resize
/// stands exactly where the operations had reached at the *first* resize:
/// splicing preserves the relative order against the surrounding
/// operations.
pub proof fn lemma_single_run_resize_pos(events: Seq<RawEvent>)
    requires
        has_resize(events),
        single_resize_run(events),
    ensures
        debounce_pos(events) == aggregate(events.take(first_resize_at(events))).len(),
{
    lemma_first_resize_bounds(events);
    let j0 = first_resize_at(events);
    let j1 = last_resize_at(events);
    lemma_run_out_stable(events, j1);
    let prefix = events.take(j0);
    lemma_fold_facts(prefix);
    assert(aggregate(prefix) == flush(fold_events(prefix)).out);
    assert(events.take(j0) =~= events.take(j1).take(j0));
}

/// Walking through a contiguous resize run, the flushed operations do not
/// change: each resize only re-records the position.
proof fn lemma_run_out_stable(events: Seq<RawEvent>, i: int)
    requires
        has_resize(events),
        single_resize_run(events),
        first_resize_at(events) <= i <= last_resize_at(events),
    ensures
        flush(fold_events(events.take(i))).out == flush(
            fold_events(events.take(first_resize_at(events))),
        ).out,
    decreases i,
{
    lemma_first_resize_bounds(events);
    let j0 = first_resize_at(events);
    if i == j0 {
    } else {
        lemma_run_out_stable(events, i - 1);
        assert(events[i - 1] is Resize);
        assert(events.take(i).drop_last() =~= events.take(i - 1));
        assert(events.take(i).last() == events[i - 1]);
    }
}

/// A batch without a resize aggregates to operations among which no
/// debounced resize appears.
pub proof fn lemma_no_resize_no_debounce(events: Seq<RawEvent>)
    requires
        !has_resize(events),
    ensures
        forall|m: int|
            0 <= m < aggregate(events).len() ==> !((#[trigger] aggregate(events)[m]) is Resize),
{
    lemma_fold_facts(events);
}

/// The exec twin of the open accumulator.
enum Accum {
    TextRun(Vec<char>),
    Vertical(usize, usize),
    VScroll(usize, usize),
    Horizontal(usize, usize),
    HScroll(usize, usize),
    Other(OtherEvent, usize),
}

impl View for Accum {
    type V = AccView;

    closed spec fn view(&self) -> AccView {
        match self {
            Accum::TextRun(cs) => AccView::TextRun(cs@),
            Accum::Vertical(u, d) => AccView::Vertical(*u as nat, *d as nat),
            Accum::VScroll(u, d) => AccView::VScroll(*u as nat, *d as nat),
            Accum::Horizontal(l, r) => AccView::Horizontal(*l as nat, *r as nat),
            Accum::HScroll(l, r) => AccView::HScroll(*l as nat, *r as nat),
            Accum::Other(o, c) => AccView::Other(*o, *c as nat),
        }
    }
}

/// The view of an optional accumulator.
spec fn accs(a: Option<Accum>) -> Option<AccView> {
    match a {
        Option::None => Option::None,
        Option::Some(x) => Option::Some(x@),
    }
}

/// The view of an optional recorded position.
spec fn onat(a: Option<usize>) -> Option<nat> {
    match a {
        Option::None => Option::None,
        Option::Some(x) => Option::Some(x as nat),
    }
}

/// How many raw events the open accumulator absorbed so far (an upper
/// bound; used to show the counters cannot overflow).
spec fn acc_weight(a: AccView) -> nat {
    match a {
        AccView::TextRun(cs) => cs.len(),
        AccView::Vertical(u, d) => u + d,
        AccView::VScroll(u, d) => u + d,
        AccView::Horizontal(l, r) => l + r,
        AccView::HScroll(l, r) => l + r,
        AccView::Other(_, c) => c,
    }
}

/// Flushes the open accumulator into `result` as one operation.
fn flush_into(result: &mut Vec<EventStream>, acc: Option<Accum>) -> (r: Option<Accum>)
    ensures
        r is None,
        final(result).deep_view() =~= (match accs(acc) {
            Option::None => old(result).deep_view(),
            Option::Some(a) => old(result).deep_view().push(acc_op(a)),
        }),
{
    let ghost dv0 = result.deep_view();
    match acc {
        Option::None => Option::None,
        Option::Some(a) => {
            let op = match a {
                Accum::TextRun(cs) => EventStream::Buffer(Buffer::Key(cs)),
                Accum::Vertical(u, d) => EventStream::Buffer(Buffer::VerticalCursor(u, d)),
                Accum::VScroll(u, d) => EventStream::Buffer(Buffer::VerticalScroll(u, d)),
                Accum::Horizontal(l, r) => EventStream::Buffer(Buffer::HorizontalCursor(l, r)),
                Accum::HScroll(l, r) => EventStream::Buffer(Buffer::HorizontalScroll(l, r)),
                Accum::Other(o, c) => EventStream::Buffer(Buffer::Other(o, c)),
            };
            result.push(op);
            proof {
                assert(final(result).deep_view() =~= dv0.push(final(result)@.last().deep_view()));
            }
            Option::None
        },
    }
}

/// Aggregates one batch of raw events into semantic operations, in order.
/// The result is exactly `aggregate(events)`: deterministic and pure, with
/// no state carried across calls. An empty batch yields an empty output.
pub fn operate(events: &Vec<RawEvent>) -> (r: Vec<EventStream>)
    ensures
        r.deep_view() =~= aggregate(events@),
{
    let n = events.len();
    let mut result: Vec<EventStream> = Vec::new();
    let mut acc: Option<Accum> = Option::None;
    let mut last_resize: Option<(u16, u16)> = Option::None;
    let mut resize_at: Option<usize> = Option::None;
    let mut i: usize = 0;
    while i < n
        invariant
            i <= n,
            n == events@.len(),
            ({
                let gs = fold_events(events@.take(i as int));
                &&& result.deep_view() =~= gs.out
                &&& accs(acc) == gs.acc
                &&& last_resize == gs.last_resize
                &&& onat(resize_at) == gs.resize_at
            }),
            resize_at matches Some(x) ==> x <= result@.len(),
            last_resize is Some <==> resize_at is Some,
            accs(acc) matches Some(a) ==> acc_weight(a) <= i,
        decreases n - i,
    {
        proof {
            assert(events@.take(i + 1).drop_last() =~= events@.take(i as int));
            assert(events@.take(i + 1).last() == events@[i as int]);
        }
        let e = events[i];
        match e {
            RawEvent::Char(c) => {
                match acc {
                    Option::Some(Accum::TextRun(mut cs)) => {
                        cs.push(c);
                        acc = Option::Some(Accum::TextRun(cs));
                    },
                    other => {
                        acc = flush_into(&mut result, other);
                        let mut cs: Vec<char> = Vec::new();
                        cs.push(c);
                        acc = Option::Some(Accum::TextRun(cs));
                    },
                }
            },
            RawEvent::CursorUp => {
                match acc {
                    Option::Some(Accum::Vertical(u, d)) => {
                        acc = Option::Some(Accum::Vertical(u + 1, d));
                    },
                    other => {
                        acc = flush_into(&mut result, other);
                        acc = Option::Some(Accum::Vertical(1, 0));
                    },
                }
            },
            RawEvent::CursorDown => {
                match acc {
                    Option::Some(Accum::Vertical(u, d)) => {
                        acc = Option::Some(Accum::Vertical(u, d + 1));
                    },
                    other => {
                        acc = flush_into(&mut result, other);
                        acc = Option::Some(Accum::Vertical(0, 1));
                    },
                }
            },
            RawEvent::CursorLeft => {
                match acc {
                    Option::Some(Accum::Horizontal(l, r)) => {
                        acc = Option::Some(Accum::Horizontal(l + 1, r));
                    },
                    other => {
                        acc = flush_into(&mut result, other);
                        acc = Option::Some(Accum::Horizontal(1, 0));
                    },
                }
            },
            RawEvent::CursorRight => {
                match acc {
                    Option::Some(Accum::Horizontal(l, r)) => {
                        acc = Option::Some(Accum::Horizontal(l, r + 1));
                    },
                    other => {
                        acc = flush_into(&mut result, other);
                        acc = Option::Some(Accum::Horizontal(0, 1));
                    },
                }
            },
            RawEvent::WheelUp => {
                match acc {
                    Option::Some(Accum::VScroll(u, d)) => {
                        acc = Option::Some(Accum::VScroll(u + 1, d));
                    },
                    other => {
                        acc = flush_into(&mut result, other);
                        acc = Option::Some(Accum::VScroll(1, 0));
                    },
                }
            },
            RawEvent::WheelDown => {
                match acc {
                    Option::Some(Accum::VScroll(u, d)) => {
                        acc = Option::Some(Accum::VScroll(u, d + 1));
                    },
                    other => {
                        acc = flush_into(&mut result, other);
                        acc = Option::Some(Accum::VScroll(0, 1));
                    },
                }
            },
            RawEvent::WheelLeft => {
                match acc {
                    Option::Some(Accum::HScroll(l, r)) => {
                        acc = Option::Some(Accum::HScroll(l + 1, r));
                    },
                    other => {
                        acc = flush_into(&mut result, other);
                        acc = Option::Some(Accum::HScroll(1, 0));
                    },
                }
            },
            RawEvent::WheelRight => {
                match acc {
                    Option::Some(Accum::HScroll(l, r)) => {
                        acc = Option::Some(Accum::HScroll(l, r + 1));
                    },
                    other => {
                        acc = flush_into(&mut result, other);
                        acc = Option::Some(Accum::HScroll(0, 1));
                    },
                }
            },
            RawEvent::Resize(w, h) => {
                acc = flush_into(&mut result, acc);
                last_resize = Option::Some((w, h));
                resize_at = Option::Some(result.len());
            },
            RawEvent::Other(o) => {
                match acc {
                    Option::Some(Accum::Other(o2, c)) => {
                        if o2 == o {
                            acc = Option::Some(Accum::Other(o2, c + 1));
                        } else {
                            acc = flush_into(&mut result, Option::Some(Accum::Other(o2, c)));
                            acc = Option::Some(Accum::Other(o, 1));
                        }
                    },
                    other => {
                        acc = flush_into(&mut result, other);
                        acc = Option::Some(Accum::Other(o, 1));
                    },
                }
            },
        }
        i = i + 1;
    }
    proof {
        assert(events@.take(n as int) =~= events@);
    }
    acc = flush_into(&mut result, acc);
    match (last_resize, resize_at) {
        (Option::Some((w, h)), Option::Some(idx)) => {
            let ghost dv0 = result.deep_view();
            result.insert(idx, EventStream::Debounce(Debounce::Resize(w, h)));
            proof {
                assert forall|m: int| 0 <= m < result.deep_view().len() implies result.deep_view()[m]
                    == dv0.insert(idx as int, OpView::Resize(w, h))[m] by {
                    result@.insert_ensures(idx as int, EventStream::Debounce(Debounce::Resize(w, h)));
                }
                assert(result.deep_view() =~= dv0.insert(idx as int, OpView::Resize(w, h)));
            }
        },
        _ => {},
    }
    result
}

} // verus!
