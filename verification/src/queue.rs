//! The bounded scrollback buffer for pipeline output, its scroll cursor,
//! and the throttled render loop that drains it.

use vstd::prelude::*;
use vstd::string::StringExecFns;

verus! {

/// What one pushed line is stored as: an empty line becomes a single NUL
/// character so that it stays visible as a placeholder instead of
/// collapsing to a zero-width entry.
pub open spec fn stored_line(l: Seq<char>) -> Seq<char> {
    if l.len() == 0 {
        seq!['\u{0}']
    } else {
        l
    }
}

/// The lines a queue of capacity `cap` holds after pushing `ls` into an
/// empty queue, oldest first.
pub open spec fn queue_after(cap: nat, ls: Seq<Seq<char>>) -> Seq<Seq<char>>
    decreases ls.len(),
{
    if ls.len() == 0 || cap == 0 {
        Seq::empty()
    } else {
        let pre = queue_after(cap, ls.drop_last());
        let evicted = if pre.len() >= cap {
            pre.drop_first()
        } else {
            pre
        };
        evicted.push(stored_line(ls.last()))
    }
}

/// A bounded FIFO of rendered lines plus a scroll cursor. Pushing at
/// capacity evicts the oldest line first, so the queue retains exactly the
/// most recent lines.
pub struct Queue {
    lines: Vec<String>,
    position: usize,
    capacity: usize,
}

impl Queue {
    /// The buffered lines, oldest first.
    pub closed spec fn lines_view(&self) -> Seq<Seq<char>> {
        self.lines.deep_view()
    }

    /// The scroll cursor: the index of the first visible line.
    pub closed spec fn pos(&self) -> nat {
        self.position as nat
    }

    /// The bound on how many lines are retained.
    pub closed spec fn cap(&self) -> nat {
        self.capacity as nat
    }

    /// Never more lines than the capacity; the cursor stays on a buffered
    /// line (or at zero while empty).
    pub open spec fn wf(&self) -> bool {
        &&& self.lines_view().len() <= self.cap()
        &&& if self.lines_view().len() == 0 {
            self.pos() == 0
        } else {
            self.pos() < self.lines_view().len()
        }
    }

    /// An empty queue that will retain at most `capacity` lines.
    pub fn new(capacity: usize) -> (r: Self)
        ensures
            r.wf(),
            r.lines_view() =~= Seq::<Seq<char>>::empty(),
            r.pos() == 0,
            r.cap() == capacity,
    {
        Queue { lines: Vec::new(), position: 0, capacity }
    }

    /// Appends a line, evicting the oldest one when the queue is at
    /// capacity; an empty line is stored as a NUL placeholder. The cursor
    /// does not move (except back to a buffered line after an eviction at
    /// the tail).
    pub fn push(&mut self, item: String)
        requires
            old(self).wf(),
        ensures
            final(self).wf(),
            final(self).cap() == old(self).cap(),
            ({
                let pre = if old(self).lines_view().len() >= old(self).cap() {
                    old(self).lines_view().drop_first()
                } else {
                    old(self).lines_view()
                };
                if old(self).cap() == 0 {
                    final(self).lines_view() == old(self).lines_view()
                } else {
                    final(self).lines_view() =~= pre.push(stored_line(item@))
                }
            }),
    {
        if self.capacity == 0 {
            return ;
        }
        let ghost dv0 = self.lines.deep_view();
        if self.lines.len() >= self.capacity {
            self.lines.remove(0);
            proof {
                assert(self.lines.deep_view() =~= dv0.drop_first());
            }
        }
        let ghost dv1 = self.lines.deep_view();
        if item.as_str().is_empty() {
            let nul = String::from_str("\u{0}");
            proof {
                reveal_strlit("\u{0}");
                assert(nul@ =~= seq!['\u{0}']);
            }
            self.lines.push(nul);
        } else {
            self.lines.push(item);
        }
        proof {
            assert(self.lines.deep_view() =~= dv1.push(self.lines@.last()@));
        }
        if self.position >= self.lines.len() {
            self.position = self.lines.len() - 1;
        }
    }

    /// Moves the scroll cursor `up` lines toward the head then `down`
    /// toward the tail, all or nothing: the move happens (and `true` comes
    /// back, meaning the visible window changed) only when the whole
    /// distance stays within the buffered lines.
    pub fn shift(&mut self, up: usize, down: usize) -> (r: bool)
        requires
            old(self).wf(),
        ensures
            final(self).wf(),
            final(self).lines_view() == old(self).lines_view(),
            final(self).cap() == old(self).cap(),
            ({
                if up > old(self).pos() {
                    r == false && final(self).pos() == old(self).pos()
                } else if old(self).pos() - up + down < old(self).lines_view().len() {
                    r == true && final(self).pos() == old(self).pos() - up + down
                } else {
                    r == false && final(self).pos() == old(self).pos()
                }
            }),
    {
        if up > self.position {
            false
        } else {
            let np = self.position - up;
            if down < self.lines.len() && np < self.lines.len() - down {
                self.position = np + down;
                true
            } else {
                false
            }
        }
    }

    /// How many lines are buffered.
    pub fn len(&self) -> (r: usize)
        ensures
            r == self.lines_view().len(),
    {
        self.lines.len()
    }

    /// The cursor's position.
    pub fn position(&self) -> (r: usize)
        ensures
            r == self.pos(),
    {
        self.position
    }

    /// The window of at most `height` lines starting at the cursor: what a
    /// draw of the output region shows.
    #[verifier::loop_isolation(false)]
    pub fn visible(&self, height: usize) -> (r: Vec<String>)
        requires
            self.wf(),
        ensures
            r.deep_view() =~= self.lines_view().subrange(
                self.pos() as int,
                if self.pos() + height <= self.lines_view().len() {
                    (self.pos() + height) as int
                } else {
                    self.lines_view().len() as int
                },
            ),
    {
        let mut r: Vec<String> = Vec::new();
        let hi = if height < self.lines.len() - self.position {
            self.position + height
        } else {
            self.lines.len()
        };
        let mut i = self.position;
        while i < hi
            invariant
                self.position <= i <= hi <= self.lines_view().len(),
                hi as int == if self.pos() + height <= self.lines_view().len() {
                    (self.pos() + height) as int
                } else {
                    self.lines_view().len() as int
                },
                r.deep_view() =~= self.lines_view().subrange(self.pos() as int, i as int),
            decreases hi - i,
        {
            let line = self.lines[i].clone();
            r.push(line);
            i = i + 1;
            proof {
                assert(r.deep_view() =~= self.lines_view().subrange(self.pos() as int, i as int));
            }
        }
        r
    }
}

/// Pushing more lines than the capacity retains exactly the `cap` most
/// recent ones, in arrival order (each stored via `stored_line`); fewer
/// lines than the capacity are all retained.
pub proof fn lemma_bounded_retention(cap: nat, ls: Seq<Seq<char>>)
    ensures
        queue_after(cap, ls).len() == if ls.len() <= cap {
            ls.len()
        } else {
            cap
        },
        forall|j: int|
            0 <= j < queue_after(cap, ls).len() ==> queue_after(cap, ls)[j] == stored_line(
                ls[ls.len() - queue_after(cap, ls).len() + j],
            ),
    decreases ls.len(),
{
    if ls.len() == 0 || cap == 0 {
    } else {
        lemma_bounded_retention(cap, ls.drop_last());
    }
}

/// The scrollback state the render loop owns: the queue plus the capacity
/// it is re-created with on reset.
pub struct State {
    queue: Queue,
    capacity: usize,
}

impl State {
    /// The buffered lines.
    pub closed spec fn lines_view(&self) -> Seq<Seq<char>> {
        self.queue.lines_view()
    }

    /// The scroll cursor.
    pub closed spec fn pos(&self) -> nat {
        self.queue.pos()
    }

    /// The retention bound.
    pub closed spec fn cap(&self) -> nat {
        self.queue.cap()
    }

    /// The queue is well-formed and the stored capacity matches it.
    pub closed spec fn wf(&self) -> bool {
        self.queue.wf() && self.capacity as nat == self.queue.cap()
    }

    /// A fresh scrollback of the given capacity.
    pub fn new(capacity: usize) -> (r: Self)
        ensures
            r.wf(),
            r.lines_view() =~= Seq::<Seq<char>>::empty(),
            r.pos() == 0,
            r.cap() == capacity,
    {
        State { queue: Queue::new(capacity), capacity }
    }

    /// Discards all content and restores the default view, keeping the
    /// capacity.
    pub fn reset(&mut self)
        requires
            old(self).wf(),
        ensures
            final(self).wf(),
            final(self).lines_view() =~= Seq::<Seq<char>>::empty(),
            final(self).pos() == 0,
            final(self).cap() == old(self).cap(),
    {
        self.queue = Queue::new(self.capacity);
    }

    /// See `Queue::push`.
    pub fn push(&mut self, item: String)
        requires
            old(self).wf(),
        ensures
            final(self).wf(),
            final(self).cap() == old(self).cap(),
            ({
                let pre = if old(self).lines_view().len() >= old(self).cap() {
                    old(self).lines_view().drop_first()
                } else {
                    old(self).lines_view()
                };
                if old(self).cap() == 0 {
                    final(self).lines_view() == old(self).lines_view()
                } else {
                    final(self).lines_view() =~= pre.push(stored_line(item@))
                }
            }),
    {
        self.queue.push(item);
    }

    /// See `Queue::shift`.
    pub fn shift(&mut self, up: usize, down: usize) -> (r: bool)
        requires
            old(self).wf(),
        ensures
            final(self).wf(),
            final(self).lines_view() == old(self).lines_view(),
            final(self).cap() == old(self).cap(),
            ({
                if up > old(self).pos() {
                    r == false && final(self).pos() == old(self).pos()
                } else if old(self).pos() - up + down < old(self).lines_view().len() {
                    r == true && final(self).pos() == old(self).pos() - up + down
                } else {
                    r == false && final(self).pos() == old(self).pos()
                }
            }),
    {
        self.queue.shift(up, down)
    }

    /// See `Queue::visible`.
    #[verifier::loop_isolation(false)]
    pub fn visible(&self, height: usize) -> (r: Vec<String>)
        requires
            self.wf(),
        ensures
            r.deep_view() =~= self.lines_view().subrange(
                self.pos() as int,
                if self.pos() + height <= self.lines_view().len() {
                    (self.pos() + height) as int
                } else {
                    self.lines_view().len() as int
                },
            ),
    {
        self.queue.visible(height)
    }
}

/// One event the output render loop reacts to.
pub enum OutputEvent {
    /// The live pipeline was torn down: drop buffered output.
    Reset,
    /// The throttled render timer fired.
    Tick,
    /// A vertical wheel run `(up, down)` scrolls the output.
    Scroll(usize, usize),
    /// One line arrived from the pipeline's output sink.
    Line(String),
    /// The output channel closed.
    Closed,
}

/// What the caller must do after one step of the output loop.
#[derive(Clone, Copy, Debug, PartialEq, Eq, Structural)]
pub enum OutputAction {
    /// Remove the output pane and redraw.
    ClearOutputPane,
    /// Redraw the output pane from the current window.
    RedrawOutput,
    /// Nothing to draw.
    Idle,
    /// The loop is done.
    Stop,
}

/// The output render loop's state: the scrollback and the two timestamps
/// of the redraw throttle (arbitrary monotone ticks supplied by the
/// caller). The pane is redrawn only on a timer tick and only if content
/// changed since the last redraw.
pub struct OutputLoop {
    pub state: State,
    pub last_modified: u64,
    pub last_rendered: u64,
}

impl OutputLoop {
    /// The scrollback invariant.
    pub open spec fn wf(&self) -> bool {
        self.state.wf()
    }

    /// A fresh loop around an empty scrollback.
    pub fn new(capacity: usize, now: u64) -> (r: Self)
        ensures
            r.wf(),
            r.state.lines_view() =~= Seq::<Seq<char>>::empty(),
            r.state.cap() == capacity,
            r.last_modified == now,
            r.last_rendered == now,
    {
        OutputLoop { state: State::new(capacity), last_modified: now, last_rendered: now }
    }

    /// Advances the loop by one event at time `now`: a reset clears the
    /// scrollback and the output pane; a tick redraws exactly when content
    /// changed since the last redraw; a scroll marks the content modified
    /// exactly when the window moved; a line is buffered and marks it
    /// modified; a closed channel stops the loop.
    pub fn step(&mut self, event: OutputEvent, now: u64) -> (r: OutputAction)
        requires
            old(self).wf(),
        ensures
            final(self).wf(),
            final(self).state.cap() == old(self).state.cap(),
            match event {
                OutputEvent::Reset => {
                    &&& final(self).state.lines_view() =~= Seq::<Seq<char>>::empty()
                    &&& final(self).state.pos() == 0
                    &&& final(self).last_modified == now
                    &&& final(self).last_rendered == now
                    &&& r == OutputAction::ClearOutputPane
                },
                OutputEvent::Tick => {
                    &&& final(self).state.lines_view() == old(self).state.lines_view()
                    &&& final(self).state.pos() == old(self).state.pos()
                    &&& final(self).last_modified == old(self).last_modified
                    &&& if old(self).last_modified > old(self).last_rendered {
                        r == OutputAction::RedrawOutput && final(self).last_rendered == now
                    } else {
                        r == OutputAction::Idle && final(self).last_rendered == old(self).last_rendered
                    }
                },
                OutputEvent::Scroll(up, down) => {
                    &&& final(self).state.lines_view() == old(self).state.lines_view()
                    &&& final(self).last_rendered == old(self).last_rendered
                    &&& r == OutputAction::Idle
                    &&& ({
                        let moved = up <= old(self).state.pos() && old(self).state.pos() - up + down
                            < old(self).state.lines_view().len();
                        &&& (moved ==> final(self).state.pos() == old(self).state.pos() - up + down
                            && final(self).last_modified == now)
                        &&& (!moved ==> final(self).state.pos() == old(self).state.pos()
                            && final(self).last_modified == old(self).last_modified)
                    })
                },
                OutputEvent::Line(l) => {
                    &&& ({
                        let pre = if old(self).state.lines_view().len() >= old(self).state.cap() {
                            old(self).state.lines_view().drop_first()
                        } else {
                            old(self).state.lines_view()
                        };
                        if old(self).state.cap() == 0 {
                            final(self).state.lines_view() == old(self).state.lines_view()
                        } else {
                            final(self).state.lines_view() =~= pre.push(stored_line(l@))
                        }
                    })
                    &&& final(self).last_modified == now
                    &&& final(self).last_rendered == old(self).last_rendered
                    &&& r == OutputAction::Idle
                },
                OutputEvent::Closed => {
                    &&& final(self).state.lines_view() == old(self).state.lines_view()
                    &&& final(self).state.pos() == old(self).state.pos()
                    &&& final(self).last_modified == old(self).last_modified
                    &&& final(self).last_rendered == old(self).last_rendered
                    &&& r == OutputAction::Stop
                },
            },
    {
        match event {
            OutputEvent::Reset => {
                self.state.reset();
                self.last_modified = now;
                self.last_rendered = now;
                OutputAction::ClearOutputPane
            },
            OutputEvent::Tick => {
                if self.last_modified > self.last_rendered {
                    self.last_rendered = now;
                    OutputAction::RedrawOutput
                } else {
                    OutputAction::Idle
                }
            },
            OutputEvent::Scroll(up, down) => {
                let shifted = self.state.shift(up, down);
                if shifted {
                    self.last_modified = now;
                }
                OutputAction::Idle
            },
            OutputEvent::Line(l) => {
                self.state.push(l);
                self.last_modified = now;
                OutputAction::Idle
            },
            OutputEvent::Closed => OutputAction::Stop,
        }
    }
}

} // verus!
