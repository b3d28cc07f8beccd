use epiq::queue::OutputAction;
use epiq::queue::OutputEvent;
use epiq::queue::OutputLoop;
use epiq::queue::Queue;
use epiq::queue::State;
use epiq::render::EditorIndex;
use epiq::render::PaneIndex;
use epiq::render::Renderer;

// Pushing more lines than the capacity retains exactly `capacity`
// most-recent lines in arrival order.
#[test]
fn bounded_queue_keeps_most_recent_lines() {
    let mut q = Queue::new(3);
    for i in 1..=5 {
        q.push(format!("line {}", i));
    }
    assert_eq!(q.len(), 3);
    assert_eq!(q.visible(3), vec!["line 3", "line 4", "line 5"]);
}

// An empty pushed line is stored as a visible placeholder, not a
// zero-width entry.
#[test]
fn empty_line_becomes_placeholder() {
    let mut q = Queue::new(2);
    q.push(String::new());
    assert_eq!(q.len(), 1);
    assert_eq!(q.visible(1), vec!["\u{0}"]);
}

// `shift` moves the cursor within the buffered lines, all or nothing, and
// reports whether the window changed.
#[test]
fn shift_stays_within_buffered_bounds() {
    let mut q = Queue::new(10);
    for i in 0..5 {
        q.push(format!("{}", i));
    }
    assert_eq!(q.position(), 0);
    assert!(!q.shift(1, 0)); // already at the top
    assert!(q.shift(0, 3));
    assert_eq!(q.position(), 3);
    assert!(!q.shift(0, 5)); // would run past the last line: rejected whole
    assert_eq!(q.position(), 3);
    assert!(q.shift(2, 0));
    assert_eq!(q.position(), 1);
    assert!(q.shift(0, 1));
    assert_eq!(q.position(), 2);
}

#[test]
fn visible_window_clamps_to_the_tail() {
    let mut q = Queue::new(10);
    for i in 0..4 {
        q.push(format!("{}", i));
    }
    q.shift(0, 2);
    assert_eq!(q.visible(10), vec!["2", "3"]);
    assert_eq!(q.visible(1), vec!["2"]);
}

#[test]
fn state_reset_discards_content_and_view() {
    let mut s = State::new(4);
    s.push(String::from("a"));
    s.push(String::from("b"));
    s.shift(0, 1);
    s.reset();
    assert_eq!(s.visible(4), Vec::<String>::new());
    s.push(String::from("c"));
    assert_eq!(s.visible(4), vec!["c"]);
}

// The output loop: reset clears, lines mark content modified, ticks redraw
// only when content changed since the last redraw.
#[test]
fn output_loop_throttles_redraws() {
    let mut lp = OutputLoop::new(8, 0);
    assert_eq!(lp.step(OutputEvent::Tick, 1), OutputAction::Idle);
    assert_eq!(
        lp.step(OutputEvent::Line(String::from("out")), 2),
        OutputAction::Idle
    );
    assert_eq!(lp.step(OutputEvent::Tick, 3), OutputAction::RedrawOutput);
    assert_eq!(lp.step(OutputEvent::Tick, 4), OutputAction::Idle);
    assert_eq!(lp.step(OutputEvent::Scroll(1, 0), 5), OutputAction::Idle);
    // the scroll was rejected (already at the top), so nothing to redraw
    assert_eq!(lp.step(OutputEvent::Tick, 6), OutputAction::Idle);
    assert_eq!(lp.step(OutputEvent::Reset, 7), OutputAction::ClearOutputPane);
    assert_eq!(lp.step(OutputEvent::Tick, 8), OutputAction::Idle);
    assert_eq!(lp.step(OutputEvent::Closed, 9), OutputAction::Stop);
}

#[test]
fn output_loop_scroll_marks_modified() {
    let mut lp = OutputLoop::new(8, 0);
    for i in 0..3 {
        lp.step(OutputEvent::Line(format!("{}", i)), 1);
    }
    assert_eq!(lp.step(OutputEvent::Tick, 2), OutputAction::RedrawOutput);
    assert_eq!(lp.step(OutputEvent::Scroll(0, 2), 3), OutputAction::Idle);
    assert_eq!(lp.step(OutputEvent::Tick, 4), OutputAction::RedrawOutput);
}

// The compositor keeps panes in top-to-bottom order: notify, editors by
// key, output; updates replace in place and removals drop panes.
#[test]
fn renderer_keeps_panes_ordered() {
    let mut r: Renderer<&str> = Renderer::new("notify", "head editor", "output");
    assert_eq!(r.len(), 3);
    let mid = PaneIndex::Editor(EditorIndex(3, 2));
    let tail = PaneIndex::Editor(EditorIndex(2, 1));
    r.update(vec![(tail, "tail editor"), (mid, "middle editor")]);
    assert_eq!(r.len(), 5);
    assert_eq!(r.pane_at(0).0, PaneIndex::Notify);
    assert_eq!(r.pane_at(1).0, PaneIndex::Editor(EditorIndex(1, 1)));
    assert_eq!(r.pane_at(2).0, PaneIndex::Editor(EditorIndex(3, 2)));
    assert_eq!(r.pane_at(3).0, PaneIndex::Editor(EditorIndex(2, 1)));
    assert_eq!(r.pane_at(4).0, PaneIndex::Output);

    r.update(vec![(mid, "redrawn middle")]);
    assert_eq!(r.len(), 5);
    assert_eq!(r.pane_at(2).1, "redrawn middle");

    r.remove(vec![mid, tail]);
    assert_eq!(r.len(), 3);
    assert_eq!(r.pane_at(1).0, PaneIndex::Editor(EditorIndex(1, 1)));
    assert_eq!(r.pane_at(2).0, PaneIndex::Output);

    // removing an absent pane is harmless
    r.remove(vec![PaneIndex::Editor(EditorIndex(9, 1))]);
    assert_eq!(r.len(), 3);
}

#[test]
fn renderer_update_one_inserts_in_order() {
    let mut r: Renderer<u32> = Renderer::new(0, 1, 2);
    r.update_one(PaneIndex::Editor(EditorIndex(2, 1)), 7);
    assert_eq!(r.pane_at(2).0, PaneIndex::Editor(EditorIndex(2, 1)));
    assert_eq!(r.pane_at(2).1, 7);
    r.update_one(PaneIndex::Notify, 9);
    assert_eq!(r.len(), 4);
    assert_eq!(r.pane_at(0).1, 9);
    r.remove_one(PaneIndex::Editor(EditorIndex(2, 1)));
    assert_eq!(r.len(), 3);
}
