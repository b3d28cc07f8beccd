use epiq::operator::operate;
use epiq::route_event;
use epiq::Args;
use epiq::RouteAction;
use epiq::operator::Buffer;
use epiq::operator::Debounce;
use epiq::operator::EventStream;
use epiq::operator::OtherEvent;
use epiq::operator::RawEvent;

// A run of keystrokes, arrows, wheel steps, repeated control chords and two
// separated resize bursts: merged runs come out in arrival order, and the
// debounced resize keeps the last value at its run's position.
#[test]
fn test() {
    let events = vec![
        RawEvent::Char('a'),
        RawEvent::Char('B'),
        RawEvent::Char('c'),
        RawEvent::Resize(128, 128),
        RawEvent::Resize(256, 256),
        RawEvent::CursorUp,
        RawEvent::CursorDown,
        RawEvent::CursorUp,
        RawEvent::WheelDown,
        RawEvent::WheelUp,
        RawEvent::CursorLeft,
        RawEvent::CursorRight,
        RawEvent::CursorLeft,
        RawEvent::Other(OtherEvent::CtrlF),
        RawEvent::Other(OtherEvent::CtrlF),
        RawEvent::Other(OtherEvent::CtrlF),
        RawEvent::Other(OtherEvent::CtrlD),
        RawEvent::CursorUp,
        RawEvent::Resize(64, 64),
        RawEvent::Char('d'),
    ];

    let expected = vec![
        EventStream::Buffer(Buffer::Key(vec!['a', 'B', 'c'])),
        EventStream::Buffer(Buffer::VerticalCursor(2, 1)),
        EventStream::Buffer(Buffer::VerticalScroll(1, 1)),
        EventStream::Buffer(Buffer::HorizontalCursor(2, 1)),
        EventStream::Buffer(Buffer::Other(OtherEvent::CtrlF, 3)),
        EventStream::Buffer(Buffer::Other(OtherEvent::CtrlD, 1)),
        EventStream::Buffer(Buffer::VerticalCursor(1, 0)),
        EventStream::Debounce(Debounce::Resize(64, 64)),
        EventStream::Buffer(Buffer::Key(vec!['d'])),
    ];

    assert_eq!(operate(&events), expected);
}

// Identical batches aggregate identically, and aggregation keeps no hidden
// state across calls.
#[test]
fn aggregation_is_deterministic_and_pure() {
    let batch = vec![
        RawEvent::Char('x'),
        RawEvent::CursorUp,
        RawEvent::Other(OtherEvent::Backspace),
        RawEvent::Resize(10, 20),
        RawEvent::Char('y'),
    ];
    let first = operate(&batch);
    let second = operate(&batch);
    assert_eq!(first, second);
    let copy = batch.clone();
    assert_eq!(operate(&copy), first);
}

#[test]
fn empty_batch_yields_empty_output() {
    let events: Vec<RawEvent> = vec![];
    assert_eq!(operate(&events), vec![]);
}

// A run of k character events becomes one character-run of length k.
#[test]
fn char_run_merges_to_one_operation() {
    let events = vec![
        RawEvent::Char('h'),
        RawEvent::Char('e'),
        RawEvent::Char('l'),
        RawEvent::Char('l'),
        RawEvent::Char('o'),
    ];
    assert_eq!(
        operate(&events),
        vec![EventStream::Buffer(Buffer::Key(vec!['h', 'e', 'l', 'l', 'o']))]
    );
}

// A run of k identical other events carries the count k.
#[test]
fn identical_other_run_counts() {
    let events = vec![
        RawEvent::Other(OtherEvent::Backspace),
        RawEvent::Other(OtherEvent::Backspace),
        RawEvent::Other(OtherEvent::Backspace),
        RawEvent::Other(OtherEvent::Backspace),
    ];
    assert_eq!(
        operate(&events),
        vec![EventStream::Buffer(Buffer::Other(OtherEvent::Backspace, 4))]
    );
}

// Interleaving two distinct categories yields operations in arrival order,
// never merged across the interruption.
#[test]
fn interleaved_categories_stay_separate() {
    let events = vec![
        RawEvent::Char('a'),
        RawEvent::Char('b'),
        RawEvent::Other(OtherEvent::CtrlU),
        RawEvent::Char('c'),
        RawEvent::Char('d'),
    ];
    assert_eq!(
        operate(&events),
        vec![
            EventStream::Buffer(Buffer::Key(vec!['a', 'b'])),
            EventStream::Buffer(Buffer::Other(OtherEvent::CtrlU, 1)),
            EventStream::Buffer(Buffer::Key(vec!['c', 'd'])),
        ]
    );
}

// A different other event flushes the previous one instead of merging.
#[test]
fn different_other_events_do_not_merge() {
    let events = vec![
        RawEvent::Other(OtherEvent::CtrlW),
        RawEvent::Other(OtherEvent::CtrlW),
        RawEvent::Other(OtherEvent::AltD),
    ];
    assert_eq!(
        operate(&events),
        vec![
            EventStream::Buffer(Buffer::Other(OtherEvent::CtrlW, 2)),
            EventStream::Buffer(Buffer::Other(OtherEvent::AltD, 1)),
        ]
    );
}

// Several resizes in one batch collapse to one debounced resize carrying
// the last width/height pair, at the index of the first resize of the run.
#[test]
fn resize_burst_debounces_to_last_value_at_first_position() {
    let events = vec![
        RawEvent::Char('a'),
        RawEvent::Resize(80, 24),
        RawEvent::Resize(100, 30),
        RawEvent::Resize(120, 40),
        RawEvent::Char('b'),
    ];
    assert_eq!(
        operate(&events),
        vec![
            EventStream::Buffer(Buffer::Key(vec!['a'])),
            EventStream::Debounce(Debounce::Resize(120, 40)),
            EventStream::Buffer(Buffer::Key(vec!['b'])),
        ]
    );
}

#[test]
fn unrecognized_events_merge_by_code() {
    let events = vec![
        RawEvent::Other(OtherEvent::Unrecognized(7)),
        RawEvent::Other(OtherEvent::Unrecognized(7)),
        RawEvent::Other(OtherEvent::Unrecognized(9)),
    ];
    assert_eq!(
        operate(&events),
        vec![
            EventStream::Buffer(Buffer::Other(OtherEvent::Unrecognized(7), 2)),
            EventStream::Buffer(Buffer::Other(OtherEvent::Unrecognized(9), 1)),
        ]
    );
}

#[test]
fn routing_of_aggregated_operations() {
    let quit = EventStream::Buffer(Buffer::Other(OtherEvent::CtrlC, 1));
    assert_eq!(route_event(&quit), RouteAction::Quit);
    let esc_odd = EventStream::Buffer(Buffer::Other(OtherEvent::Esc, 3));
    assert_eq!(route_event(&esc_odd), RouteAction::ToggleMouse);
    let esc_even = EventStream::Buffer(Buffer::Other(OtherEvent::Esc, 2));
    assert_eq!(route_event(&esc_even), RouteAction::Stay);
    let enter = EventStream::Buffer(Buffer::Other(OtherEvent::Enter, 1));
    assert_eq!(route_event(&enter), RouteAction::Submit);
    let typed = EventStream::Buffer(Buffer::Key(vec!['q']));
    assert_eq!(route_event(&typed), RouteAction::Forward);
}

#[test]
fn default_configuration() {
    let args = Args::default();
    assert_eq!(args.output_queue_size, 1000);
    assert_eq!(args.event_operate_interval, 32);
    assert_eq!(args.output_render_interval, 10);
}
