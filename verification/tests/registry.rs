use epiq::operator::Buffer;
use epiq::operator::EventStream;
use epiq::operator::OtherEvent;
use epiq::prompt::edit_action;
use epiq::prompt::Direction;
use epiq::prompt::DispatchOutcome;
use epiq::prompt::EditCmd;
use epiq::prompt::EditorMap;
use epiq::prompt::Session;
use epiq::render::EditorIndex;

// The cross-multiplication order and the mediant: for 1/1 < 2/1 the
// mediant 3/2 lies strictly between them.
#[test]
fn mediant_lies_strictly_between() {
    let a = EditorIndex(1, 1);
    let b = EditorIndex(2, 1);
    let m = EditorIndex::mediant(&a, &b);
    assert_eq!(m, EditorIndex(3, 2));
    assert!(a.lt(&m));
    assert!(m.lt(&b));
    // and again one level deeper, on the registry's own successive keys
    let m2 = EditorIndex::mediant(&a, &m);
    assert_eq!(m2, EditorIndex(4, 3));
    assert!(a.lt(&m2));
    assert!(m2.lt(&m));
}

#[test]
fn cross_multiplication_order() {
    // 1/2 < 2/3 because 1*3 < 2*2
    assert!(EditorIndex(1, 2).lt(&EditorIndex(2, 3)));
    assert!(!EditorIndex(2, 3).lt(&EditorIndex(1, 2)));
    // 2/2 equals 1/1 under the order
    assert!(!EditorIndex(2, 2).lt(&EditorIndex(1, 1)));
    assert!(!EditorIndex(1, 1).lt(&EditorIndex(2, 2)));
    assert!(EditorIndex(2, 2).rat_equal(&EditorIndex(1, 1)));
    assert!(!EditorIndex(1, 2).rat_equal(&EditorIndex(1, 1)));
}

// Appending at the tail bumps the numerator; the key is repeatable
// indefinitely and strictly greater each time.
#[test]
fn new_index_past_the_tail() {
    let map: EditorMap<String> = EditorMap::new(String::from("head"));
    let head = EditorIndex(1, 1);
    let next = map.new_index(&head);
    assert_eq!(next, EditorIndex(2, 1));
}

#[test]
fn insert_between_neighbors_uses_mediant() {
    let mut map: EditorMap<String> = EditorMap::new(String::from("head"));
    let head = EditorIndex(1, 1);
    let tail = map.new_index(&head);
    map.insert(tail, String::from("second"));
    // inserting next to the head now has a successor: the mediant of 1/1
    // and 2/1
    let mid = map.new_index(&head);
    assert_eq!(mid, EditorIndex(3, 2));
    map.insert(mid, String::from("middle"));
    assert_eq!(map.len(), 3);
    assert_eq!(map.key_at(0), EditorIndex(1, 1));
    assert_eq!(map.key_at(1), EditorIndex(3, 2));
    assert_eq!(map.key_at(2), EditorIndex(2, 1));
}

#[test]
fn seek_and_shift_clamp_at_the_ends() {
    let mut map: EditorMap<String> = EditorMap::new(String::from("a"));
    let head = EditorIndex(1, 1);
    let second = map.new_index(&head);
    map.insert(second, String::from("b"));
    let third = map.new_index(&second);
    map.insert(third, String::from("c"));

    assert_eq!(map.seek_index(&head, Direction::Down(1)), second);
    assert_eq!(map.seek_index(&head, Direction::Down(99)), third);
    assert_eq!(map.seek_index(&third, Direction::Up(2)), head);
    assert_eq!(map.seek_index(&third, Direction::Up(99)), head);
    assert_eq!(map.shift_index(&second, 5, 5), second);
    assert_eq!(map.shift_index(&second, 1, 0), head);
    assert_eq!(map.shift_index(&second, 0, 1), third);
    assert_eq!(Direction::Up(4).distance(), 4);
    assert_eq!(Direction::Down(7).distance(), 7);
}

#[test]
fn remove_returns_predecessor_and_head_is_permanent() {
    let mut map: EditorMap<String> = EditorMap::new(String::from("a"));
    let head = EditorIndex(1, 1);
    let second = map.new_index(&head);
    map.insert(second, String::from("b"));

    // removing the head is a no-op returning the head key itself
    assert_eq!(map.remove_editor(&head), head);
    assert_eq!(map.len(), 2);

    assert_eq!(map.remove_editor(&second), head);
    assert_eq!(map.len(), 1);
}

#[test]
fn toggle_ignore_flips_only_the_flag() {
    let mut map: EditorMap<String> = EditorMap::new(String::from("a"));
    let head = EditorIndex(1, 1);
    assert!(!map.editor_at(0).ignore);
    map.toggle_ignore(&head);
    assert!(map.editor_at(0).ignore);
    assert_eq!(map.editor_at(0).state, "a");
    map.toggle_ignore(&head);
    assert!(!map.editor_at(0).ignore);
}

#[test]
fn active_positions_skip_ignored_stages() {
    let mut map: EditorMap<String> = EditorMap::new(String::from("a"));
    let head = EditorIndex(1, 1);
    let second = map.new_index(&head);
    map.insert(second, String::from("b"));
    let third = map.new_index(&second);
    map.insert(third, String::from("c"));
    map.toggle_ignore(&second);
    assert_eq!(map.active_positions(), vec![0, 2]);
}

// Insert-then-delete restores the pre-insert key set and the pre-insert
// focused key.
#[test]
fn insert_then_delete_restores_keys_and_focus() {
    let mut session: Session<String> = Session::new(String::from("head"), (80, 24));
    let fresh = vec![String::new()];
    let (inserted, full) = session.insert_editors(1, fresh);
    assert!(!full);
    assert_eq!(inserted, vec![EditorIndex(2, 1)]);
    assert_eq!(session.cur_index, EditorIndex(2, 1));
    assert_eq!(session.editors.len(), 2);

    let removed = session.remove_editors(1);
    assert_eq!(removed, vec![EditorIndex(2, 1)]);
    assert_eq!(session.cur_index, EditorIndex(1, 1));
    assert_eq!(session.editors.len(), 1);
    assert_eq!(session.editors.key_at(0), EditorIndex(1, 1));
}

#[test]
fn insertion_stops_when_the_viewport_is_full() {
    // height 4 leaves room for 2 editors beside the notify and output panes
    let mut session: Session<String> = Session::new(String::from("head"), (80, 4));
    let fresh = vec![String::new(), String::new(), String::new()];
    let (inserted, full) = session.insert_editors(3, fresh);
    assert_eq!(inserted.len(), 1);
    assert!(full);
    assert_eq!(session.editors.len(), 2);
}

#[test]
fn resize_drops_tail_stages_and_refocuses_head() {
    let mut session: Session<String> = Session::new(String::from("head"), (80, 24));
    let fresh = vec![String::new(), String::new(), String::new()];
    let (_, full) = session.insert_editors(3, fresh);
    assert!(!full);
    assert_eq!(session.editors.len(), 4);

    // shrink so only one editor fits: 3 tail stages go, head regains focus
    let (removed, refocused) = session.handle_resize(80, 3);
    assert!(refocused);
    assert_eq!(removed.len(), 3);
    assert_eq!(session.editors.len(), 1);
    assert_eq!(session.cur_index, EditorIndex(1, 1));

    // growing back removes nothing
    let (removed2, refocused2) = session.handle_resize(80, 24);
    assert!(removed2.is_empty());
    assert!(!refocused2);
}

#[test]
fn remove_editors_walks_toward_head_and_stops() {
    let mut session: Session<String> = Session::new(String::from("head"), (80, 24));
    let fresh = vec![String::new(), String::new()];
    session.insert_editors(2, fresh);
    assert_eq!(session.editors.len(), 3);
    // ask for more deletions than non-head stages: saturates at the head
    let removed = session.remove_editors(9);
    assert_eq!(removed.len(), 2);
    assert_eq!(session.editors.len(), 1);
    assert_eq!(session.cur_index, EditorIndex(1, 1));
}

#[test]
fn dispatch_routes_session_operations() {
    let mut session: Session<String> = Session::new(String::from("head"), (80, 24));
    let insert = EventStream::Buffer(Buffer::Other(OtherEvent::CtrlB, 1));
    match session.dispatch(insert, vec![String::new()]) {
        DispatchOutcome::Inserted { inserted, defocused, full } => {
            assert_eq!(inserted, vec![EditorIndex(2, 1)]);
            assert_eq!(defocused, EditorIndex(1, 1));
            assert!(!full);
        },
        _ => panic!("expected an insertion outcome"),
    }

    let up = EventStream::Buffer(Buffer::VerticalCursor(1, 0));
    match session.dispatch(up, vec![]) {
        DispatchOutcome::FocusMoved { defocused, focused } => {
            assert_eq!(defocused, EditorIndex(2, 1));
            assert_eq!(focused, EditorIndex(1, 1));
        },
        _ => panic!("expected a focus move"),
    }

    let toggle = EventStream::Buffer(Buffer::Other(OtherEvent::CtrlX, 3));
    match session.dispatch(toggle, vec![]) {
        DispatchOutcome::Toggled { toggled } => assert!(toggled),
        _ => panic!("expected a toggle outcome"),
    }
    assert!(session.editors.editor_at(0).ignore);

    let typed = EventStream::Buffer(Buffer::Key(vec!['l', 's']));
    match session.dispatch(typed, vec![]) {
        DispatchOutcome::Edited { cmd } => assert_eq!(cmd, EditCmd::Input(vec!['l', 's'])),
        _ => panic!("expected an edit outcome"),
    }
}

#[test]
fn edit_actions_mirror_the_operations() {
    let shift = EventStream::Buffer(Buffer::HorizontalCursor(2, 1));
    assert_eq!(edit_action(shift), EditCmd::ShiftCursor(2, 1));
    let to_head = EventStream::Buffer(Buffer::Other(OtherEvent::CtrlA, 1));
    assert_eq!(edit_action(to_head), EditCmd::MoveToHead);
    let to_tail = EventStream::Buffer(Buffer::Other(OtherEvent::CtrlE, 1));
    assert_eq!(edit_action(to_tail), EditCmd::MoveToTail);
    let erase = EventStream::Buffer(Buffer::Other(OtherEvent::Backspace, 3));
    assert_eq!(edit_action(erase), EditCmd::Erase(3));
    let erase_all = EventStream::Buffer(Buffer::Other(OtherEvent::CtrlU, 1));
    assert_eq!(edit_action(erase_all), EditCmd::EraseAll);
    let word_back = EventStream::Buffer(Buffer::Other(OtherEvent::AltB, 2));
    assert_eq!(edit_action(word_back), EditCmd::MovePrevNearest(2));
    let word_fwd = EventStream::Buffer(Buffer::Other(OtherEvent::AltF, 2));
    assert_eq!(edit_action(word_fwd), EditCmd::MoveNextNearest(2));
    let erase_word = EventStream::Buffer(Buffer::Other(OtherEvent::CtrlW, 1));
    assert_eq!(edit_action(erase_word), EditCmd::ErasePrevNearest(1));
    let erase_next = EventStream::Buffer(Buffer::Other(OtherEvent::AltD, 1));
    assert_eq!(edit_action(erase_next), EditCmd::EraseNextNearest(1));
    let steering = EventStream::Buffer(Buffer::VerticalCursor(1, 0));
    assert_eq!(edit_action(steering), EditCmd::Noop);
}

#[test]
fn get_mut_buffer_updates_only_that_stage() {
    let mut map: EditorMap<String> = EditorMap::new(String::from("one"));
    let head = EditorIndex(1, 1);
    let second = map.new_index(&head);
    map.insert(second, String::from("two"));
    *map.state_at_mut(1) = String::from("TWO");
    assert_eq!(map.editor_at(0).state, "one");
    assert_eq!(map.editor_at(1).state, "TWO");
    assert!(map.contains_key(&second));
    assert!(!map.contains_key(&EditorIndex(9, 1)));
    assert!(map.get(&second).is_some());
    assert!(map.is_last(&second));
    assert_eq!(map.last_index(), second);
}
