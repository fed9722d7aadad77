use obj_terminal_viewer::input::{
    any_should_exit, should_exit, CellPosition, DragAction, InputEvent, Key, Modifiers, MouseAction,
    MouseButton, PointerState,
};

const NONE: Modifiers = Modifiers { shift: false, control: false, alt: false, other: false };
const CONTROL: Modifiers = Modifiers { shift: false, control: true, alt: false, other: false };

fn key(key: Key, modifiers: Modifiers) -> InputEvent {
    InputEvent::Key { key, modifiers }
}

fn mouse(action: MouseAction, column: u16, row: u16) -> InputEvent {
    InputEvent::Mouse { action, column, row, modifiers: NONE }
}

#[test]
fn exit_keys() {
    assert!(should_exit(&key(Key::Char('q'), NONE)));
    assert!(should_exit(&key(Key::Esc, NONE)));
    assert!(should_exit(&key(Key::Char('c'), CONTROL)));
    assert!(!should_exit(&key(Key::Char('c'), NONE)));
    assert!(!should_exit(&key(Key::Char('q'), CONTROL)));
    assert!(!should_exit(&InputEvent::Resize { columns: 3, rows: 4 }));
    assert!(any_should_exit(&vec![mouse(MouseAction::Moved, 1, 1), key(Key::Esc, NONE)]));
    assert!(!any_should_exit(&vec![]));
}

#[test]
fn left_drag_moves_and_right_drag_does_not() {
    let mut state = PointerState::new();
    assert_eq!(
        state.process_event(&mouse(MouseAction::Down(MouseButton::Left), 5, 6)),
        DragAction::Start { column: 5, row: 6 }
    );
    assert_eq!(
        state.process_event(&mouse(MouseAction::Drag(MouseButton::Left), 7, 6)),
        DragAction::MoveTo { column: 7, row: 6 }
    );
    assert_eq!(state.process_event(&mouse(MouseAction::Drag(MouseButton::Right), 8, 6)), DragAction::Idle);
    assert_eq!((state.mouse_column, state.mouse_row), (8, 6));
    assert_eq!(state.process_event(&mouse(MouseAction::Moved, 9, 9)), DragAction::Idle);
}

#[test]
fn drag_key_toggles_moving() {
    let mut state = PointerState::new();
    state.process_event(&mouse(MouseAction::Moved, 2, 3));
    assert_eq!(state.process_event(&key(Key::Char('c'), NONE)), DragAction::Start { column: 2, row: 3 });
    assert!(state.drag_key_is_down);
    assert_eq!(state.process_event(&mouse(MouseAction::Moved, 4, 3)), DragAction::MoveTo { column: 4, row: 3 });
    assert_eq!(state.process_event(&key(Key::Char('c'), NONE)), DragAction::Idle);
    assert!(!state.drag_key_is_down);
    assert_eq!(
        state.process_event(&InputEvent::Resize { columns: 80, rows: 24 }),
        DragAction::Resize { columns: 80, rows: 24 }
    );
}

#[test]
fn cell_offsets() {
    let a = CellPosition { row: 3, column: 10 };
    let b = CellPosition { row: 5, column: 4 };
    assert_eq!(a.relative_xy_to(&b), (6, -2));
    assert_eq!(CellPosition::new().relative_xy_to(&a), (-10, -3));
}
