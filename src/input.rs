use vstd::prelude::*;

verus! {

/// Whether the frame loop goes on after a frame's update.
#[derive(Clone, Copy, Debug, PartialEq, Eq, Structural)]
pub enum ShouldExit {
    Yes,
    No,
}

/// The key of a key event, as far as the viewer tells keys apart.
#[derive(Clone, Copy, Debug, PartialEq, Eq, Structural)]
pub enum Key {
    Char(char),
    Esc,
    Other,
}

/// The modifier keys held during an event; `other` stands for any modifier
/// besides shift, control and alt.
#[derive(Clone, Copy, Debug, PartialEq, Eq, Structural)]
pub struct Modifiers {
    pub shift: bool,
    pub control: bool,
    pub alt: bool,
    pub other: bool,
}

impl Modifiers {
    pub open spec fn spec_is_none(&self) -> bool {
        !self.shift && !self.control && !self.alt && !self.other
    }

    pub open spec fn spec_is_control_only(&self) -> bool {
        !self.shift && self.control && !self.alt && !self.other
    }

    /// No modifier is held.
    pub fn is_none(&self) -> (r: bool)
        ensures
            r == self.spec_is_none(),
    {
        !self.shift && !self.control && !self.alt && !self.other
    }

    /// Control and nothing else is held.
    pub fn is_control_only(&self) -> (r: bool)
        ensures
            r == self.spec_is_control_only(),
    {
        !self.shift && self.control && !self.alt && !self.other
    }
}

#[derive(Clone, Copy, Debug, PartialEq, Eq, Structural)]
pub enum MouseButton {
    Left,
    Right,
    Middle,
}

#[derive(Clone, Copy, Debug, PartialEq, Eq, Structural)]
pub enum MouseAction {
    Down(MouseButton),
    Up(MouseButton),
    Drag(MouseButton),
    Moved,
    Scroll,
}

/// A terminal event, in the terms the viewer decides on.
#[derive(Clone, Copy, Debug, PartialEq, Eq, Structural)]
pub enum InputEvent {
    Key { key: Key, modifiers: Modifiers },
    Mouse { action: MouseAction, column: u16, row: u16, modifiers: Modifiers },
    Resize { columns: u16, rows: u16 },
    Other,
}

/// Esc or `q` without modifiers, or control-c, ask the viewer to stop.
pub open spec fn exit_requested(event: InputEvent) -> bool {
    match event {
        InputEvent::Key { key, modifiers } => {
            (modifiers.spec_is_none() && (key == Key::Esc || key == Key::Char('q'))) || (
            modifiers.spec_is_control_only() && key == Key::Char('c'))
        },
        _ => false,
    }
}

/// Whether `event` asks the viewer to stop.
pub fn should_exit(event: &InputEvent) -> (r: bool)
    ensures
        r == exit_requested(*event),
{
    match event {
        InputEvent::Key { key, modifiers } => {
            if modifiers.is_none() {
                match key {
                    Key::Esc => true,
                    Key::Char(c) => *c == 'q',
                    Key::Other => false,
                }
            } else if modifiers.is_control_only() {
                match key {
                    Key::Char(c) => *c == 'c',
                    _ => false,
                }
            } else {
                false
            }
        },
        _ => false,
    }
}

/// Whether any of `events` asks the viewer to stop.
pub fn any_should_exit(events: &Vec<InputEvent>) -> (r: bool)
    ensures
        r == exists|i: int| 0 <= i < events@.len() && exit_requested(#[trigger] events@[i]),
{
    let mut i: usize = 0;
    while i < events.len()
        invariant
            i <= events@.len(),
            forall|k: int| 0 <= k < i ==> !exit_requested(#[trigger] events@[k]),
        decreases events@.len() - i,
    {
        if should_exit(&events[i]) {
            return true;
        }
        i = i + 1;
    }
    false
}

/// A terminal cell.
#[derive(Clone, Copy, Debug, PartialEq, Eq, Structural)]
pub struct CellPosition {
    pub row: u16,
    pub column: u16,
}

impl CellPosition {
    pub fn new() -> (r: Self)
        ensures
            r.row == 0 && r.column == 0,
    {
        CellPosition { row: 0, column: 0 }
    }

    /// The column and row offsets from `other` to this cell, each read as `i16`.
    pub fn relative_xy_to(&self, other: &Self) -> (r: (i16, i16))
        requires
            i16::MIN <= (self.column as i16) - (other.column as i16) <= i16::MAX,
            i16::MIN <= (self.row as i16) - (other.row as i16) <= i16::MAX,
        ensures
            r.0 == (self.column as i16) - (other.column as i16),
            r.1 == (self.row as i16) - (other.row as i16),
    {
        (self.column as i16 - other.column as i16, self.row as i16 - other.row as i16)
    }
}

/// What the camera's drag rotation is to do after an event.
#[derive(Clone, Copy, Debug, PartialEq, Eq, Structural)]
pub enum DragAction {
    /// Nothing to do.
    Idle,
    /// A drag begins at this cell.
    Start { column: u16, row: u16 },
    /// The drag has reached this cell.
    MoveTo { column: u16, row: u16 },
    /// The terminal now has this size.
    Resize { columns: u16, rows: u16 },
}

/// Where the mouse was last seen, and whether the drag key (`c`) is toggled on.
/// Dragging with the left or middle button, or moving the mouse while the drag
/// key is on, spins the camera.
#[derive(Clone, Copy, Debug, PartialEq, Eq, Structural)]
pub struct PointerState {
    pub drag_key_is_down: bool,
    pub mouse_column: u16,
    pub mouse_row: u16,
}

pub open spec fn is_drag_button(b: MouseButton) -> bool {
    b == MouseButton::Left || b == MouseButton::Middle
}

/// The state after `event`, and what the drag rotation is to do.
pub open spec fn pointer_step(s: PointerState, event: InputEvent) -> (PointerState, DragAction) {
    match event {
        InputEvent::Mouse { action, column, row, modifiers } => {
            let moved = PointerState { mouse_column: column, mouse_row: row, ..s };
            let act = match action {
                MouseAction::Drag(b) => if is_drag_button(b) && modifiers.spec_is_none() {
                    DragAction::MoveTo { column, row }
                } else {
                    DragAction::Idle
                },
                MouseAction::Moved => if s.drag_key_is_down {
                    DragAction::MoveTo { column, row }
                } else {
                    DragAction::Idle
                },
                MouseAction::Down(b) => if is_drag_button(b) {
                    DragAction::Start { column, row }
                } else {
                    DragAction::Idle
                },
                _ => DragAction::Idle,
            };
            (moved, act)
        },
        InputEvent::Key { key, modifiers } => {
            let down = if key == Key::Char('c') {
                !s.drag_key_is_down
            } else {
                s.drag_key_is_down
            };
            let next = PointerState { drag_key_is_down: down, ..s };
            if down {
                (next, DragAction::Start { column: s.mouse_column, row: s.mouse_row })
            } else {
                (next, DragAction::Idle)
            }
        },
        InputEvent::Resize { columns, rows } => (s, DragAction::Resize { columns, rows }),
        InputEvent::Other => (s, DragAction::Idle),
    }
}

impl PointerState {
    pub fn new() -> (r: Self)
        ensures
            !r.drag_key_is_down && r.mouse_column == 0 && r.mouse_row == 0,
    {
        PointerState { drag_key_is_down: false, mouse_column: 0, mouse_row: 0 }
    }

    /// Takes in one event.
    pub fn process_event(&mut self, event: &InputEvent) -> (r: DragAction)
        ensures
            (*final(self), r) == pointer_step(*old(self), *event),
    {
        match event {
            InputEvent::Mouse { action, column, row, modifiers } => {
                self.mouse_column = *column;
                self.mouse_row = *row;
                match action {
                    MouseAction::Drag(MouseButton::Left) | MouseAction::Drag(MouseButton::Middle) => {
                        if modifiers.is_none() {
                            DragAction::MoveTo { column: *column, row: *row }
                        } else {
                            DragAction::Idle
                        }
                    },
                    MouseAction::Moved => {
                        if self.drag_key_is_down {
                            DragAction::MoveTo { column: *column, row: *row }
                        } else {
                            DragAction::Idle
                        }
                    },
                    MouseAction::Down(MouseButton::Left) | MouseAction::Down(MouseButton::Middle) => {
                        DragAction::Start { column: *column, row: *row }
                    },
                    _ => DragAction::Idle,
                }
            },
            InputEvent::Key { key, .. } => {
                if *key == Key::Char('c') {
                    self.drag_key_is_down = !self.drag_key_is_down;
                }
                if self.drag_key_is_down {
                    DragAction::Start { column: self.mouse_column, row: self.mouse_row }
                } else {
                    DragAction::Idle
                }
            },
            InputEvent::Resize { columns, rows } => DragAction::Resize {
                columns: *columns,
                rows: *rows,
            },
            InputEvent::Other => DragAction::Idle,
        }
    }
}

} // verus!
