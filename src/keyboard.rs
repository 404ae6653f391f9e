//! Keyboard navigation of the board.
use vstd::prelude::*;

verus! {

#[derive(Debug, Clone, Copy, PartialEq, Eq, Structural)]
pub enum Direction {
    Left,
    Right,
    Up,
    Down,
}

/// Which level of the board is shown.
#[derive(Debug, Clone, Copy, PartialEq, Eq, Structural)]
pub enum ViewLevel {
    Project,
    Task,
    Session,
}

/// What a key press asks the application to do.
#[derive(Debug, Clone, Copy, PartialEq, Eq, Structural)]
pub enum Action {
    NoOp,
    MoveSelection(Direction),
    MoveTask(Direction),
    SelectTask,
    CreateProject,
    CreateTask,
    DeleteTask,
    EditTask,
    StartSession,
    StopSession,
    JumpToTop,
    JumpToBottom,
    JumpToColumn(usize),
    Search,
    Quit,
    DrillDown,
    GoBack,
    ToggleHelp,
}

/// The keys the bindings read; every other key is `Other`.
#[derive(Debug, Clone, Copy, PartialEq, Eq, Structural)]
pub enum Key {
    H,
    J,
    K,
    L,
    ArrowLeft,
    ArrowDown,
    ArrowUp,
    ArrowRight,
    G,
    D,
    Num1,
    Num2,
    Num3,
    Num4,
    Enter,
    N,
    E,
    S,
    X,
    C,
    Slash,
    Q,
    Questionmark,
    Escape,
    Other,
}

/// The modifier keys held with a key press.
#[derive(Debug, Clone, Copy, PartialEq, Eq, Structural)]
pub struct Modifiers {
    pub ctrl: bool,
}

pub open spec fn ctrl_action(key: Key) -> Action {
    match key {
        Key::H => Action::MoveTask(Direction::Left),
        Key::J => Action::MoveTask(Direction::Down),
        Key::K => Action::MoveTask(Direction::Up),
        Key::L => Action::MoveTask(Direction::Right),
        Key::C => Action::Quit,
        _ => Action::NoOp,
    }
}

pub open spec fn combo_action(first: Key, second: Key) -> Action {
    if first == Key::G && second == Key::G {
        Action::JumpToTop
    } else if first == Key::D && second == Key::D {
        Action::DeleteTask
    } else {
        Action::NoOp
    }
}

pub open spec fn plain_action(view: ViewLevel, key: Key) -> Action {
    match key {
        Key::H | Key::ArrowLeft => Action::MoveSelection(Direction::Left),
        Key::J | Key::ArrowDown => Action::MoveSelection(Direction::Down),
        Key::K | Key::ArrowUp => Action::MoveSelection(Direction::Up),
        Key::L | Key::ArrowRight => Action::MoveSelection(Direction::Right),
        Key::Num1 => Action::JumpToColumn(0),
        Key::Num2 => Action::JumpToColumn(1),
        Key::Num3 => Action::JumpToColumn(2),
        Key::Num4 => Action::JumpToColumn(3),
        Key::Enter => Action::DrillDown,
        Key::N => match view {
            ViewLevel::Project => Action::CreateProject,
            ViewLevel::Task => Action::CreateTask,
            ViewLevel::Session => Action::NoOp,
        },
        Key::E => Action::EditTask,
        Key::S => Action::StartSession,
        Key::X => Action::StopSession,
        Key::Slash => Action::Search,
        Key::Q => Action::Quit,
        Key::Questionmark => Action::ToggleHelp,
        Key::Escape => Action::GoBack,
        _ => Action::NoOp,
    }
}

/// A row index kept inside a column of `size` rows (row zero for an empty one).
pub open spec fn clamp_row(row: usize, size: usize) -> usize {
    let last = if size == 0 {
        0
    } else {
        (size - 1) as usize
    };
    if row < last {
        row
    } else {
        last
    }
}

/// An index moved one step within `0..count`.
pub open spec fn stepped(index: usize, direction: Direction, count: usize) -> usize {
    if count == 0 {
        index
    } else {
        match direction {
            Direction::Up | Direction::Left => if index > 0 {
                (index - 1) as usize
            } else {
                index
            },
            Direction::Down | Direction::Right => if index < count - 1 {
                (index + 1) as usize
            } else {
                index
            },
        }
    }
}

fn last_index(size: usize) -> (r: usize)
    ensures
        r == if size == 0 {
            0
        } else {
            (size - 1) as usize
        },
{
    size.saturating_sub(1)
}

fn clamp(row: usize, size: usize) -> (r: usize)
    ensures
        r == clamp_row(row, size),
{
    let last = last_index(size);
    if row < last {
        row
    } else {
        last
    }
}

fn step(index: usize, direction: Direction, count: usize) -> (r: usize)
    ensures
        r == stepped(index, direction, count),
{
    if count == 0 {
        return index;
    }
    match direction {
        Direction::Up | Direction::Left => if index > 0 {
            index - 1
        } else {
            index
        },
        Direction::Down | Direction::Right => if index < count - 1 {
            index + 1
        } else {
            index
        },
    }
}

/// Vim-like keyboard navigation over the board.
#[derive(Debug, Clone, Copy)]
pub struct KeyboardState {
    pub view_level: ViewLevel,
    pub selected_column: usize,
    pub selected_row: usize,
    pub selected_project_index: usize,
    pub selected_session_index: usize,
    pub pending_key: Option<Key>,
    pub last_action: Action,
}

impl KeyboardState {
    pub fn new() -> (r: Self)
        ensures
            r.view_level == ViewLevel::Project,
            r.selected_column == 0 && r.selected_row == 0,
            r.selected_project_index == 0 && r.selected_session_index == 0,
            r.pending_key is None,
            r.last_action == Action::NoOp,
    {
        KeyboardState {
            view_level: ViewLevel::Project,
            selected_column: 0,
            selected_row: 0,
            selected_project_index: 0,
            selected_session_index: 0,
            pending_key: None,
            last_action: Action::NoOp,
        }
    }

    /// The action of a key press. With ctrl held the task moves; a `g` or `d` waits for
    /// the next key, which completes `gg` or `dd` or cancels.
    pub fn handle_key(&mut self, key: Key, modifiers: &Modifiers) -> (r: Action)
        ensures
            modifiers.ctrl ==> r == ctrl_action(key) && *final(self) == *old(self),
            !modifiers.ctrl && old(self).pending_key is Some ==> r == combo_action(
                old(self).pending_key.unwrap(),
                key,
            ) && *final(self) == (KeyboardState { pending_key: None, ..*old(self) }),
            !modifiers.ctrl && old(self).pending_key is None && (key == Key::G || key == Key::D)
                ==> r == Action::NoOp && *final(self) == (KeyboardState {
                pending_key: Some(key),
                ..*old(self)
            }),
            !modifiers.ctrl && old(self).pending_key is None && key != Key::G && key != Key::D
                ==> r == plain_action(old(self).view_level, key) && *final(self) == *old(self),
    {
        if modifiers.ctrl {
            return match key {
                Key::H => Action::MoveTask(Direction::Left),
                Key::J => Action::MoveTask(Direction::Down),
                Key::K => Action::MoveTask(Direction::Up),
                Key::L => Action::MoveTask(Direction::Right),
                Key::C => Action::Quit,
                _ => Action::NoOp,
            };
        }
        if let Some(first) = self.pending_key {
            self.pending_key = None;
            return match (first, key) {
                (Key::G, Key::G) => Action::JumpToTop,
                (Key::D, Key::D) => Action::DeleteTask,
                _ => Action::NoOp,
            };
        }
        match key {
            Key::H | Key::ArrowLeft => Action::MoveSelection(Direction::Left),
            Key::J | Key::ArrowDown => Action::MoveSelection(Direction::Down),
            Key::K | Key::ArrowUp => Action::MoveSelection(Direction::Up),
            Key::L | Key::ArrowRight => Action::MoveSelection(Direction::Right),
            Key::G | Key::D => {
                self.pending_key = Some(key);
                Action::NoOp
            },
            Key::Num1 => Action::JumpToColumn(0),
            Key::Num2 => Action::JumpToColumn(1),
            Key::Num3 => Action::JumpToColumn(2),
            Key::Num4 => Action::JumpToColumn(3),
            Key::Enter => Action::DrillDown,
            Key::N => match self.view_level {
                ViewLevel::Project => Action::CreateProject,
                ViewLevel::Task => Action::CreateTask,
                ViewLevel::Session => Action::NoOp,
            },
            Key::E => Action::EditTask,
            Key::S => Action::StartSession,
            Key::X => Action::StopSession,
            Key::Slash => Action::Search,
            Key::Q => Action::Quit,
            Key::Questionmark => Action::ToggleHelp,
            Key::Escape => Action::GoBack,
            _ => Action::NoOp,
        }
    }

    /// Moves the selection on the board; a column change keeps the row inside the new column.
    pub fn move_selection(&mut self, direction: Direction, max_columns: usize, column_sizes: &[usize])
        requires
            old(self).selected_column < column_sizes@.len(),
            max_columns <= column_sizes@.len(),
        ensures
            final(self).selected_column < column_sizes@.len(),
            final(self).selected_column == match direction {
                Direction::Left => if old(self).selected_column > 0 {
                    (old(self).selected_column - 1) as usize
                } else {
                    old(self).selected_column
                },
                Direction::Right => if max_columns > 0 && old(self).selected_column < max_columns
                    - 1 {
                    (old(self).selected_column + 1) as usize
                } else {
                    old(self).selected_column
                },
                _ => old(self).selected_column,
            },
            final(self).selected_row == match direction {
                Direction::Left | Direction::Right => if final(self).selected_column
                    != old(self).selected_column {
                    clamp_row(old(self).selected_row, column_sizes@[final(self).selected_column as int])
                } else {
                    old(self).selected_row
                },
                Direction::Up => if old(self).selected_row > 0 {
                    (old(self).selected_row - 1) as usize
                } else {
                    old(self).selected_row
                },
                Direction::Down => {
                    let size = column_sizes@[old(self).selected_column as int];
                    if size > 0 && old(self).selected_row < size - 1 {
                        (old(self).selected_row + 1) as usize
                    } else {
                        old(self).selected_row
                    }
                },
            },
            final(self).view_level == old(self).view_level,
            final(self).selected_project_index == old(self).selected_project_index,
            final(self).selected_session_index == old(self).selected_session_index,
            final(self).pending_key == old(self).pending_key,
            final(self).last_action == old(self).last_action,
    {
        match direction {
            Direction::Left => {
                if self.selected_column > 0 {
                    self.selected_column = self.selected_column - 1;
                    self.selected_row = clamp(self.selected_row, column_sizes[self.selected_column]);
                }
            },
            Direction::Right => {
                if self.selected_column < last_index(max_columns) {
                    self.selected_column = self.selected_column + 1;
                    self.selected_row = clamp(self.selected_row, column_sizes[self.selected_column]);
                }
            },
            Direction::Up => {
                if self.selected_row > 0 {
                    self.selected_row = self.selected_row - 1;
                }
            },
            Direction::Down => {
                if self.selected_row < last_index(column_sizes[self.selected_column]) {
                    self.selected_row = self.selected_row + 1;
                }
            },
        }
    }

    pub fn jump_to_top(&mut self)
        ensures
            *final(self) == (KeyboardState { selected_row: 0, ..*old(self) }),
    {
        self.selected_row = 0;
    }

    /// Selects the last row of a column of `column_size` rows.
    pub fn jump_to_bottom(&mut self, column_size: usize)
        ensures
            *final(self) == (KeyboardState {
                selected_row: if column_size == 0 {
                    0
                } else {
                    (column_size - 1) as usize
                },
                ..*old(self)
            }),
    {
        self.selected_row = last_index(column_size);
    }

    /// Selects column `column` when the board has it, keeping the row inside it.
    pub fn jump_to_column(&mut self, column: usize, max_columns: usize, column_sizes: &[usize])
        requires
            column < max_columns ==> column < column_sizes@.len(),
        ensures
            column < max_columns ==> *final(self) == (KeyboardState {
                selected_column: column,
                selected_row: clamp_row(old(self).selected_row, column_sizes@[column as int]),
                ..*old(self)
            }),
            column >= max_columns ==> *final(self) == *old(self),
    {
        if column < max_columns {
            self.selected_column = column;
            self.selected_row = clamp(self.selected_row, column_sizes[column]);
        }
    }

    /// The name of the view level shown in the status bar.
    pub fn get_view_string(&self) -> (r: &'static str)
        ensures
            r@ == match self.view_level {
                ViewLevel::Project => "PROJECT"@,
                ViewLevel::Task => "TASK"@,
                ViewLevel::Session => "SESSION"@,
            },
    {
        match self.view_level {
            ViewLevel::Project => "PROJECT",
            ViewLevel::Task => "TASK",
            ViewLevel::Session => "SESSION",
        }
    }

    /// Goes one level deeper, if there is one.
    pub fn drill_down(&mut self) -> (r: bool)
        ensures
            r == (old(self).view_level != ViewLevel::Session),
            *final(self) == (KeyboardState {
                view_level: match old(self).view_level {
                    ViewLevel::Project => ViewLevel::Task,
                    _ => ViewLevel::Session,
                },
                ..*old(self)
            }),
    {
        match self.view_level {
            ViewLevel::Project => {
                self.view_level = ViewLevel::Task;
                true
            },
            ViewLevel::Task => {
                self.view_level = ViewLevel::Session;
                true
            },
            ViewLevel::Session => false,
        }
    }

    /// Goes one level up, if there is one.
    pub fn go_back(&mut self) -> (r: bool)
        ensures
            r == (old(self).view_level != ViewLevel::Project),
            *final(self) == (KeyboardState {
                view_level: match old(self).view_level {
                    ViewLevel::Session => ViewLevel::Task,
                    _ => ViewLevel::Project,
                },
                ..*old(self)
            }),
    {
        match self.view_level {
            ViewLevel::Project => false,
            ViewLevel::Task => {
                self.view_level = ViewLevel::Project;
                true
            },
            ViewLevel::Session => {
                self.view_level = ViewLevel::Task;
                true
            },
        }
    }

    pub fn move_project_selection(&mut self, direction: Direction, project_count: usize)
        ensures
            *final(self) == (KeyboardState {
                selected_project_index: stepped(
                    old(self).selected_project_index,
                    direction,
                    project_count,
                ),
                ..*old(self)
            }),
    {
        self.selected_project_index = step(self.selected_project_index, direction, project_count);
    }

    pub fn move_session_selection(&mut self, direction: Direction, session_count: usize)
        ensures
            *final(self) == (KeyboardState {
                selected_session_index: stepped(
                    old(self).selected_session_index,
                    direction,
                    session_count,
                ),
                ..*old(self)
            }),
    {
        self.selected_session_index = step(self.selected_session_index, direction, session_count);
    }
}

impl Default for KeyboardState {
    fn default() -> (r: Self)
        ensures
            r.view_level == ViewLevel::Project,
            r.selected_column == 0 && r.selected_row == 0,
            r.selected_project_index == 0 && r.selected_session_index == 0,
            r.pending_key is None,
            r.last_action == Action::NoOp,
    {
        KeyboardState::new()
    }
}

} // verus!
