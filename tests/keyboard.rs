use ikanban::keyboard::{Action, Direction, Key, KeyboardState, Modifiers, ViewLevel};
use ikanban::panels::{Board, Column, ProjectPanel, SessionPanel, TaskCard, TaskExecutionPanel};
use ikanban::tasks::TaskStatus;

const PLAIN: Modifiers = Modifiers { ctrl: false };
const CTRL: Modifiers = Modifiers { ctrl: true };

#[test]
fn vim_bindings() {
    let mut k = KeyboardState::new();
    assert_eq!(k.handle_key(Key::J, &PLAIN), Action::MoveSelection(Direction::Down));
    assert_eq!(k.handle_key(Key::H, &CTRL), Action::MoveTask(Direction::Left));
    assert_eq!(k.handle_key(Key::C, &CTRL), Action::Quit);
    assert_eq!(k.handle_key(Key::G, &PLAIN), Action::NoOp);
    assert_eq!(k.pending_key, Some(Key::G));
    assert_eq!(k.handle_key(Key::G, &PLAIN), Action::JumpToTop);
    assert_eq!(k.pending_key, None);
    assert_eq!(k.handle_key(Key::D, &PLAIN), Action::NoOp);
    assert_eq!(k.handle_key(Key::X, &PLAIN), Action::NoOp);
    assert_eq!(k.handle_key(Key::D, &PLAIN), Action::NoOp);
    assert_eq!(k.handle_key(Key::D, &PLAIN), Action::DeleteTask);
    assert_eq!(k.handle_key(Key::Num3, &PLAIN), Action::JumpToColumn(2));
    assert_eq!(k.handle_key(Key::N, &PLAIN), Action::CreateProject);
    k.drill_down();
    assert_eq!(k.handle_key(Key::N, &PLAIN), Action::CreateTask);
}

#[test]
fn levels() {
    let mut k = KeyboardState::new();
    assert_eq!(k.get_view_string(), "PROJECT");
    assert!(!k.go_back());
    assert!(k.drill_down());
    assert!(k.drill_down());
    assert_eq!(k.view_level, ViewLevel::Session);
    assert_eq!(k.get_view_string(), "SESSION");
    assert!(!k.drill_down());
    assert!(k.go_back());
    assert_eq!(k.get_view_string(), "TASK");
}

#[test]
fn selection_stays_inside_columns() {
    let mut k = KeyboardState::new();
    let sizes = [3usize, 1, 0, 2];
    k.move_selection(Direction::Down, 4, &sizes);
    k.move_selection(Direction::Down, 4, &sizes);
    k.move_selection(Direction::Down, 4, &sizes);
    assert_eq!(k.selected_row, 2);
    k.move_selection(Direction::Right, 4, &sizes);
    assert_eq!((k.selected_column, k.selected_row), (1, 0));
    k.move_selection(Direction::Right, 4, &sizes);
    k.move_selection(Direction::Right, 4, &sizes);
    k.move_selection(Direction::Right, 4, &sizes);
    assert_eq!(k.selected_column, 3);
    k.move_selection(Direction::Up, 4, &sizes);
    assert_eq!(k.selected_row, 0);
    k.jump_to_bottom(2);
    assert_eq!(k.selected_row, 1);
    k.jump_to_top();
    assert_eq!(k.selected_row, 0);
    k.jump_to_column(0, 4, &sizes);
    assert_eq!(k.selected_column, 0);
    k.jump_to_column(7, 4, &sizes);
    assert_eq!(k.selected_column, 0);
}

#[test]
fn list_selections() {
    let mut k = KeyboardState::new();
    k.move_project_selection(Direction::Down, 2);
    k.move_project_selection(Direction::Down, 2);
    assert_eq!(k.selected_project_index, 1);
    k.move_project_selection(Direction::Up, 0);
    assert_eq!(k.selected_project_index, 1);
    k.move_session_selection(Direction::Left, 3);
    assert_eq!(k.selected_session_index, 0);
    k.move_session_selection(Direction::Right, 3);
    assert_eq!(k.selected_session_index, 1);
}

#[test]
fn board_columns_follow_the_workflow() {
    let board = Board::new();
    let order: Vec<TaskStatus> = (0..4).map(|i| board.column(i).unwrap().get_status()).collect();
    assert_eq!(
        order,
        vec![TaskStatus::Todo, TaskStatus::InProgress, TaskStatus::InReview, TaskStatus::Done]
    );
    assert!(board.column(4).is_none());
    let col = Column::new(TaskStatus::Done);
    let statuses = [TaskStatus::Done, TaskStatus::Todo, TaskStatus::Done];
    assert_eq!(col.task_indices(&statuses), vec![0, 2]);
    assert!(Column::is_selected_row(1, true, 1));
    assert!(!Column::is_selected_row(1, false, 1));
    let mut panel = ProjectPanel::new();
    assert_eq!(panel.get_selected_index(), 0);
    panel.set_selected_index(4);
    assert_eq!(panel.get_selected_index(), 4);
    let _ = (TaskCard::new(), SessionPanel::new(), TaskExecutionPanel::new());
}

#[test]
fn defaults_match_new() {
    let k = KeyboardState::default();
    assert_eq!(k.view_level, ViewLevel::Project);
    assert_eq!(k.last_action, Action::NoOp);
    let env = ikanban::executor::ExecutionEnv::default();
    assert!(env.repo_paths.is_empty() && env.env_vars.is_empty());
    assert!(ikanban::executor::OpenCodeExecutor::default().auto_approve);
    assert!(!ikanban::log_store::MsgStore::default().finished());
    let _ = ikanban::worktree::WorktreeManager::default();
}
