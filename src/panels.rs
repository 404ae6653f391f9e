//! State of the board and its panels.
use vstd::prelude::*;

use crate::tasks::TaskStatus;

verus! {

/// A task card on the board.
#[derive(Debug, Clone, Copy)]
pub struct TaskCard;

impl TaskCard {
    pub fn new() -> (r: Self) {
        TaskCard
    }
}

/// The indices of the tasks of `statuses` that have status `s`, in order.
pub open spec fn indices_with(statuses: Seq<TaskStatus>, s: TaskStatus) -> Seq<usize>
    decreases statuses.len(),
{
    if statuses.len() == 0 {
        Seq::empty()
    } else {
        let front = indices_with(statuses.drop_last(), s);
        if statuses.last() == s {
            front.push((statuses.len() - 1) as usize)
        } else {
            front
        }
    }
}

/// One column of the board: the tasks of one status.
#[derive(Debug, Clone, Copy)]
pub struct Column {
    status: TaskStatus,
    card: TaskCard,
}

impl Column {
    pub fn new(status: TaskStatus) -> (r: Self)
        ensures
            r.status() == status,
    {
        Column { status, card: TaskCard::new() }
    }

    pub closed spec fn status(&self) -> TaskStatus {
        self.status
    }

    pub fn get_status(&self) -> (r: TaskStatus)
        ensures
            r == self.status(),
    {
        self.status
    }

    /// Which of the tasks (given by their statuses) this column shows, in order.
    pub fn task_indices(&self, statuses: &[TaskStatus]) -> (r: Vec<usize>)
        ensures
            r@ == indices_with(statuses@, self.status()),
    {
        let mut out: Vec<usize> = Vec::new();
        let mut i: usize = 0;
        while i < statuses.len()
            invariant
                i <= statuses@.len(),
                out@ == indices_with(statuses@.subrange(0, i as int), self.status),
            decreases statuses@.len() - i,
        {
            assert(statuses@.subrange(0, i + 1).drop_last() =~= statuses@.subrange(0, i as int));
            if statuses[i] == self.status {
                out.push(i);
            }
            i += 1;
        }
        assert(statuses@.subrange(0, statuses@.len() as int) =~= statuses@);
        out
    }

    /// Whether the card in `row` is highlighted.
    pub fn is_selected_row(row: usize, is_selected_column: bool, selected_row: usize) -> (r: bool)
        ensures
            r == (is_selected_column && row == selected_row),
    {
        is_selected_column && row == selected_row
    }
}

/// The board: one column per task status, in workflow order.
#[derive(Debug, Clone, Copy)]
pub struct Board {
    todo_column: Column,
    in_progress_column: Column,
    in_review_column: Column,
    done_column: Column,
}

pub open spec fn board_order() -> Seq<TaskStatus> {
    seq![TaskStatus::Todo, TaskStatus::InProgress, TaskStatus::InReview, TaskStatus::Done]
}

impl Board {
    pub closed spec fn statuses(&self) -> Seq<TaskStatus> {
        seq![
            self.todo_column.status,
            self.in_progress_column.status,
            self.in_review_column.status,
            self.done_column.status,
        ]
    }

    pub fn new() -> (r: Self)
        ensures
            r.statuses() == board_order(),
    {
        Board {
            todo_column: Column::new(TaskStatus::Todo),
            in_progress_column: Column::new(TaskStatus::InProgress),
            in_review_column: Column::new(TaskStatus::InReview),
            done_column: Column::new(TaskStatus::Done),
        }
    }

    /// The column at `index` (0 to 3), left to right.
    pub fn column(&self, index: usize) -> (r: Option<Column>)
        ensures
            index < 4 ==> (r matches Some(c) && c.status() == self.statuses()[index as int]),
            index >= 4 ==> r is None,
    {
        match index {
            0 => Some(self.todo_column),
            1 => Some(self.in_progress_column),
            2 => Some(self.in_review_column),
            3 => Some(self.done_column),
            _ => None,
        }
    }
}

/// The list of projects, with the index of the selected one.
#[derive(Debug, Clone, Copy)]
pub struct ProjectPanel {
    selected_index: usize,
}

impl ProjectPanel {
    pub closed spec fn selected(&self) -> usize {
        self.selected_index
    }

    pub fn new() -> (r: Self)
        ensures
            r.selected() == 0,
    {
        ProjectPanel { selected_index: 0 }
    }

    pub fn get_selected_index(&self) -> (r: usize)
        ensures
            r == self.selected(),
    {
        self.selected_index
    }

    pub fn set_selected_index(&mut self, index: usize)
        ensures
            final(self).selected() == index,
    {
        self.selected_index = index;
    }
}

/// The details and logs of one session.
#[derive(Debug, Clone, Copy)]
pub struct SessionPanel;

impl SessionPanel {
    pub fn new() -> (r: Self) {
        SessionPanel
    }
}

/// A task with its latest session and that session's logs.
#[derive(Debug, Clone, Copy)]
pub struct TaskExecutionPanel;

impl TaskExecutionPanel {
    pub fn new() -> (r: Self) {
        TaskExecutionPanel
    }
}

} // verus!
