//! The board as a mathematical value, and every change to it as a function.
//!
//! The executable types of this crate are viewed as the types of this module,
//! and the contract of every executable operation names the function here
//! that gives its result.

use vstd::prelude::*;
use crate::date::PLACEHOLDER_DUE;
use crate::text::{blank, committed, edited, Edit};

verus! {

/// A task: what it is called, what the board shows for its date, and the
/// number of the day on which it is due.
pub struct TaskView {
    /// What the task is called.
    pub title: Seq<char>,
    /// What the board shows for the due date.
    pub date_string: Seq<char>,
    /// The number of the day on which the task is due.
    pub due: int,
}

/// A list: its identity, its title, its tasks in the order shown, and the index
/// of the task that the list remembers as selected.
pub struct TaskListView {
    /// The identity of the list: its place on the board, counted from 1.
    pub id: nat,
    /// The title of the list.
    pub title: Seq<char>,
    /// The tasks in the order shown.
    pub tasks: Seq<TaskView>,
    /// The index of the selected task; 0 in a list without tasks.
    pub selected: nat,
}

/// The whole board: its lists in the order shown, how many they are, the
/// identity of the active list, and the last diagnostic message.
pub struct TaskBoardView {
    /// The number of lists.
    pub num_lists: nat,
    /// The lists in the order shown.
    pub lists: Seq<TaskListView>,
    /// The identity of the active list.
    pub active_list: nat,
    /// The last diagnostic message; empty where there was none.
    pub debug_str: Seq<char>,
}

/// An index brought into a sequence of `len` items: it stays where it is in
/// range, and else goes to the last item, or to 0 where there is none.
pub open spec fn clamped(index: nat, len: nat) -> nat {
    if index < len {
        index
    } else if len == 0 {
        0
    } else {
        (len - 1) as nat
    }
}

/// The task that a list receives when the user starts to add one: both fields
/// open for editing with no text, due on the placeholder day.
pub open spec fn new_task() -> TaskView {
    TaskView { title: blank(), date_string: blank(), due: PLACEHOLDER_DUE as int }
}

/// The list that the board receives when the user starts to add one.
pub open spec fn new_list(id: nat) -> TaskListView {
    TaskListView { id, title: blank(), tasks: Seq::empty(), selected: 0 }
}

/// The lists with their identities set to 1, 2, 3, ... in the order shown.
pub open spec fn renumbered(lists: Seq<TaskListView>) -> Seq<TaskListView> {
    Seq::new(lists.len(), |k: int| TaskListView { id: (k + 1) as nat, ..lists[k] })
}

/// The text that reports a date that could not be read.
pub open spec fn parse_failure(text: Seq<char>) -> Seq<char> {
    "Failed to parse date: "@ + text
}

impl TaskListView {
    /// The selection points at a task, or is 0 in a list without tasks.
    pub open spec fn wf(self) -> bool {
        self.selected == clamped(self.selected, self.tasks.len())
    }

    /// The list with a new task at its end, which becomes the selected one.
    pub open spec fn task_added(self) -> Self {
        TaskListView { tasks: self.tasks.push(new_task()), selected: self.tasks.len(), ..self }
    }

    /// The list without its selected task. A list without tasks stays as it is.
    pub open spec fn task_deleted(self) -> Self {
        if self.selected < self.tasks.len() {
            TaskListView {
                tasks: self.tasks.remove(self.selected as int),
                selected: clamped(self.selected, (self.tasks.len() - 1) as nat),
                ..self
            }
        } else {
            self
        }
    }

    /// The list without its last task. A list without tasks stays as it is.
    pub open spec fn last_task_dropped(self) -> Self {
        if self.tasks.len() > 0 {
            TaskListView {
                tasks: self.tasks.drop_last(),
                selected: clamped(self.selected, (self.tasks.len() - 1) as nat),
                ..self
            }
        } else {
            self
        }
    }

    /// The list with the selection one task further down, unless it is at the
    /// last task already.
    pub open spec fn selection_down(self) -> Self {
        if self.selected + 1 < self.tasks.len() {
            TaskListView { selected: self.selected + 1, ..self }
        } else {
            self
        }
    }

    /// The list with the selection one task further up, unless it is at the
    /// first task already.
    pub open spec fn selection_up(self) -> Self {
        if self.selected > 0 {
            TaskListView { selected: (self.selected - 1) as nat, ..self }
        } else {
            self
        }
    }

    /// The list with another last task. A list without tasks stays as it is.
    pub open spec fn with_last_task(self, task: TaskView) -> Self {
        if self.tasks.len() > 0 {
            TaskListView { tasks: self.tasks.update(self.tasks.len() - 1, task), ..self }
        } else {
            self
        }
    }
}

impl TaskBoardView {
    /// The invariant of the board: the count is the number of lists, the
    /// identities are 1, 2, 3, ... in the order shown, every selection is in
    /// range, and while there are lists the active identity is one of theirs.
    pub open spec fn wf(self) -> bool {
        &&& self.num_lists == self.lists.len()
        &&& self.lists.len() > 0 ==> 1 <= self.active_list <= self.lists.len()
        &&& forall|k: int|
            0 <= k < self.lists.len() ==> (#[trigger] self.lists[k]).id == k + 1
                && self.lists[k].wf()
    }

    /// There is a list that the active identity names.
    pub open spec fn has_active(self) -> bool {
        1 <= self.active_list <= self.lists.len()
    }

    /// The active list.
    pub open spec fn active(self) -> TaskListView
        recommends
            self.has_active(),
    {
        self.lists[self.active_list - 1]
    }

    /// The board with another list in the place of the active one.
    pub open spec fn with_active(self, list: TaskListView) -> Self
        recommends
            self.has_active(),
    {
        TaskBoardView { lists: self.lists.update(self.active_list - 1, list), ..self }
    }

    /// The active list holds a task: the last of its tasks is the one that a
    /// task entry works on.
    pub open spec fn has_entry(self) -> bool {
        self.has_active() && self.active().tasks.len() > 0
    }

    /// The task that a task entry works on.
    pub open spec fn entry(self) -> TaskView
        recommends
            self.has_entry(),
    {
        self.active().tasks.last()
    }

    /// The board with a new list at its end, which becomes the active one.
    pub open spec fn list_created(self) -> Self {
        let id = (self.lists.len() + 1) as nat;
        TaskBoardView {
            num_lists: id,
            lists: self.lists.push(new_list(id)),
            active_list: id,
            ..self
        }
    }

    /// The board without the list of identity `id`. The lists behind it move
    /// up by one place and one identity. The active identity stays where it
    /// was below `id`, and else goes down by one, but not below 1. Where no
    /// list has the identity `id` the board stays as it is.
    pub open spec fn list_removed(self, id: nat) -> Self {
        if 1 <= id <= self.lists.len() {
            TaskBoardView {
                num_lists: (self.lists.len() - 1) as nat,
                lists: renumbered(self.lists.remove(id - 1)),
                active_list: if self.active_list < id || self.active_list <= 1 {
                    self.active_list
                } else {
                    (self.active_list - 1) as nat
                },
                ..self
            }
        } else {
            self
        }
    }

    /// The board without its active list. An empty board stays as it is.
    pub open spec fn list_deleted(self) -> Self {
        if self.has_active() {
            self.list_removed(self.active_list)
        } else {
            self
        }
    }

    /// The board with the list of identity `id` active and its selection at
    /// the first task. Where no list has that identity the board stays as it
    /// is.
    pub open spec fn focused(self, id: nat) -> Self {
        if 1 <= id <= self.lists.len() {
            TaskBoardView {
                active_list: id,
                lists: self.lists.update(
                    id - 1,
                    TaskListView { selected: 0, ..self.lists[id - 1] },
                ),
                ..self
            }
        } else {
            self
        }
    }

    /// The board with the list before the active one active, or the active one
    /// again where it is the first.
    pub open spec fn focused_left(self) -> Self {
        if self.active_list > 1 {
            self.focused((self.active_list - 1) as nat)
        } else {
            self.focused(self.active_list)
        }
    }

    /// The board with the list behind the active one active, or the active
    /// one again where it is the last.
    pub open spec fn focused_right(self) -> Self {
        if self.active_list < self.num_lists {
            self.focused(self.active_list + 1)
        } else {
            self.focused(self.active_list)
        }
    }

    /// The board with a new task at the end of the active list.
    pub open spec fn task_added(self) -> Self {
        if self.has_active() {
            self.with_active(self.active().task_added())
        } else {
            self
        }
    }

    /// The board without the selected task of the active list.
    pub open spec fn task_deleted(self) -> Self {
        if self.has_active() {
            self.with_active(self.active().task_deleted())
        } else {
            self
        }
    }

    /// The board with the selection of the active list one task further down.
    pub open spec fn selection_down(self) -> Self {
        if self.has_active() {
            self.with_active(self.active().selection_down())
        } else {
            self
        }
    }

    /// The board with the selection of the active list one task further up.
    pub open spec fn selection_up(self) -> Self {
        if self.has_active() {
            self.with_active(self.active().selection_up())
        } else {
            self
        }
    }

    /// The board after one edit of the title of its last list, which is the
    /// list that is being named. An empty board stays as it is.
    pub open spec fn list_title_edited(self, edit: Edit) -> Self {
        if self.lists.len() > 0 {
            let list = self.lists.last();
            TaskBoardView {
                lists: self.lists.update(
                    self.lists.len() - 1,
                    TaskListView { title: edited(list.title, edit), ..list },
                ),
                ..self
            }
        } else {
            self
        }
    }

    /// The board without its last list, which is the list that was being
    /// named. The active identity goes down by one, but not below 1 while
    /// lists remain. An empty board stays as it is.
    pub open spec fn naming_aborted(self) -> Self {
        if self.lists.len() > 0 {
            TaskBoardView {
                num_lists: (self.lists.len() - 1) as nat,
                lists: self.lists.drop_last(),
                active_list: if self.active_list >= 2 {
                    (self.active_list - 1) as nat
                } else if self.lists.len() == 1 {
                    0
                } else {
                    1
                },
                ..self
            }
        } else {
            self
        }
    }

    /// The board after one edit of the title of the task that is being
    /// entered. A board without such a task stays as it is.
    pub open spec fn entry_title_edited(self, edit: Edit) -> Self {
        if self.has_entry() {
            let task = self.entry();
            self.with_active(
                self.active().with_last_task(TaskView { title: edited(task.title, edit), ..task }),
            )
        } else {
            self
        }
    }

    /// The board after one edit of the date field of the task that is being
    /// entered. A board without such a task stays as it is.
    pub open spec fn entry_date_edited(self, edit: Edit) -> Self {
        if self.has_entry() {
            let task = self.entry();
            self.with_active(
                self.active().with_last_task(
                    TaskView { date_string: edited(task.date_string, edit), ..task },
                ),
            )
        } else {
            self
        }
    }

    /// The board after the title of the task that is being entered was
    /// committed: its date field is open for editing with no text.
    pub open spec fn entry_date_opened(self) -> Self {
        if self.has_entry() {
            let task = self.entry();
            self.with_active(
                self.active().with_last_task(
                    TaskView { title: committed(task.title), date_string: blank(), ..task },
                ),
            )
        } else {
            self
        }
    }

    /// The board after the date that was typed for the task that is being
    /// entered was read as `parsed`: a day becomes the due day of the task;
    /// without one the task keeps its due day and the board reports the text
    /// that could not be read.
    pub open spec fn entry_date_stored(self, parsed: Option<i32>) -> Self {
        if self.has_entry() {
            let task = self.entry();
            match parsed {
                Some(day) => self.with_active(
                    self.active().with_last_task(TaskView { due: day as int, ..task }),
                ),
                None => TaskBoardView { debug_str: parse_failure(task.date_string), ..self },
            }
        } else {
            self
        }
    }

    /// The board without the task that was being entered.
    pub open spec fn entry_aborted(self) -> Self {
        if self.has_active() {
            self.with_active(self.active().last_task_dropped())
        } else {
            self
        }
    }
}

/// Every operation on a well-formed board gives a well-formed board: the
/// identities stay 1, 2, 3, ... and every selection stays in range.
pub proof fn lemma_operations_keep_wf(board: TaskBoardView)
    requires
        board.wf(),
    ensures
        board.list_created().wf(),
        board.list_deleted().wf(),
        forall|id: nat| (#[trigger] board.list_removed(id)).wf(),
        forall|id: nat| (#[trigger] board.focused(id)).wf(),
        board.focused_left().wf(),
        board.focused_right().wf(),
        board.task_added().wf(),
        board.task_deleted().wf(),
        board.selection_down().wf(),
        board.selection_up().wf(),
        board.naming_aborted().wf(),
        board.entry_aborted().wf(),
        board.entry_date_opened().wf(),
        forall|edit: Edit| (#[trigger] board.list_title_edited(edit)).wf(),
        forall|edit: Edit| (#[trigger] board.entry_title_edited(edit)).wf(),
        forall|edit: Edit| (#[trigger] board.entry_date_edited(edit)).wf(),
        forall|parsed: Option<i32>| (#[trigger] board.entry_date_stored(parsed)).wf(),
{
    assert forall|id: nat| (#[trigger] board.list_removed(id)).wf() by {
        lemma_list_removed_wf(board, id);
    }
    lemma_list_removed_wf(board, board.active_list);
}

/// Removing the list of identity `id` takes one list away, leaves the lists
/// before it as they are, moves every list behind it up by one place and one
/// identity, and changes nothing else about them. The active identity stays
/// where it was below `id`; else it goes down by one, but not below 1.
pub proof fn lemma_list_removed_renumbers(board: TaskBoardView, id: nat)
    requires
        board.wf(),
        1 <= id <= board.lists.len(),
    ensures
        ({
            let after = board.list_removed(id);
            &&& after.num_lists == board.num_lists - 1
            &&& after.lists.len() == board.lists.len() - 1
            &&& forall|k: int| 0 <= k < id - 1 ==> after.lists[k] == board.lists[k]
            &&& forall|k: int|
                id - 1 <= k < after.lists.len() ==> #[trigger] after.lists[k] == (TaskListView {
                    id: (board.lists[k + 1].id - 1) as nat,
                    ..board.lists[k + 1]
                })
            &&& board.active_list < id ==> after.active_list == board.active_list
            &&& board.active_list >= id ==> after.active_list == (if board.active_list <= 1 {
                1
            } else {
                (board.active_list - 1) as nat
            })
            &&& after.debug_str == board.debug_str
        }),
{
    let after = board.list_removed(id);
    assert forall|k: int| 0 <= k < id - 1 implies after.lists[k] == board.lists[k] by {
        assert(board.lists[k].id == k + 1);
    }
    assert forall|k: int| id - 1 <= k < after.lists.len() implies #[trigger] after.lists[k] == (
    TaskListView { id: (board.lists[k + 1].id - 1) as nat, ..board.lists[k + 1] }) by {
        assert(board.lists[k + 1].id == k + 2);
    }
}

/// Removing a list from a well-formed board gives a well-formed board.
pub proof fn lemma_list_removed_wf(board: TaskBoardView, id: nat)
    requires
        board.wf(),
    ensures
        board.list_removed(id).wf(),
{
    if 1 <= id <= board.lists.len() {
        let after = board.list_removed(id);
        assert forall|k: int| 0 <= k < after.lists.len() implies (#[trigger] after.lists[k]).id == k
            + 1 && after.lists[k].wf() by {
            if k < id - 1 {
                assert(board.lists[k].wf());
            } else {
                assert(board.lists[k + 1].wf());
            }
        }
    }
}

} // verus!
