//! The board and the operations that the keys stand for.

use vstd::prelude::*;
use crate::date::PLACEHOLDER_DUE;
use crate::model::{
    clamped, lemma_list_removed_renumbers, lemma_list_removed_wf, lemma_operations_keep_wf,
    renumbered, TaskBoardView, TaskListView, TaskView,
};
use crate::text::{apply, commit, start_edit, Edit};

verus! {

/// A task of a list.
#[derive(Clone, Debug, PartialEq, Eq)]
pub struct Task {
    /// What the task is called. While it is being typed it ends in the cursor
    /// mark.
    pub title: String,
    /// What the board shows for the due date: the date as it was typed, or a
    /// label such as "Today".
    pub date_string: String,
    /// The number of the day on which the task is due.
    pub due: i32,
}

/// A named list of tasks.
#[derive(Clone, Debug, PartialEq, Eq)]
pub struct TaskList {
    /// The identity of the list: its place on the board, counted from 1.
    pub id: usize,
    /// The title of the list.
    pub title: String,
    /// The tasks in the order shown.
    pub tasks: Vec<Task>,
    /// The index of the selected task; 0 in a list without tasks.
    pub selected: usize,
}

/// The board: all lists, and which of them is active.
#[derive(Clone, Debug, PartialEq, Eq)]
pub struct TaskBoard {
    /// The number of lists.
    pub num_lists: usize,
    /// The lists in the order shown.
    pub lists: Vec<TaskList>,
    /// The identity of the active list. It names no list while the board is
    /// empty.
    pub active_list: usize,
    /// The last diagnostic message; empty where there was none.
    pub debug_str: String,
}

impl View for Task {
    type V = TaskView;

    open spec fn view(&self) -> TaskView {
        TaskView { title: self.title@, date_string: self.date_string@, due: self.due as int }
    }
}

/// The tasks as mathematical values.
pub open spec fn task_views(tasks: Seq<Task>) -> Seq<TaskView> {
    tasks.map_values(|t: Task| t@)
}

impl View for TaskList {
    type V = TaskListView;

    open spec fn view(&self) -> TaskListView {
        TaskListView {
            id: self.id as nat,
            title: self.title@,
            tasks: task_views(self.tasks@),
            selected: self.selected as nat,
        }
    }
}

/// The lists as mathematical values.
pub open spec fn list_views(lists: Seq<TaskList>) -> Seq<TaskListView> {
    lists.map_values(|l: TaskList| l@)
}

impl View for TaskBoard {
    type V = TaskBoardView;

    open spec fn view(&self) -> TaskBoardView {
        TaskBoardView {
            num_lists: self.num_lists as nat,
            lists: list_views(self.lists@),
            active_list: self.active_list as nat,
            debug_str: self.debug_str@,
        }
    }
}

/// The lists as a board takes them in: identities set to 1, 2, 3, ... in the
/// order given, and every selection brought into range.
pub open spec fn adopted(lists: Seq<TaskListView>) -> Seq<TaskListView> {
    Seq::new(
        lists.len(),
        |k: int|
            TaskListView {
                id: (k + 1) as nat,
                selected: clamped(lists[k].selected, lists[k].tasks.len()),
                ..lists[k]
            },
    )
}

/// The board that is made of the given lists: the first list is active and
/// there is no diagnostic message.
pub open spec fn board_of(lists: Seq<TaskListView>) -> TaskBoardView {
    TaskBoardView {
        num_lists: lists.len(),
        lists: adopted(lists),
        active_list: 1,
        debug_str: Seq::empty(),
    }
}

/// Lists that are numbered 1, 2, 3, ... in their order and whose selections
/// are in range are taken in as they are.
pub proof fn lemma_adopted_unchanged(lists: Seq<TaskListView>)
    requires
        forall|k: int| 0 <= k < lists.len() ==> (#[trigger] lists[k]).id == k + 1 && lists[k].wf(),
    ensures
        adopted(lists) == lists,
{
    assert(adopted(lists) =~= lists);
}

impl Task {
    /// A task that is about to be typed in: both fields open for editing with
    /// no text, due on the placeholder day.
    pub fn new() -> (task: Task)
        ensures
            task@ == crate::model::new_task(),
    {
        Task { title: start_edit(), date_string: start_edit(), due: PLACEHOLDER_DUE }
    }
}

impl TaskList {
    /// A list without tasks that is about to be named: its title is open for
    /// editing with no text.
    pub fn new(id: usize) -> (list: TaskList)
        ensures
            list@ == crate::model::new_list(id as nat),
    {
        let list = TaskList { id, title: start_edit(), tasks: Vec::new(), selected: 0 };
        assert(list@.tasks =~= Seq::empty());
        list
    }

    /// Whether the selection is in range.
    pub fn is_valid(&self) -> (valid: bool)
        ensures
            valid == self@.wf(),
    {
        if self.tasks.len() == 0 {
            self.selected == 0
        } else {
            self.selected < self.tasks.len()
        }
    }
}

impl TaskBoard {
    /// Makes a board of the given lists. The lists are numbered in the order
    /// given and every selection is brought into range, so that the board is
    /// well formed whatever the lists held.
    pub fn new(lists: Vec<TaskList>) -> (board: TaskBoard)
        ensures
            board@ == board_of(list_views(lists@)),
            board@.wf(),
    {
        let ghost given = list_views(lists@);
        let mut lists = lists;
        let n = lists.len();
        let mut i: usize = 0;
        while i < n
            invariant
                i <= n,
                lists.len() == n,
                given.len() == n,
                forall|k: int| 0 <= k < i ==> (#[trigger] lists[k])@ == adopted(given)[k],
                forall|k: int| i <= k < n ==> (#[trigger] lists[k])@ == given[k],
            decreases n - i,
        {
            let len = lists[i].tasks.len();
            lists[i].id = i + 1;
            if lists[i].selected >= len {
                lists[i].selected = if len == 0 { 0 } else { len - 1 };
            }
            i += 1;
        }
        let board = TaskBoard { num_lists: n, lists, active_list: 1, debug_str: String::new() };
        assert(board@.lists =~= adopted(given));
        board
    }

    /// Whether the board is well formed.
    pub fn is_valid(&self) -> (valid: bool)
        ensures
            valid == self@.wf(),
    {
        let n = self.lists.len();
        if self.num_lists != n {
            return false;
        }
        if n > 0 && (self.active_list < 1 || self.active_list > n) {
            return false;
        }
        let mut i: usize = 0;
        while i < n
            invariant
                i <= n,
                n == self.lists.len(),
                forall|k: int|
                    0 <= k < i ==> (#[trigger] self@.lists[k]).id == k + 1 && self@.lists[k].wf(),
            decreases n - i,
        {
            if self.lists[i].id != i + 1 || !self.lists[i].is_valid() {
                assert(self@.lists[i as int] == self.lists[i as int]@);
                return false;
            }
            assert(self@.lists[i as int] == self.lists[i as int]@);
            i += 1;
        }
        true
    }

    /// Whether the active identity names a list.
    pub fn has_active(&self) -> (yes: bool)
        ensures
            yes == self@.has_active(),
    {
        1 <= self.active_list && self.active_list <= self.lists.len()
    }

    /// Whether the active list holds a task, so that a task entry has a task
    /// to work on.
    pub fn has_entry(&self) -> (yes: bool)
        ensures
            yes == self@.has_entry(),
    {
        if self.has_active() {
            let i = self.active_list - 1;
            assert(self@.lists[i as int] == self.lists[i as int]@);
            self.lists[i].tasks.len() > 0
        } else {
            false
        }
    }

    /// Appends a list without tasks whose title is open for editing, and
    /// makes it the active list.
    pub fn create_list(&mut self)
        ensures
            final(self)@ == old(self)@.list_created(),
            old(self)@.wf() ==> final(self)@.wf(),
    {
        self.lists.push(TaskList::new(0));
        // The identity of the new list is the number of lists now that it is there.
        let id = self.lists.len();
        self.lists[id - 1].id = id;
        self.num_lists = id;
        self.active_list = id;
        proof {
            assert(self@.lists =~= old(self)@.list_created().lists);
            if old(self)@.wf() {
                lemma_operations_keep_wf(old(self)@);
            }
        }
    }

    /// Removes the list of identity `id`, gives the lists behind it the
    /// identities that follow, and moves the active identity as
    /// [`TaskBoardView::list_removed`] says. Where no list has that identity
    /// nothing changes.
    pub fn remove_list(&mut self, id: usize)
        ensures
            final(self)@ == old(self)@.list_removed(id as nat),
            old(self)@.wf() ==> final(self)@.wf(),
            old(self)@.wf() && 1 <= id <= old(self)@.lists.len() ==> ({
                &&& final(self)@.lists.len() == old(self)@.lists.len() - 1
                &&& forall|k: int| 0 <= k < id - 1 ==> final(self)@.lists[k] == old(self)@.lists[k]
                &&& forall|k: int|
                    id - 1 <= k < final(self)@.lists.len() ==> #[trigger] final(self)@.lists[k] == (
                    TaskListView {
                        id: (old(self)@.lists[k + 1].id - 1) as nat,
                        ..old(self)@.lists[k + 1]
                    })
                &&& old(self)@.active_list < id ==> final(self)@.active_list == old(
                    self,
                )@.active_list
                &&& old(self)@.active_list >= id ==> final(self)@.active_list == (if old(
                    self,
                )@.active_list <= 1 {
                    1
                } else {
                    (old(self)@.active_list - 1) as nat
                })
            }),
    {
        let n = self.lists.len();
        if id < 1 || id > n {
            return;
        }
        let _ = self.lists.remove(id - 1);
        let ghost kept = list_views(self.lists@);
        assert(kept =~= old(self)@.lists.remove(id - 1));
        let mut i: usize = 0;
        while i < n - 1
            invariant
                i <= n - 1,
                self.lists.len() == n - 1,
                kept.len() == n - 1,
                forall|k: int| 0 <= k < i ==> (#[trigger] self.lists[k])@ == renumbered(kept)[k],
                forall|k: int| i <= k < n - 1 ==> (#[trigger] self.lists[k])@ == kept[k],
                self.num_lists == old(self).num_lists,
                self.active_list == old(self).active_list,
                self.debug_str == old(self).debug_str,
            decreases n - 1 - i,
        {
            self.lists[i].id = i + 1;
            i += 1;
        }
        self.num_lists = n - 1;
        if self.active_list >= id && self.active_list > 1 {
            self.active_list = self.active_list - 1;
        }
        proof {
            assert(self@.lists =~= renumbered(kept));
            if old(self)@.wf() {
                lemma_list_removed_wf(old(self)@, id as nat);
                lemma_list_removed_renumbers(old(self)@, id as nat);
            }
        }
    }

    /// Removes the active list. An empty board stays as it is.
    pub fn delete_list(&mut self)
        ensures
            final(self)@ == old(self)@.list_deleted(),
            old(self)@.wf() ==> final(self)@.wf(),
    {
        if self.has_active() {
            self.remove_list(self.active_list);
        }
    }

    /// Makes the list of identity `id` the active one and selects its first
    /// task. Where no list has that identity nothing changes.
    pub fn focus_list(&mut self, id: usize)
        ensures
            final(self)@ == old(self)@.focused(id as nat),
            old(self)@.wf() ==> final(self)@.wf(),
    {
        if 1 <= id && id <= self.lists.len() {
            self.active_list = id;
            self.lists[id - 1].selected = 0;
            proof {
                assert(self@.lists =~= old(self)@.focused(id as nat).lists);
            }
        }
        proof {
            if old(self)@.wf() {
                lemma_operations_keep_wf(old(self)@);
            }
        }
    }

    /// Makes the list before the active one the active list, where there is
    /// one, and selects the first task of the list that is then active.
    pub fn focus_previous_list(&mut self)
        ensures
            final(self)@ == old(self)@.focused_left(),
            old(self)@.wf() ==> final(self)@.wf(),
    {
        let id = if self.active_list > 1 { self.active_list - 1 } else { self.active_list };
        self.focus_list(id);
    }

    /// Makes the list behind the active one the active list, where there is
    /// one, and selects the first task of the list that is then active.
    pub fn focus_next_list(&mut self)
        ensures
            final(self)@ == old(self)@.focused_right(),
            old(self)@.wf() ==> final(self)@.wf(),
    {
        let id = if self.active_list < self.num_lists {
            self.active_list + 1
        } else {
            self.active_list
        };
        self.focus_list(id);
    }

    /// Appends a task to the active list, with both fields open for editing
    /// and the placeholder day as its due day, and selects it. An empty board
    /// stays as it is.
    pub fn add_task(&mut self)
        ensures
            final(self)@ == old(self)@.task_added(),
            old(self)@.wf() ==> final(self)@.wf(),
    {
        if self.has_active() {
            let i = self.active_list - 1;
            self.lists[i].tasks.push(Task::new());
            self.lists[i].selected = self.lists[i].tasks.len() - 1;
            proof {
                let list = old(self).lists[i as int];
                assert(old(self)@.lists[i as int] == list@);
                assert(self.lists[i as int]@.tasks =~= list@.task_added().tasks);
                assert(self@.lists =~= old(self)@.task_added().lists);
            }
        }
        proof {
            if old(self)@.wf() {
                lemma_operations_keep_wf(old(self)@);
            }
        }
    }

    /// Removes the selected task of the active list and brings the selection
    /// back into range. A list without tasks stays as it is.
    pub fn delete_task(&mut self)
        ensures
            final(self)@ == old(self)@.task_deleted(),
            old(self)@.wf() ==> final(self)@.wf(),
    {
        if self.has_active() {
            let i = self.active_list - 1;
            let selected = self.lists[i].selected;
            proof {
                assert(old(self)@.lists[i as int] == old(self).lists[i as int]@);
            }
            if selected < self.lists[i].tasks.len() {
                let _ = self.lists[i].tasks.remove(selected);
                let len = self.lists[i].tasks.len();
                if selected >= len {
                    self.lists[i].selected = if len == 0 { 0 } else { len - 1 };
                }
                proof {
                    let list = old(self).lists[i as int];
                    assert(self.lists[i as int]@.tasks =~= list@.task_deleted().tasks);
                    assert(self@.lists =~= old(self)@.task_deleted().lists);
                }
            } else {
                assert(self@.lists =~= old(self)@.task_deleted().lists);
            }
        }
        proof {
            if old(self)@.wf() {
                lemma_operations_keep_wf(old(self)@);
            }
        }
    }

    /// Moves the selection of the active list one task down, unless it is at
    /// the last task.
    pub fn select_next(&mut self)
        ensures
            final(self)@ == old(self)@.selection_down(),
            old(self)@.wf() ==> final(self)@.wf(),
    {
        if self.has_active() {
            let i = self.active_list - 1;
            proof {
                assert(old(self)@.lists[i as int] == old(self).lists[i as int]@);
            }
            let selected = self.lists[i].selected;
            if selected < self.lists[i].tasks.len() && selected + 1 < self.lists[i].tasks.len() {
                self.lists[i].selected = selected + 1;
            }
            proof {
                assert(self@.lists =~= old(self)@.selection_down().lists);
            }
        }
        proof {
            if old(self)@.wf() {
                lemma_operations_keep_wf(old(self)@);
            }
        }
    }

    /// Moves the selection of the active list one task up, unless it is at the
    /// first task.
    pub fn select_previous(&mut self)
        ensures
            final(self)@ == old(self)@.selection_up(),
            old(self)@.wf() ==> final(self)@.wf(),
    {
        if self.has_active() {
            let i = self.active_list - 1;
            proof {
                assert(old(self)@.lists[i as int] == old(self).lists[i as int]@);
            }
            if self.lists[i].selected > 0 {
                self.lists[i].selected = self.lists[i].selected - 1;
            }
            proof {
                assert(self@.lists =~= old(self)@.selection_up().lists);
            }
        }
        proof {
            if old(self)@.wf() {
                lemma_operations_keep_wf(old(self)@);
            }
        }
    }

    /// Carries out one edit on the title of the last list, which is the list
    /// that is being named. An empty board stays as it is.
    pub fn edit_list_title(&mut self, edit: Edit)
        ensures
            final(self)@ == old(self)@.list_title_edited(edit),
            old(self)@.wf() ==> final(self)@.wf(),
    {
        let n = self.lists.len();
        if n > 0 {
            apply(&mut self.lists[n - 1].title, edit);
            proof {
                assert(self@.lists =~= old(self)@.list_title_edited(edit).lists);
            }
        }
        proof {
            if old(self)@.wf() {
                lemma_operations_keep_wf(old(self)@);
            }
        }
    }

    /// Gives up the naming of a list: removes the last list and lowers the
    /// active identity by one, but not below 1 while lists remain. An empty
    /// board stays as it is.
    pub fn abort_list(&mut self)
        ensures
            final(self)@ == old(self)@.naming_aborted(),
            old(self)@.wf() ==> final(self)@.wf(),
    {
        let n = self.lists.len();
        if n > 0 {
            let _ = self.lists.pop();
            self.num_lists = n - 1;
            self.active_list = if self.active_list >= 2 {
                self.active_list - 1
            } else if n == 1 {
                0
            } else {
                1
            };
            proof {
                assert(self@.lists =~= old(self)@.naming_aborted().lists);
            }
        }
        proof {
            if old(self)@.wf() {
                lemma_operations_keep_wf(old(self)@);
            }
        }
    }

    /// Carries out one edit on the title of the task that is being entered:
    /// the last task of the active list. Without such a task nothing changes.
    pub fn edit_entry_title(&mut self, edit: Edit)
        ensures
            final(self)@ == old(self)@.entry_title_edited(edit),
            old(self)@.wf() ==> final(self)@.wf(),
    {
        if self.has_entry() {
            let i = self.active_list - 1;
            let j = self.lists[i].tasks.len() - 1;
            apply(&mut self.lists[i].tasks[j].title, edit);
            proof {
                let list = old(self).lists[i as int];
                assert(old(self)@.lists[i as int] == list@);
                let after = old(self)@.entry_title_edited(edit);
                assert(self.lists[i as int]@.tasks =~= after.active().tasks);
                assert(self@.lists =~= old(self)@.entry_title_edited(edit).lists);
            }
        }
        proof {
            if old(self)@.wf() {
                lemma_operations_keep_wf(old(self)@);
            }
        }
    }

    /// Carries out one edit on the date field of the task that is being
    /// entered. Without such a task nothing changes.
    pub fn edit_entry_date(&mut self, edit: Edit)
        ensures
            final(self)@ == old(self)@.entry_date_edited(edit),
            old(self)@.wf() ==> final(self)@.wf(),
    {
        if self.has_entry() {
            let i = self.active_list - 1;
            let j = self.lists[i].tasks.len() - 1;
            apply(&mut self.lists[i].tasks[j].date_string, edit);
            proof {
                let list = old(self).lists[i as int];
                assert(old(self)@.lists[i as int] == list@);
                let after = old(self)@.entry_date_edited(edit);
                assert(self.lists[i as int]@.tasks =~= after.active().tasks);
                assert(self@.lists =~= old(self)@.entry_date_edited(edit).lists);
            }
        }
        proof {
            if old(self)@.wf() {
                lemma_operations_keep_wf(old(self)@);
            }
        }
    }

    /// Ends the typing of the title of the task that is being entered and
    /// opens its date field for editing with no text.
    pub fn open_entry_date(&mut self)
        ensures
            final(self)@ == old(self)@.entry_date_opened(),
            old(self)@.wf() ==> final(self)@.wf(),
    {
        if self.has_entry() {
            let i = self.active_list - 1;
            let j = self.lists[i].tasks.len() - 1;
            commit(&mut self.lists[i].tasks[j].title);
            self.lists[i].tasks[j].date_string = start_edit();
            proof {
                let list = old(self).lists[i as int];
                assert(old(self)@.lists[i as int] == list@);
                let after = old(self)@.entry_date_opened();
                assert(self.lists[i as int]@.tasks =~= after.active().tasks);
                assert(self@.lists =~= old(self)@.entry_date_opened().lists);
            }
        }
        proof {
            if old(self)@.wf() {
                lemma_operations_keep_wf(old(self)@);
            }
        }
    }

    /// Takes in what the typed date of the task that is being entered was
    /// read as. A day becomes the due day of the task. Without a day the task
    /// keeps its due day, and the diagnostic message reports the text that
    /// could not be read. Without such a task nothing changes.
    pub fn store_entry_date(&mut self, parsed: Option<i32>)
        ensures
            final(self)@ == old(self)@.entry_date_stored(parsed),
            old(self)@.wf() ==> final(self)@.wf(),
    {
        if self.has_entry() {
            let i = self.active_list - 1;
            let j = self.lists[i].tasks.len() - 1;
            proof {
                assert(old(self)@.lists[i as int] == old(self).lists[i as int]@);
            }
            match parsed {
                Some(day) => {
                    self.lists[i].tasks[j].due = day;
                    proof {
                        assert(self.lists[i as int]@.tasks =~= old(self)@.entry_date_stored(
                            parsed,
                        ).active().tasks);
                        assert(self@.lists =~= old(self)@.entry_date_stored(parsed).lists);
                    }
                },
                None => {
                    let message = String::from_str("Failed to parse date: ").concat(
                        self.lists[i].tasks[j].date_string.as_str(),
                    );
                    self.debug_str = message;
                },
            }
        }
        proof {
            if old(self)@.wf() {
                lemma_operations_keep_wf(old(self)@);
            }
        }
    }

    /// Gives up the entry of a task: removes the last task of the active list
    /// and brings the selection back into range.
    pub fn abort_entry(&mut self)
        ensures
            final(self)@ == old(self)@.entry_aborted(),
            old(self)@.wf() ==> final(self)@.wf(),
    {
        if self.has_active() {
            let i = self.active_list - 1;
            proof {
                assert(old(self)@.lists[i as int] == old(self).lists[i as int]@);
            }
            if self.lists[i].tasks.len() > 0 {
                let _ = self.lists[i].tasks.pop();
                let len = self.lists[i].tasks.len();
                if self.lists[i].selected >= len {
                    self.lists[i].selected = if len == 0 { 0 } else { len - 1 };
                }
                proof {
                    let list = old(self).lists[i as int];
                    assert(self.lists[i as int]@.tasks =~= list@.last_task_dropped().tasks);
                }
            }
            proof {
                assert(self@.lists =~= old(self)@.entry_aborted().lists);
            }
        }
        proof {
            if old(self)@.wf() {
                lemma_operations_keep_wf(old(self)@);
            }
        }
    }
}

} // verus!
