//! The pass that keeps the date labels and the order of the tasks up to date.
//!
//! After every key event each task that is due today, tomorrow or earlier
//! gets the label that says so, and the tasks of each list are put in the
//! order of their due days. Tasks that are due on the same day keep the order
//! they had, so the pass gives the same board when it runs again.

use vstd::prelude::*;
use crate::board::{list_views, task_views, Task, TaskBoard, TaskList};
use crate::model::{TaskBoardView, TaskListView, TaskView};

verus! {

/// The label of a task that is due `days` days from today, where it had the
/// label `shown` before. A label that says nothing about today, tomorrow or
/// the past stays.
pub open spec fn label_for(days: int, shown: Seq<char>) -> Seq<char> {
    if days == 0 {
        "Today"@
    } else if days == 1 {
        "Tomorrow"@
    } else if days >= 2 {
        shown
    } else {
        "Overdue"@
    }
}

/// The task with the label that fits its due day.
pub open spec fn relabeled(task: TaskView, today: int) -> TaskView {
    TaskView { date_string: label_for(task.due - today, task.date_string), ..task }
}

/// The tasks, every one with the label that fits its due day.
pub open spec fn all_relabeled(tasks: Seq<TaskView>, today: int) -> Seq<TaskView> {
    tasks.map_values(|t: TaskView| relabeled(t, today))
}

/// No task is due before a task that stands before it.
pub open spec fn is_ascending(tasks: Seq<TaskView>) -> bool {
    forall|i: int, j: int| 0 <= i <= j < tasks.len() ==> tasks[i].due <= tasks[j].due
}

/// The tasks with `task` among them: it stands directly behind the last task
/// that is due on its day or before.
pub open spec fn placed(tasks: Seq<TaskView>, task: TaskView) -> Seq<TaskView>
    decreases tasks.len(),
{
    if tasks.len() == 0 {
        seq![task]
    } else if tasks.last().due <= task.due {
        tasks.push(task)
    } else {
        placed(tasks.drop_last(), task).push(tasks.last())
    }
}

/// The tasks in the order of their due days, those of one day in the order
/// they had: every task, from the first to the last, is placed among those
/// before it.
pub open spec fn sorted_by_due(tasks: Seq<TaskView>) -> Seq<TaskView>
    decreases tasks.len(),
{
    if tasks.len() == 0 {
        tasks
    } else {
        placed(sorted_by_due(tasks.drop_last()), tasks.last())
    }
}

/// The list after the pass: labels first, then the order.
pub open spec fn list_normalized(list: TaskListView, today: int) -> TaskListView {
    TaskListView { tasks: sorted_by_due(all_relabeled(list.tasks, today)), ..list }
}

/// The board after the pass.
pub open spec fn board_normalized(board: TaskBoardView, today: int) -> TaskBoardView {
    TaskBoardView {
        lists: board.lists.map_values(|l: TaskListView| list_normalized(l, today)),
        ..board
    }
}

/// Placing a task makes the sequence one longer.
pub proof fn lemma_placed_len(tasks: Seq<TaskView>, task: TaskView)
    ensures
        placed(tasks, task).len() == tasks.len() + 1,
    decreases tasks.len(),
{
    if tasks.len() > 0 && tasks.last().due > task.due {
        lemma_placed_len(tasks.drop_last(), task);
    }
}

/// Sorting keeps the number of tasks.
pub proof fn lemma_sorted_len(tasks: Seq<TaskView>)
    ensures
        sorted_by_due(tasks).len() == tasks.len(),
    decreases tasks.len(),
{
    if tasks.len() > 0 {
        lemma_sorted_len(tasks.drop_last());
        lemma_placed_len(sorted_by_due(tasks.drop_last()), tasks.last());
    }
}

/// Where `at` is the place behind the last task that is due no later than
/// `task`, placing `task` is inserting it at `at`.
pub proof fn lemma_placed_at(tasks: Seq<TaskView>, task: TaskView, at: int)
    requires
        0 <= at <= tasks.len(),
        forall|j: int| at <= j < tasks.len() ==> tasks[j].due > task.due,
        at > 0 ==> tasks[at - 1].due <= task.due,
    ensures
        placed(tasks, task) == tasks.insert(at, task),
    decreases tasks.len(),
{
    if tasks.len() == 0 {
        assert(seq![task] =~= tasks.insert(at, task));
    } else if tasks.last().due <= task.due {
        assert(at == tasks.len());
        assert(tasks.push(task) =~= tasks.insert(at, task));
    } else {
        assert(at < tasks.len());
        lemma_placed_at(tasks.drop_last(), task, at);
        assert(tasks.drop_last().insert(at, task).push(tasks.last()) =~= tasks.insert(at, task));
    }
}

proof fn lemma_placed_bounded(tasks: Seq<TaskView>, task: TaskView, bound: int)
    requires
        forall|j: int| 0 <= j < tasks.len() ==> tasks[j].due <= bound,
        task.due <= bound,
    ensures
        forall|j: int| 0 <= j < placed(tasks, task).len() ==> placed(tasks, task)[j].due <= bound,
    decreases tasks.len(),
{
    let all = placed(tasks, task);
    lemma_placed_len(tasks, task);
    if tasks.len() > 0 && tasks.last().due > task.due {
        let front = tasks.drop_last();
        lemma_placed_bounded(front, task, bound);
        lemma_placed_len(front, task);
        assert forall|j: int| 0 <= j < all.len() implies all[j].due <= bound by {
            if j < all.len() - 1 {
                assert(all[j] == placed(front, task)[j]);
            } else {
                assert(all[j] == tasks.last());
            }
        }
    } else {
        assert forall|j: int| 0 <= j < all.len() implies all[j].due <= bound by {
            if j < tasks.len() {
                assert(all[j] == tasks[j]);
            }
        }
    }
}

/// Sorting brings no task to the end that is due later than every task was.
pub proof fn lemma_sorted_bounded(tasks: Seq<TaskView>, bound: int)
    requires
        forall|j: int| 0 <= j < tasks.len() ==> tasks[j].due <= bound,
    ensures
        forall|j: int| 0 <= j < sorted_by_due(tasks).len() ==> sorted_by_due(tasks)[j].due <= bound,
    decreases tasks.len(),
{
    if tasks.len() > 0 {
        lemma_sorted_bounded(tasks.drop_last(), bound);
        lemma_placed_bounded(sorted_by_due(tasks.drop_last()), tasks.last(), bound);
    }
}

/// A last task that is due no earlier than every other task, and not before
/// the day after tomorrow, is the last task after the pass too, with the
/// label it had.
pub proof fn lemma_last_stays_last(list: TaskListView, today: int)
    requires
        list.tasks.len() > 0,
        list.tasks.last().due - today >= 2,
        forall|j: int| 0 <= j < list.tasks.len() ==> list.tasks[j].due <= list.tasks.last().due,
    ensures
        list_normalized(list, today).tasks.len() == list.tasks.len(),
        list_normalized(list, today).tasks.last() == list.tasks.last(),
{
    let marked = all_relabeled(list.tasks, today);
    let front = marked.drop_last();
    lemma_sorted_len(marked);
    lemma_sorted_len(front);
    assert(marked.last() == list.tasks.last());
    assert forall|j: int| 0 <= j < front.len() implies front[j].due <= marked.last().due by {
        assert(front[j].due == list.tasks[j].due);
    }
    lemma_sorted_bounded(front, marked.last().due);
}

/// Placing a task among tasks that are in the order of their due days keeps
/// them in that order.
pub proof fn lemma_placed_ascending(tasks: Seq<TaskView>, task: TaskView)
    requires
        is_ascending(tasks),
    ensures
        is_ascending(placed(tasks, task)),
    decreases tasks.len(),
{
    if tasks.len() > 0 && tasks.last().due > task.due {
        let front = tasks.drop_last();
        lemma_placed_ascending(front, task);
        lemma_placed_bounded(front, task, tasks.last().due);
    }
}

/// The sorted tasks are in the order of their due days.
pub proof fn lemma_sorted_ascending(tasks: Seq<TaskView>)
    ensures
        is_ascending(sorted_by_due(tasks)),
    decreases tasks.len(),
{
    if tasks.len() > 0 {
        lemma_sorted_ascending(tasks.drop_last());
        lemma_placed_ascending(sorted_by_due(tasks.drop_last()), tasks.last());
    }
}

/// Sorting loses no task and makes none up: every task is there as often as
/// before.
pub proof fn lemma_sorted_permutes(tasks: Seq<TaskView>)
    ensures
        sorted_by_due(tasks).to_multiset() == tasks.to_multiset(),
    decreases tasks.len(),
{
    broadcast use vstd::seq_lib::group_to_multiset_ensures;

    if tasks.len() > 0 {
        let front = tasks.drop_last();
        lemma_sorted_permutes(front);
        lemma_placed_permutes(sorted_by_due(front), tasks.last());
        assert(front.push(tasks.last()) =~= tasks);
    }
}

proof fn lemma_placed_permutes(tasks: Seq<TaskView>, task: TaskView)
    ensures
        placed(tasks, task).to_multiset() == tasks.to_multiset().insert(task),
    decreases tasks.len(),
{
    broadcast use vstd::seq_lib::group_to_multiset_ensures;

    if tasks.len() == 0 {
        assert(seq![task] =~= tasks.push(task));
    } else if tasks.last().due > task.due {
        let front = tasks.drop_last();
        lemma_placed_permutes(front, task);
        assert(front.push(tasks.last()) =~= tasks);
        assert(placed(tasks, task).to_multiset() =~= tasks.to_multiset().insert(task));
    }
}

/// The tasks that are due on the day `day`, in the order they stand in.
pub open spec fn due_on(tasks: Seq<TaskView>, day: int) -> Seq<TaskView> {
    tasks.filter(|t: TaskView| t.due == day)
}

proof fn lemma_placed_due_on(tasks: Seq<TaskView>, task: TaskView, day: int)
    ensures
        task.due == day ==> due_on(placed(tasks, task), day) == due_on(tasks, day).push(task),
        task.due != day ==> due_on(placed(tasks, task), day) == due_on(tasks, day),
    decreases tasks.len(),
{
    reveal(Seq::filter);
    let on_day = |t: TaskView| t.due == day;
    if tasks.len() == 0 {
        assert(seq![task].drop_last() =~= tasks);
    } else if tasks.last().due <= task.due {
        assert(tasks.push(task).drop_last() =~= tasks);
    } else {
        let front = tasks.drop_last();
        lemma_placed_due_on(front, task, day);
        assert(placed(front, task).push(tasks.last()).drop_last() =~= placed(front, task));
    }
}

/// Sorting is stable: the tasks that are due on one day stand in the order
/// they had.
pub proof fn lemma_sorted_stable(tasks: Seq<TaskView>, day: int)
    ensures
        due_on(sorted_by_due(tasks), day) == due_on(tasks, day),
    decreases tasks.len(),
{
    reveal(Seq::filter);
    if tasks.len() > 0 {
        lemma_sorted_stable(tasks.drop_last(), day);
        lemma_placed_due_on(sorted_by_due(tasks.drop_last()), tasks.last(), day);
    }
}

/// Tasks that are in the order of their due days stay as they are when they
/// are sorted.
pub proof fn lemma_sorted_fixed(tasks: Seq<TaskView>)
    requires
        is_ascending(tasks),
    ensures
        sorted_by_due(tasks) == tasks,
    decreases tasks.len(),
{
    if tasks.len() > 0 {
        let front = tasks.drop_last();
        lemma_sorted_fixed(front);
        if front.len() > 0 {
            assert(front.last() == tasks[tasks.len() - 2]);
        }
        assert(front.push(tasks.last()) =~= tasks);
    }
}

proof fn lemma_placed_relabeled(tasks: Seq<TaskView>, task: TaskView, today: int)
    ensures
        placed(all_relabeled(tasks, today), relabeled(task, today)) == all_relabeled(
            placed(tasks, task),
            today,
        ),
    decreases tasks.len(),
{
    let marked = all_relabeled(tasks, today);
    if tasks.len() == 0 {
        assert(seq![relabeled(task, today)] =~= all_relabeled(seq![task], today));
    } else if tasks.last().due <= task.due {
        assert(marked.push(relabeled(task, today)) =~= all_relabeled(tasks.push(task), today));
    } else {
        let front = tasks.drop_last();
        lemma_placed_relabeled(front, task, today);
        assert(marked.drop_last() =~= all_relabeled(front, today));
        assert(all_relabeled(placed(front, task), today).push(marked.last()) =~= all_relabeled(
            placed(front, task).push(tasks.last()),
            today,
        ));
    }
}

/// Labels and order do not get in each other's way: it is the same to label
/// the tasks and sort them, and to sort them and label them.
pub proof fn lemma_sorted_relabeled(tasks: Seq<TaskView>, today: int)
    ensures
        sorted_by_due(all_relabeled(tasks, today)) == all_relabeled(sorted_by_due(tasks), today),
    decreases tasks.len(),
{
    if tasks.len() == 0 {
        assert(all_relabeled(tasks, today) =~= tasks);
    } else {
        let front = tasks.drop_last();
        lemma_sorted_relabeled(front, today);
        assert(all_relabeled(tasks, today).drop_last() =~= all_relabeled(front, today));
        lemma_placed_relabeled(sorted_by_due(front), tasks.last(), today);
    }
}

/// The pass is idempotent on a list: run twice on the same day, it gives the
/// labels and the order that it gave the first time.
pub proof fn lemma_list_normalized_twice(list: TaskListView, today: int)
    ensures
        list_normalized(list_normalized(list, today), today) == list_normalized(list, today),
{
    let marked = all_relabeled(list.tasks, today);
    let once = sorted_by_due(marked);
    lemma_sorted_relabeled(marked, today);
    assert(all_relabeled(marked, today) =~= marked);
    lemma_sorted_ascending(marked);
    lemma_sorted_fixed(once);
}

/// The pass is idempotent: run twice on the same day with no change of the
/// board in between, it gives the labels and the order that it gave the first
/// time.
pub proof fn lemma_board_normalized_twice(board: TaskBoardView, today: int)
    ensures
        board_normalized(board_normalized(board, today), today) == board_normalized(board, today),
{
    let once = board_normalized(board, today);
    let twice = board_normalized(once, today);
    assert forall|k: int| 0 <= k < board.lists.len() implies twice.lists[k] == once.lists[k] by {
        lemma_list_normalized_twice(board.lists[k], today);
    }
    assert(twice.lists =~= once.lists);
}

/// The pass keeps a well-formed board well formed: it changes neither the
/// number of the tasks of a list nor its selection.
pub proof fn lemma_board_normalized_wf(board: TaskBoardView, today: int)
    requires
        board.wf(),
    ensures
        board_normalized(board, today).wf(),
{
    let after = board_normalized(board, today);
    assert forall|k: int| 0 <= k < after.lists.len() implies (#[trigger] after.lists[k]).id == k + 1
        && after.lists[k].wf() by {
        assert(board.lists[k].wf());
        lemma_sorted_len(all_relabeled(board.lists[k].tasks, today));
    }
}

impl Task {
    /// Gives the task the label that fits its due day: "Today", "Tomorrow" or
    /// "Overdue". A task that is due in two days or later keeps the label it
    /// has.
    pub fn relabel(&mut self, today: i32)
        ensures
            final(self)@ == relabeled(old(self)@, today as int),
    {
        let days: i64 = self.due as i64 - today as i64;
        if days == 0 {
            self.date_string = String::from_str("Today");
        } else if days == 1 {
            self.date_string = String::from_str("Tomorrow");
        } else if days < 0 {
            self.date_string = String::from_str("Overdue");
        }
    }
}

/// Puts the tasks in the order of their due days. Tasks that are due on the
/// same day keep the order they had.
pub fn sort_tasks(tasks: &mut Vec<Task>)
    ensures
        task_views(final(tasks)@) == sorted_by_due(task_views(old(tasks)@)),
        final(tasks)@.len() == old(tasks)@.len(),
        is_ascending(task_views(final(tasks)@)),
        task_views(final(tasks)@).to_multiset() == task_views(old(tasks)@).to_multiset(),
        forall|day: int|
            due_on(task_views(final(tasks)@), day) == #[trigger] due_on(
                task_views(old(tasks)@),
                day,
            ),
{
    let n = tasks.len();
    let mut k: usize = 0;
    while k < n
        invariant
            k <= n,
            tasks.len() == n,
            old(tasks)@.len() == n,
            task_views(tasks@.subrange(0, k as int)) == sorted_by_due(
                task_views(old(tasks)@.subrange(0, k as int)),
            ),
            tasks@.subrange(k as int, n as int) == old(tasks)@.subrange(k as int, n as int),
        decreases n - k,
    {
        let ghost before = tasks@;
        let ghost front = tasks@.subrange(0, k as int);
        assert(tasks@[k as int] == tasks@.subrange(k as int, n as int)[0]);
        let task = tasks.remove(k);
        let mut at = k;
        while at > 0 && tasks[at - 1].due > task.due
            invariant
                at <= k,
                k < n,
                tasks.len() == n - 1,
                before.len() == n,
                tasks@ == before.remove(k as int),
                forall|j: int| at <= j < k ==> tasks@[j].due > task.due,
            decreases at,
        {
            at -= 1;
        }
        let ghost rest = tasks@;
        tasks.insert(at, task);
        proof {
            let given = old(tasks)@;
            assert(task == given[k as int]);
            assert forall|j: int| at <= j < k implies task_views(front)[j].due > task@.due by {
                assert(rest[j] == front[j]);
            }
            if at > 0 {
                assert(rest[at - 1] == front[at - 1]);
            }
            assert(tasks@.subrange(0, k + 1) =~= front.insert(at as int, task));
            assert(task_views(front.insert(at as int, task)) =~= task_views(front).insert(
                at as int,
                task@,
            ));
            lemma_placed_at(task_views(front), task@, at as int);
            assert(task_views(given.subrange(0, k + 1)).drop_last() =~= task_views(
                given.subrange(0, k as int),
            ));
            let tail = tasks@.subrange(k + 1, n as int);
            assert forall|j: int| 0 <= j < tail.len() implies #[trigger] tail[j] == given[k + 1
                + j] by {
                assert(before.subrange(k as int, n as int)[j + 1] == given.subrange(
                    k as int,
                    n as int,
                )[j + 1]);
            }
            assert(tail =~= given.subrange(k + 1, n as int));
        }
        k += 1;
    }
    proof {
        assert(tasks@.subrange(0, n as int) =~= tasks@);
        assert(old(tasks)@.subrange(0, n as int) =~= old(tasks)@);
        let given = task_views(old(tasks)@);
        lemma_sorted_ascending(given);
        lemma_sorted_permutes(given);
        assert forall|day: int|
            due_on(task_views(tasks@), day) == #[trigger] due_on(given, day) by {
            lemma_sorted_stable(given, day);
        }
    }
}

impl TaskList {
    /// Runs the pass on the list: every task gets the label that fits its due
    /// day, and the tasks are put in the order of their due days.
    pub fn normalize(&mut self, today: i32)
        ensures
            final(self)@ == list_normalized(old(self)@, today as int),
            final(self)@.tasks.len() == old(self)@.tasks.len(),
            is_ascending(final(self)@.tasks),
    {
        let n = self.tasks.len();
        let mut j: usize = 0;
        while j < n
            invariant
                j <= n,
                self.tasks.len() == n,
                old(self).tasks.len() == n,
                self.id == old(self).id,
                self.title == old(self).title,
                self.selected == old(self).selected,
                forall|k: int| 0 <= k < j ==> (#[trigger] self.tasks[k])@ == relabeled(
                    old(self).tasks[k]@,
                    today as int,
                ),
                forall|k: int| j <= k < n ==> self.tasks[k] == old(self).tasks[k],
            decreases n - j,
        {
            self.tasks[j].relabel(today);
            j += 1;
        }
        assert(task_views(self.tasks@) =~= all_relabeled(
            task_views(old(self).tasks@),
            today as int,
        ));
        sort_tasks(&mut self.tasks);
        assert(task_views(self.tasks@).len() == self.tasks@.len());
    }
}

/// Runs the pass on every list of the board, with `today` as the number of
/// today's day: every task gets the label that fits its due day, and the
/// tasks of every list are put in the order of their due days.
pub fn update_dates(taskboard: &mut TaskBoard, today: i32)
    ensures
        final(taskboard)@ == board_normalized(old(taskboard)@, today as int),
        final(taskboard)@.lists.len() == old(taskboard)@.lists.len(),
        forall|k: int|
            0 <= k < final(taskboard)@.lists.len() ==> (#[trigger] final(taskboard)@.lists[k])
                .tasks.len() == old(taskboard)@.lists[k].tasks.len() && is_ascending(
                final(taskboard)@.lists[k].tasks,
            ),
        old(taskboard)@.wf() ==> final(taskboard)@.wf(),
{
    let n = taskboard.lists.len();
    let mut i: usize = 0;
    while i < n
        invariant
            i <= n,
            taskboard.lists.len() == n,
            old(taskboard).lists.len() == n,
            taskboard.num_lists == old(taskboard).num_lists,
            taskboard.active_list == old(taskboard).active_list,
            taskboard.debug_str == old(taskboard).debug_str,
            forall|k: int| 0 <= k < i ==> (#[trigger] taskboard.lists[k])@ == list_normalized(
                old(taskboard).lists[k]@,
                today as int,
            ),
            forall|k: int| i <= k < n ==> taskboard.lists[k] == old(taskboard).lists[k],
        decreases n - i,
    {
        taskboard.lists[i].normalize(today);
        i += 1;
    }
    proof {
        assert(taskboard@.lists =~= board_normalized(old(taskboard)@, today as int).lists);
        let after = taskboard@;
        let before = old(taskboard)@;
        assert forall|k: int| 0 <= k < after.lists.len() implies (#[trigger] after.lists[k])
            .tasks.len() == before.lists[k].tasks.len() && is_ascending(
            after.lists[k].tasks,
        ) by {
            let marked = all_relabeled(old(taskboard)@.lists[k].tasks, today as int);
            lemma_sorted_len(marked);
            lemma_sorted_ascending(marked);
        }
        if old(taskboard)@.wf() {
            lemma_board_normalized_wf(old(taskboard)@, today as int);
        }
    }
}

} // verus!
