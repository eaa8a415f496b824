//! The input modes and what every key does in each of them.

use vstd::prelude::*;
use crate::board::TaskBoard;
use crate::date::{due_of_text, parse_due};
use crate::model::{lemma_operations_keep_wf, parse_failure, TaskBoardView};
use crate::normalize::{board_normalized, lemma_last_stays_last};
use crate::text::{
    committed, is_open, lemma_backspace_shortens, lemma_insert_appends, Edit,
};

verus! {

/// The input mode: what the keys currently mean.
#[derive(Clone, Copy, Debug, PartialEq, Eq)]
pub enum MenuItem {
    /// Browsing the board. This is the first mode, and the only one in which
    /// the program can be left.
    Home,
    /// Typing the title of a list that was just created.
    AddingList,
    /// Typing the title of a task that was just created.
    AddingTaskTitle,
    /// Typing the due date of a task that was just created.
    AddingTaskDate,
}

/// Which key an event is about.
#[derive(Clone, Copy, Debug, PartialEq, Eq)]
pub enum KeyCode {
    /// A key that stands for a character.
    Char(char),
    /// The enter key.
    Enter,
    /// The backspace key.
    Backspace,
    /// The escape key.
    Esc,
    /// Any other key.
    Other,
}

/// A key event.
#[derive(Clone, Copy, Debug, PartialEq, Eq)]
pub struct KeyEvent {
    /// The key.
    pub code: KeyCode,
    /// Whether the key went down; `false` where the event reports that it is
    /// held or that it was let go.
    pub pressed: bool,
}

/// The place of a mode in the order in which the modes are declared.
pub open spec fn menu_index(input: MenuItem) -> usize {
    match input {
        MenuItem::Home => 0,
        MenuItem::AddingList => 1,
        MenuItem::AddingTaskTitle => 2,
        MenuItem::AddingTaskDate => 3,
    }
}

impl From<MenuItem> for usize {
    fn from(input: MenuItem) -> (index: usize) {
        match input {
            MenuItem::Home => 0,
            MenuItem::AddingList => 1,
            MenuItem::AddingTaskTitle => 2,
            MenuItem::AddingTaskDate => 3,
        }
    }
}

impl vstd::std_specs::convert::FromSpecImpl<MenuItem> for usize {
    open spec fn obeys_from_spec() -> bool {
        true
    }

    open spec fn from_spec(input: MenuItem) -> usize {
        menu_index(input)
    }
}

/// The list identity that a digit key stands for.
pub open spec fn digit_of(c: char) -> Option<nat> {
    if '0' <= c <= '9' {
        Some((c as nat - '0' as nat) as nat)
    } else {
        None
    }
}

/// Whether the event ends the program: only the key `q` does, and only while
/// browsing.
pub open spec fn quits(menu: MenuItem, key: KeyEvent) -> bool {
    menu == MenuItem::Home && key.code == KeyCode::Char('q')
}

/// The mode and the board after a character key while browsing.
///
/// `n` creates a list and starts the typing of its title. `a` adds a task to
/// the active list and starts the typing of its title. `d` deletes the
/// selected task and `D` the active list. `j` and `k` move the selection down
/// and up, `h` and `l` make the list to the left and to the right the active
/// one, and a digit makes the list of that identity the active one, where
/// there is one. Every other character leaves everything as it is.
pub open spec fn after_command(board: TaskBoardView, c: char) -> (MenuItem, TaskBoardView) {
    if c == 'n' {
        (MenuItem::AddingList, board.list_created())
    } else if c == 'a' {
        if board.has_active() {
            (MenuItem::AddingTaskTitle, board.task_added())
        } else {
            (MenuItem::Home, board)
        }
    } else if c == 'd' {
        (MenuItem::Home, board.task_deleted())
    } else if c == 'D' {
        (MenuItem::Home, board.list_deleted())
    } else if c == 'j' {
        (MenuItem::Home, board.selection_down())
    } else if c == 'k' {
        (MenuItem::Home, board.selection_up())
    } else if c == 'h' {
        (MenuItem::Home, board.focused_left())
    } else if c == 'l' {
        (MenuItem::Home, board.focused_right())
    } else {
        match digit_of(c) {
            Some(id) => (MenuItem::Home, board.focused(id)),
            None => (MenuItem::Home, board),
        }
    }
}

/// The mode and the board after a key while the title of a new list is typed.
/// Enter keeps the title, escape removes the list.
pub open spec fn after_list_key(board: TaskBoardView, key: KeyEvent) -> (MenuItem, TaskBoardView) {
    match key.code {
        KeyCode::Char(c) => (MenuItem::AddingList, board.list_title_edited(Edit::Insert(c))),
        KeyCode::Backspace => (MenuItem::AddingList, board.list_title_edited(Edit::Backspace)),
        KeyCode::Enter => (MenuItem::Home, board.list_title_edited(Edit::Commit)),
        KeyCode::Esc => (MenuItem::Home, board.naming_aborted()),
        KeyCode::Other => (MenuItem::AddingList, board),
    }
}

/// The mode and the board after a key while the title of a new task is typed.
/// Enter keeps the title and goes on to the date, escape removes the task.
/// Enter counts only when the key goes down, and leads back to browsing where
/// there is no task to work on.
pub open spec fn after_title_key(board: TaskBoardView, key: KeyEvent) -> (MenuItem, TaskBoardView) {
    match key.code {
        KeyCode::Char(c) => (MenuItem::AddingTaskTitle, board.entry_title_edited(Edit::Insert(c))),
        KeyCode::Backspace => (
            MenuItem::AddingTaskTitle,
            board.entry_title_edited(Edit::Backspace),
        ),
        KeyCode::Enter => if !key.pressed {
            (MenuItem::AddingTaskTitle, board)
        } else if board.has_entry() {
            (MenuItem::AddingTaskDate, board.entry_date_opened())
        } else {
            (MenuItem::Home, board)
        },
        KeyCode::Esc => (MenuItem::Home, board.entry_aborted()),
        KeyCode::Other => (MenuItem::AddingTaskTitle, board),
    }
}

/// The board after enter ended the typing of a date: the date field holds the
/// text that was typed, and that text was read as a date.
pub open spec fn date_entered(board: TaskBoardView) -> TaskBoardView {
    if board.has_entry() {
        board.entry_date_edited(Edit::Commit).entry_date_stored(
            due_of_text(committed(board.entry().date_string)),
        )
    } else {
        board
    }
}

/// The mode and the board after a key while the date of a new task is typed.
/// Enter ends the entry, escape removes the task. Enter counts only when the
/// key goes down.
pub open spec fn after_date_key(board: TaskBoardView, key: KeyEvent) -> (MenuItem, TaskBoardView) {
    match key.code {
        KeyCode::Char(c) => (MenuItem::AddingTaskDate, board.entry_date_edited(Edit::Insert(c))),
        KeyCode::Backspace => (MenuItem::AddingTaskDate, board.entry_date_edited(Edit::Backspace)),
        KeyCode::Enter => if !key.pressed {
            (MenuItem::AddingTaskDate, board)
        } else {
            (MenuItem::Home, date_entered(board))
        },
        KeyCode::Esc => (MenuItem::Home, board.entry_aborted()),
        KeyCode::Other => (MenuItem::AddingTaskDate, board),
    }
}

/// The mode and the board after one key event.
pub open spec fn next_state(menu: MenuItem, board: TaskBoardView, key: KeyEvent) -> (
    MenuItem,
    TaskBoardView,
) {
    match menu {
        MenuItem::Home => match key.code {
            KeyCode::Char(c) => after_command(board, c),
            _ => (MenuItem::Home, board),
        },
        MenuItem::AddingList => after_list_key(board, key),
        MenuItem::AddingTaskTitle => after_title_key(board, key),
        MenuItem::AddingTaskDate => after_date_key(board, key),
    }
}

/// The field that the keys type into: none while browsing, the title of the
/// last list while a list is named, and the title or the date field of the
/// last task of the active list while a task is entered. It is the field as
/// the board holds it, with the cursor mark at its end.
pub open spec fn edited_text(menu: MenuItem, board: TaskBoardView) -> Option<Seq<char>> {
    match menu {
        MenuItem::Home => None,
        MenuItem::AddingList => if board.lists.len() > 0 {
            Some(board.lists.last().title)
        } else {
            None
        },
        MenuItem::AddingTaskTitle => if board.has_entry() {
            Some(board.entry().title)
        } else {
            None
        },
        MenuItem::AddingTaskDate => if board.has_entry() {
            Some(board.entry().date_string)
        } else {
            None
        },
    }
}

/// The mode fits the board: while a list is named, the last list is the
/// active one and its title is open for editing; while a task is entered, the
/// active list holds it as its last and selected task, and the field that is
/// typed is open for editing.
pub open spec fn mode_fits(menu: MenuItem, board: TaskBoardView) -> bool {
    match menu {
        MenuItem::Home => true,
        MenuItem::AddingList => {
            &&& board.lists.len() > 0
            &&& board.active_list == board.lists.len()
            &&& is_open(board.lists.last().title)
        },
        MenuItem::AddingTaskTitle => {
            &&& board.has_entry()
            &&& board.active().selected == board.active().tasks.len() - 1
            &&& is_open(board.entry().title)
        },
        MenuItem::AddingTaskDate => {
            &&& board.has_entry()
            &&& board.active().selected == board.active().tasks.len() - 1
            &&& is_open(board.entry().date_string)
        },
    }
}

/// The mode and the board after the key events `keys`, taken in their order.
pub open spec fn run(menu: MenuItem, board: TaskBoardView, keys: Seq<KeyEvent>) -> (
    MenuItem,
    TaskBoardView,
)
    decreases keys.len(),
{
    if keys.len() == 0 {
        (menu, board)
    } else {
        let before = run(menu, board, keys.drop_last());
        next_state(before.0, before.1, keys.last())
    }
}

/// A key that types: a character, backspace, or a key without a meaning.
pub open spec fn is_typing(key: KeyEvent) -> bool {
    key.code is Char || key.code is Backspace || key.code is Other
}

/// One key event on a well-formed board gives a well-formed board, in every
/// mode: the identities stay 1, 2, 3, ..., every selection stays in range, and
/// the active identity stays that of a list while there are lists.
pub proof fn lemma_next_state_wf(menu: MenuItem, board: TaskBoardView, key: KeyEvent)
    requires
        board.wf(),
    ensures
        next_state(menu, board, key).1.wf(),
{
    lemma_operations_keep_wf(board);
    lemma_operations_keep_wf(board.entry_date_edited(Edit::Commit));
}

/// Any sequence of key events on a well-formed board gives a well-formed
/// board. In particular the selection of a list of `k` tasks is below `k`,
/// and 0 where the list has no task, whatever keys came before.
pub proof fn lemma_run_wf(menu: MenuItem, board: TaskBoardView, keys: Seq<KeyEvent>)
    requires
        board.wf(),
    ensures
        run(menu, board, keys).1.wf(),
    decreases keys.len(),
{
    if keys.len() > 0 {
        lemma_run_wf(menu, board, keys.drop_last());
        let before = run(menu, board, keys.drop_last());
        lemma_next_state_wf(before.0, before.1, keys.last());
    }
}

/// A key event keeps the mode fitting the board: whatever is typed, the field
/// that the next key types into ends in the cursor mark.
pub proof fn lemma_next_state_fits(menu: MenuItem, board: TaskBoardView, key: KeyEvent)
    requires
        board.wf(),
        mode_fits(menu, board),
    ensures
        mode_fits(next_state(menu, board, key).0, next_state(menu, board, key).1),
{
    let after = next_state(menu, board, key);
    match menu {
        MenuItem::Home => {},
        MenuItem::AddingList => {
            let title = board.lists.last().title;
            match key.code {
                KeyCode::Char(c) => lemma_insert_appends(title, c),
                KeyCode::Backspace => lemma_backspace_shortens(title),
                _ => {},
            }
        },
        MenuItem::AddingTaskTitle => {
            let title = board.entry().title;
            match key.code {
                KeyCode::Char(c) => lemma_insert_appends(title, c),
                KeyCode::Backspace => lemma_backspace_shortens(title),
                _ => {},
            }
        },
        MenuItem::AddingTaskDate => {
            let date = board.entry().date_string;
            match key.code {
                KeyCode::Char(c) => lemma_insert_appends(date, c),
                KeyCode::Backspace => lemma_backspace_shortens(date),
                _ => {},
            }
        },
    }
}

/// From browsing, any sequence of key events leads to a mode that fits the
/// board.
pub proof fn lemma_run_fits(board: TaskBoardView, keys: Seq<KeyEvent>)
    requires
        board.wf(),
    ensures
        mode_fits(run(MenuItem::Home, board, keys).0, run(MenuItem::Home, board, keys).1),
    decreases keys.len(),
{
    if keys.len() > 0 {
        lemma_run_fits(board, keys.drop_last());
        lemma_run_wf(MenuItem::Home, board, keys.drop_last());
        let before = run(MenuItem::Home, board, keys.drop_last());
        lemma_next_state_fits(before.0, before.1, keys.last());
    }
}

/// The pass over the dates keeps the mode fitting the board, as long as the
/// task that is being entered is due no earlier than every task of its list
/// and not before the day after tomorrow. That holds of a task on its
/// placeholder day until a task is due on a later day than that.
pub proof fn lemma_normalized_fits(menu: MenuItem, board: TaskBoardView, today: int)
    requires
        board.wf(),
        mode_fits(menu, board),
        menu == MenuItem::AddingTaskTitle || menu == MenuItem::AddingTaskDate ==> ({
            &&& board.entry().due - today >= 2
            &&& forall|j: int|
                0 <= j < board.active().tasks.len() ==> board.active().tasks[j].due
                    <= board.entry().due
        }),
    ensures
        mode_fits(menu, board_normalized(board, today)),
        edited_text(menu, board_normalized(board, today)) == edited_text(menu, board),
{
    if menu == MenuItem::AddingTaskTitle || menu == MenuItem::AddingTaskDate {
        lemma_last_stays_last(board.active(), today);
    }
}

/// To take the keys `first` and then the keys `then` is to take the keys of
/// both in one go.
pub proof fn lemma_run_concat(
    menu: MenuItem,
    board: TaskBoardView,
    first: Seq<KeyEvent>,
    then: Seq<KeyEvent>,
)
    ensures
        run(menu, board, first + then) == run(
            run(menu, board, first).0,
            run(menu, board, first).1,
            then,
        ),
    decreases then.len(),
{
    if then.len() == 0 {
        assert(first + then =~= first);
    } else {
        lemma_run_concat(menu, board, first, then.drop_last());
        assert((first + then).drop_last() =~= first + then.drop_last());
    }
}

proof fn lemma_typing_a_list_title(board: TaskBoardView, typed: Seq<KeyEvent>)
    requires
        board.lists.len() > 0,
        forall|i: int| 0 <= i < typed.len() ==> is_typing(#[trigger] typed[i]),
    ensures
        ({
            let after = run(MenuItem::AddingList, board, typed);
            &&& after.0 == MenuItem::AddingList
            &&& after.1.lists.len() == board.lists.len()
            &&& after.1.lists.drop_last() == board.lists.drop_last()
            &&& after.1.num_lists == board.num_lists
            &&& after.1.active_list == board.active_list
            &&& after.1.debug_str == board.debug_str
        }),
    decreases typed.len(),
{
    if typed.len() > 0 {
        lemma_typing_a_list_title(board, typed.drop_last());
        let before = run(MenuItem::AddingList, board, typed.drop_last());
        let after = next_state(before.0, before.1, typed.last());
        assert(is_typing(typed.last()));
        assert(after.1.lists.drop_last() =~= before.1.lists.drop_last());
    }
}

/// Escape undoes the creation of a list: after `n`, any typing, and escape,
/// the mode is browsing again, and the board holds the lists, the identities
/// and the count that it held before. The last of its lists is the active one.
pub proof fn lemma_create_then_abort(
    board: TaskBoardView,
    create: KeyEvent,
    typed: Seq<KeyEvent>,
    abort: KeyEvent,
)
    requires
        board.wf(),
        create.code == KeyCode::Char('n'),
        forall|i: int| 0 <= i < typed.len() ==> is_typing(#[trigger] typed[i]),
        abort.code == KeyCode::Esc,
    ensures
        run(MenuItem::Home, board, seq![create] + typed + seq![abort]) == (
            MenuItem::Home,
            TaskBoardView { active_list: board.lists.len(), ..board },
        ),
{
    let created = next_state(MenuItem::Home, board, create);
    assert(run(MenuItem::Home, board, seq![create]) == created) by {
        assert(seq![create].drop_last() =~= Seq::<KeyEvent>::empty());
        reveal_with_fuel(run, 2);
    }
    lemma_run_concat(MenuItem::Home, board, seq![create], typed);
    lemma_typing_a_list_title(created.1, typed);
    let named = run(MenuItem::Home, board, seq![create] + typed);
    assert(created.1.lists.drop_last() =~= board.lists);
    let all = seq![create] + typed + seq![abort];
    assert(all.drop_last() =~= seq![create] + typed);
    assert(named.1.naming_aborted().lists =~= board.lists);
}

/// The keys of `rounds` rounds of creating a list and giving it up.
pub open spec fn create_abort_keys(create: KeyEvent, abort: KeyEvent, rounds: nat) -> Seq<KeyEvent>
    decreases rounds,
{
    if rounds == 0 {
        Seq::empty()
    } else {
        create_abort_keys(create, abort, (rounds - 1) as nat) + seq![create, abort]
    }
}

/// However often a list is created and given up at once, the board holds the
/// lists, the identities and the count that it held before.
pub proof fn lemma_create_abort_rounds(
    board: TaskBoardView,
    create: KeyEvent,
    abort: KeyEvent,
    rounds: nat,
)
    requires
        board.wf(),
        create.code == KeyCode::Char('n'),
        abort.code == KeyCode::Esc,
    ensures
        run(MenuItem::Home, board, create_abort_keys(create, abort, rounds)) == (
            MenuItem::Home,
            if rounds == 0 {
                board
            } else {
                TaskBoardView { active_list: board.lists.len(), ..board }
            },
        ),
    decreases rounds,
{
    if rounds > 0 {
        let earlier = create_abort_keys(create, abort, (rounds - 1) as nat);
        lemma_create_abort_rounds(board, create, abort, (rounds - 1) as nat);
        lemma_run_concat(MenuItem::Home, board, earlier, seq![create, abort]);
        let before = run(MenuItem::Home, board, earlier).1;
        lemma_create_then_abort(before, create, Seq::empty(), abort);
        assert(seq![create] + Seq::<KeyEvent>::empty() + seq![abort] =~= seq![create, abort]);
    }
}

/// A date field without text is reported like a date that cannot be read:
/// enter leaves the due day of the task as it was and sets the diagnostic
/// message.
pub proof fn lemma_empty_date_is_reported(board: TaskBoardView)
    requires
        board.has_entry(),
        committed(board.entry().date_string).len() == 0,
    ensures
        date_entered(board).debug_str == parse_failure(Seq::empty()),
        date_entered(board).has_entry(),
        date_entered(board).entry().due == board.entry().due,
        date_entered(board).entry().title == board.entry().title,
        date_entered(board).entry().date_string == Seq::<char>::empty(),
{
    assert(committed(board.entry().date_string) =~= Seq::<char>::empty());
}

/// The field that the keys type into in the given mode, if there is one.
pub fn edited_field(menu: MenuItem, taskboard: &TaskBoard) -> (field: Option<&String>)
    ensures
        field is Some ==> edited_text(menu, taskboard@) == Some(field->0@),
        field is None ==> edited_text(menu, taskboard@) is None,
{
    match menu {
        MenuItem::Home => None,
        MenuItem::AddingList => {
            let n = taskboard.lists.len();
            if n > 0 {
                assert(taskboard@.lists[n - 1] == taskboard.lists[n - 1]@);
                Some(&taskboard.lists[n - 1].title)
            } else {
                None
            }
        },
        MenuItem::AddingTaskTitle => {
            if taskboard.has_entry() {
                let i = taskboard.active_list - 1;
                assert(taskboard@.lists[i as int] == taskboard.lists[i as int]@);
                let j = taskboard.lists[i].tasks.len() - 1;
                Some(&taskboard.lists[i].tasks[j].title)
            } else {
                None
            }
        },
        MenuItem::AddingTaskDate => {
            if taskboard.has_entry() {
                let i = taskboard.active_list - 1;
                assert(taskboard@.lists[i as int] == taskboard.lists[i as int]@);
                let j = taskboard.lists[i].tasks.len() - 1;
                Some(&taskboard.lists[i].tasks[j].date_string)
            } else {
                None
            }
        },
    }
}

/// The list identity that a digit key stands for.
pub fn digit_value(c: char) -> (id: Option<usize>)
    ensures
        digit_of(c) is Some ==> id == Some(digit_of(c)->0 as usize) && digit_of(c)->0 <= 9,
        digit_of(c) is None ==> id is None,
{
    if '0' <= c && c <= '9' {
        Some((c as u32 - '0' as u32) as usize)
    } else {
        None
    }
}

/// Carries out a character key while browsing.
fn handle_command(active_menu_item: &mut MenuItem, taskboard: &mut TaskBoard, c: char)
    requires
        *old(active_menu_item) == MenuItem::Home,
    ensures
        (*final(active_menu_item), final(taskboard)@) == after_command(old(taskboard)@, c),
        old(taskboard)@.wf() ==> final(taskboard)@.wf(),
{
    match c {
        'n' => {
            taskboard.create_list();
            *active_menu_item = MenuItem::AddingList;
        },
        'a' => {
            if taskboard.has_active() {
                taskboard.add_task();
                *active_menu_item = MenuItem::AddingTaskTitle;
            }
        },
        'd' => taskboard.delete_task(),
        'D' => taskboard.delete_list(),
        'j' => taskboard.select_next(),
        'k' => taskboard.select_previous(),
        'h' => taskboard.focus_previous_list(),
        'l' => taskboard.focus_next_list(),
        _ => match digit_value(c) {
            Some(id) => taskboard.focus_list(id),
            None => {},
        },
    }
}

/// Ends the typing of a date: takes the cursor mark off the date field of the
/// task that is being entered, reads the text as a date and stores what it
/// was read as.
pub fn enter_date(taskboard: &mut TaskBoard)
    ensures
        final(taskboard)@ == date_entered(old(taskboard)@),
        old(taskboard)@.wf() ==> final(taskboard)@.wf(),
{
    if taskboard.has_entry() {
        taskboard.edit_entry_date(Edit::Commit);
        let parsed = match edited_field(MenuItem::AddingTaskDate, taskboard) {
            Some(text) => parse_due(text.as_str()),
            None => None,
        };
        taskboard.store_entry_date(parsed);
    }
}

/// Carries out one key event: moves the board and the mode to their next
/// state and says whether the program is to end.
pub fn handle_event(
    active_menu_item: &mut MenuItem,
    taskboard: &mut TaskBoard,
    key: KeyEvent,
) -> (quit: bool)
    ensures
        quit == quits(*old(active_menu_item), key),
        (*final(active_menu_item), final(taskboard)@) == next_state(
            *old(active_menu_item),
            old(taskboard)@,
            key,
        ),
        old(taskboard)@.wf() ==> final(taskboard)@.wf(),
{
    match *active_menu_item {
        MenuItem::Home => match key.code {
            KeyCode::Char(c) => {
                if c == 'q' {
                    return true;
                }
                handle_command(active_menu_item, taskboard, c);
            },
            _ => {},
        },
        MenuItem::AddingList => match key.code {
            KeyCode::Char(c) => taskboard.edit_list_title(Edit::Insert(c)),
            KeyCode::Backspace => taskboard.edit_list_title(Edit::Backspace),
            KeyCode::Enter => {
                taskboard.edit_list_title(Edit::Commit);
                *active_menu_item = MenuItem::Home;
            },
            KeyCode::Esc => {
                taskboard.abort_list();
                *active_menu_item = MenuItem::Home;
            },
            KeyCode::Other => {},
        },
        MenuItem::AddingTaskTitle => match key.code {
            KeyCode::Char(c) => taskboard.edit_entry_title(Edit::Insert(c)),
            KeyCode::Backspace => taskboard.edit_entry_title(Edit::Backspace),
            KeyCode::Enter => {
                if key.pressed {
                    if taskboard.has_entry() {
                        taskboard.open_entry_date();
                        *active_menu_item = MenuItem::AddingTaskDate;
                    } else {
                        *active_menu_item = MenuItem::Home;
                    }
                }
            },
            KeyCode::Esc => {
                taskboard.abort_entry();
                *active_menu_item = MenuItem::Home;
            },
            KeyCode::Other => {},
        },
        MenuItem::AddingTaskDate => match key.code {
            KeyCode::Char(c) => taskboard.edit_entry_date(Edit::Insert(c)),
            KeyCode::Backspace => taskboard.edit_entry_date(Edit::Backspace),
            KeyCode::Enter => {
                if key.pressed {
                    enter_date(taskboard);
                    *active_menu_item = MenuItem::Home;
                }
            },
            KeyCode::Esc => {
                taskboard.abort_entry();
                *active_menu_item = MenuItem::Home;
            },
            KeyCode::Other => {},
        },
    }
    false
}

} // verus!
