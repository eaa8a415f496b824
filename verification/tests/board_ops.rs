use taskboard::{
    apply, digit_value, edited_field, enter_date, handle_event, update_dates, Edit, KeyCode,
    KeyEvent, MenuItem, Task, TaskBoard, TaskList, PLACEHOLDER_DUE,
};

fn item(title: &str, label: &str, due: i32) -> Task {
    Task { title: title.to_string(), date_string: label.to_string(), due }
}

fn list_of(title: &str, tasks: Vec<Task>, selected: usize) -> TaskList {
    TaskList { id: 0, title: title.to_string(), tasks, selected }
}

fn sample() -> TaskBoard {
    TaskBoard::new(vec![
        list_of("first", vec![item("a", "la", 1), item("b", "lb", 2)], 0),
        list_of("second", vec![], 0),
    ])
}

fn key(code: KeyCode) -> KeyEvent {
    KeyEvent { code, pressed: true }
}

#[test]
fn create_list_appends_and_activates() {
    let mut board = sample();
    board.create_list();
    assert_eq!(board.num_lists, 3);
    assert_eq!(board.active_list, 3);
    assert_eq!(
        board.lists[2],
        TaskList { id: 3, title: "|".to_string(), tasks: vec![], selected: 0 }
    );
    assert_eq!(board.lists[0], sample().lists[0]);
    assert_eq!(board.lists[1], sample().lists[1]);
    assert!(board.is_valid());
}

#[test]
fn delete_list_removes_the_active_list() {
    let mut board = sample();
    board.active_list = 2;
    board.delete_list();
    assert_eq!(board.num_lists, 1);
    assert_eq!(board.active_list, 1);
    assert_eq!(board.lists, vec![sample().lists[0].clone()]);
    board.delete_list();
    assert_eq!(board.num_lists, 0);
    assert_eq!(board.active_list, 1);
    board.delete_list();
    assert_eq!(board.num_lists, 0);
    assert!(board.is_valid());
}

#[test]
fn abort_list_lowers_the_active_identity() {
    let mut board = sample();
    board.create_list();
    board.abort_list();
    assert_eq!(board.lists, sample().lists);
    assert_eq!(board.num_lists, 2);
    assert_eq!(board.active_list, 2);

    let mut board = sample();
    board.active_list = 1;
    board.abort_list();
    assert_eq!(board.num_lists, 1);
    assert_eq!(board.active_list, 1);
    board.abort_list();
    assert_eq!(board.num_lists, 0);
    assert_eq!(board.active_list, 0);
    board.abort_list();
    assert_eq!(board.num_lists, 0);
    assert_eq!(board.active_list, 0);
    assert!(board.is_valid());
}

#[test]
fn add_task_selects_the_new_task() {
    let mut board = sample();
    board.add_task();
    assert_eq!(board.lists[0].tasks.len(), 3);
    assert_eq!(board.lists[0].selected, 2);
    assert_eq!(board.lists[0].tasks[2], item("|", "|", PLACEHOLDER_DUE));
    assert_eq!(Task::new(), item("|", "|", PLACEHOLDER_DUE));
    assert_eq!(PLACEHOLDER_DUE, 767_709);
}

#[test]
fn abort_entry_drops_the_last_task_and_clamps() {
    let mut board = sample();
    board.lists[0].selected = 1;
    board.abort_entry();
    assert_eq!(board.lists[0].tasks, vec![item("a", "la", 1)]);
    assert_eq!(board.lists[0].selected, 0);
    board.abort_entry();
    assert!(board.lists[0].tasks.is_empty());
    assert_eq!(board.lists[0].selected, 0);
    board.abort_entry();
    assert!(board.lists[0].tasks.is_empty());

    let mut board = TaskBoard::new(vec![list_of(
        "l",
        vec![item("a", "", 1), item("b", "", 2), item("c", "", 3)],
        0,
    )]);
    board.abort_entry();
    assert_eq!(board.lists[0].selected, 0);
    assert_eq!(board.lists[0].tasks.len(), 2);
}

#[test]
fn focus_list_by_identity() {
    let mut board = sample();
    board.lists[0].selected = 1;
    board.focus_list(2);
    assert_eq!(board.active_list, 2);
    assert_eq!(board.lists[0].selected, 1);
    board.focus_list(1);
    assert_eq!(board.active_list, 1);
    assert_eq!(board.lists[0].selected, 0);
    let before = board.clone();
    board.focus_list(0);
    assert_eq!(board, before);
    board.focus_list(3);
    assert_eq!(board, before);
    board.focus_next_list();
    assert_eq!(board.active_list, 2);
    board.focus_next_list();
    assert_eq!(board.active_list, 2);
    board.focus_previous_list();
    assert_eq!(board.active_list, 1);
    board.focus_previous_list();
    assert_eq!(board.active_list, 1);
}

#[test]
fn has_active_and_has_entry() {
    let mut board = sample();
    assert!(board.has_active());
    assert!(board.has_entry());
    board.active_list = 2;
    assert!(board.has_active());
    assert!(!board.has_entry());
    let empty = TaskBoard::new(vec![]);
    assert!(!empty.has_active());
    assert!(!empty.has_entry());
}

#[test]
fn edits_go_to_the_field_of_the_mode() {
    let mut board = sample();
    board.edit_list_title(Edit::Insert('x'));
    assert_eq!(board.lists[1].title, "seconxd");
    board.edit_list_title(Edit::Backspace);
    assert_eq!(board.lists[1].title, "second");
    board.edit_list_title(Edit::Backspace);
    assert_eq!(board.lists[1].title, "secod");
    board.edit_list_title(Edit::Commit);
    assert_eq!(board.lists[1].title, "seco");
    assert_eq!(board.lists[0], sample().lists[0]);

    let mut board = sample();
    board.edit_entry_title(Edit::Insert('x'));
    assert_eq!(board.lists[0].tasks[1], item("xb", "lb", 2));
    board.edit_entry_date(Edit::Insert('y'));
    assert_eq!(board.lists[0].tasks[1], item("xb", "lyb", 2));
    board.edit_entry_date(Edit::Backspace);
    assert_eq!(board.lists[0].tasks[1], item("xb", "lb", 2));
    board.edit_entry_title(Edit::Commit);
    assert_eq!(board.lists[0].tasks[1], item("x", "lb", 2));
    assert_eq!(board.lists[0].tasks[0], item("a", "la", 1));
}

#[test]
fn open_entry_date_commits_the_title_and_clears_the_date() {
    let mut board = sample();
    board.lists[0].tasks[1] = item("milk|", "Tomorrow", 9);
    board.open_entry_date();
    assert_eq!(board.lists[0].tasks[1], item("milk", "|", 9));
    assert_eq!(board.lists[0].tasks[0], item("a", "la", 1));
}

#[test]
fn store_entry_date_takes_a_day_or_reports() {
    let mut board = sample();
    board.store_entry_date(Some(77));
    assert_eq!(board.lists[0].tasks[1], item("b", "lb", 77));
    assert_eq!(board.debug_str, "");
    board.store_entry_date(None);
    assert_eq!(board.lists[0].tasks[1], item("b", "lb", 77));
    assert_eq!(board.debug_str, "Failed to parse date: lb");

    let mut board = sample();
    board.active_list = 2;
    let before = board.clone();
    board.store_entry_date(Some(5));
    assert_eq!(board, before);
    board.store_entry_date(None);
    assert_eq!(board, before);
}

#[test]
fn enter_date_reads_the_typed_text() {
    let mut board = sample();
    board.lists[0].tasks[1] = item("b", "1970/01/02|", PLACEHOLDER_DUE);
    enter_date(&mut board);
    assert_eq!(board.lists[0].tasks[1], item("b", "1970/01/02", 719_164));
    assert_eq!(board.debug_str, "");

    board.lists[0].tasks[1] = item("b", "soon|", 12);
    enter_date(&mut board);
    assert_eq!(board.lists[0].tasks[1], item("b", "soon", 12));
    assert_eq!(board.debug_str, "Failed to parse date: soon");
}

#[test]
fn digit_values() {
    assert_eq!(digit_value('0'), Some(0));
    assert_eq!(digit_value('5'), Some(5));
    assert_eq!(digit_value('9'), Some(9));
    assert_eq!(digit_value('a'), None);
    assert_eq!(digit_value('/'), None);
    assert_eq!(digit_value(':'), None);
    assert_eq!(digit_value('٣'), None);
}

#[test]
fn apply_carries_out_one_edit() {
    let mut field = String::from("ab|");
    apply(&mut field, Edit::Insert('c'));
    assert_eq!(field, "abc|");
    apply(&mut field, Edit::Backspace);
    assert_eq!(field, "ab|");
    apply(&mut field, Edit::Commit);
    assert_eq!(field, "ab");
}

#[test]
fn the_edited_field_of_each_mode() {
    let mut board = sample();
    assert_eq!(edited_field(MenuItem::Home, &board), None);
    assert_eq!(edited_field(MenuItem::AddingList, &board), Some(&"second".to_string()));
    assert_eq!(edited_field(MenuItem::AddingTaskTitle, &board), Some(&"b".to_string()));
    assert_eq!(edited_field(MenuItem::AddingTaskDate, &board), Some(&"lb".to_string()));
    board.active_list = 2;
    assert_eq!(edited_field(MenuItem::AddingTaskTitle, &board), None);
    assert_eq!(edited_field(MenuItem::AddingTaskDate, &board), None);
    let empty = TaskBoard::new(vec![]);
    assert_eq!(edited_field(MenuItem::AddingList, &empty), None);

    let mut menu = MenuItem::Home;
    let mut board = TaskBoard::new(vec![]);
    handle_event(&mut menu, &mut board, key(KeyCode::Char('n')));
    assert_eq!(edited_field(menu, &board), Some(&"|".to_string()));
    handle_event(&mut menu, &mut board, key(KeyCode::Enter));
    handle_event(&mut menu, &mut board, key(KeyCode::Char('a')));
    handle_event(&mut menu, &mut board, key(KeyCode::Char('t')));
    assert_eq!(edited_field(menu, &board), Some(&"t|".to_string()));
    handle_event(&mut menu, &mut board, key(KeyCode::Enter));
    assert_eq!(edited_field(menu, &board), Some(&"|".to_string()));
}

#[test]
fn the_pass_keeps_the_entry_in_place() {
    let today = 739_252;
    let mut menu = MenuItem::Home;
    let mut board = TaskBoard::new(vec![list_of(
        "l",
        vec![item("late", "x", today + 40), item("early", "y", today + 3)],
        0,
    )]);
    handle_event(&mut menu, &mut board, key(KeyCode::Char('a')));
    update_dates(&mut board, today);
    handle_event(&mut menu, &mut board, key(KeyCode::Char('m')));
    update_dates(&mut board, today);
    assert_eq!(edited_field(menu, &board), Some(&"m|".to_string()));
    assert_eq!(board.lists[0].selected, 2);
    assert_eq!(
        board.lists[0].tasks,
        vec![
            item("early", "y", today + 3),
            item("late", "x", today + 40),
            item("m|", "|", PLACEHOLDER_DUE),
        ]
    );
    handle_event(&mut menu, &mut board, key(KeyCode::Enter));
    update_dates(&mut board, today);
    for c in "2025/01/02".chars() {
        handle_event(&mut menu, &mut board, key(KeyCode::Char(c)));
        update_dates(&mut board, today);
    }
    assert_eq!(edited_field(menu, &board), Some(&"2025/01/02|".to_string()));
    handle_event(&mut menu, &mut board, key(KeyCode::Enter));
    update_dates(&mut board, today);
    assert_eq!(menu, MenuItem::Home);
    assert_eq!(
        board.lists[0].tasks,
        vec![
            item("m", "Tomorrow", today + 1),
            item("early", "y", today + 3),
            item("late", "x", today + 40),
        ]
    );
    assert_eq!(board.lists[0].selected, 2);
    assert!(board.is_valid());
}

#[test]
fn a_board_that_is_not_well_formed_is_handled_without_failure() {
    let keys = ['n', 'a', 'd', 'D', 'j', 'k', 'h', 'l', '0', '1', '2', '9', 'x'];
    let codes = [KeyCode::Enter, KeyCode::Backspace, KeyCode::Esc, KeyCode::Other];
    let modes = [
        MenuItem::Home,
        MenuItem::AddingList,
        MenuItem::AddingTaskTitle,
        MenuItem::AddingTaskDate,
    ];
    for active in [0usize, 1, 2, 3, usize::MAX] {
        for selected in [0usize, 1, 2, 7, usize::MAX] {
            for count in [0usize, 2, 5, usize::MAX] {
                for mode in modes {
                    let mut events: Vec<KeyEvent> =
                        keys.iter().map(|c| key(KeyCode::Char(*c))).collect();
                    events.extend(codes.iter().map(|c| key(*c)));
                    for event in events {
                        let mut board = sample();
                        board.active_list = active;
                        board.num_lists = count;
                        board.lists[0].selected = selected;
                        board.lists[1].selected = selected;
                        board.lists[1].id = 9;
                        let mut menu = mode;
                        let _ = handle_event(&mut menu, &mut board, event);
                        update_dates(&mut board, 3);
                        let _ = board.panels(menu);
                        let _ = edited_field(menu, &board);
                    }
                }
            }
        }
    }
}

#[test]
fn without_an_active_list_the_task_keys_change_nothing() {
    for c in ['a', 'd', 'j', 'k', 'D'] {
        let mut board = sample();
        board.active_list = 0;
        let before = board.clone();
        let mut menu = MenuItem::Home;
        handle_event(&mut menu, &mut board, key(KeyCode::Char(c)));
        assert_eq!(board, before);
        assert_eq!(menu, MenuItem::Home);
    }
}
