use chrono::{Datelike, Local, NaiveDate};
use taskboard::{
    parse_due, sort_tasks, update_dates, Task, TaskBoard, TaskList, PLACEHOLDER_DUE,
};

fn day(y: i32, m: u32, d: u32) -> i32 {
    NaiveDate::from_ymd_opt(y, m, d).unwrap().num_days_from_ce()
}

fn labeled(title: &str, label: &str, due: i32) -> Task {
    Task { title: title.to_string(), date_string: label.to_string(), due }
}

fn board_with(tasks: Vec<Task>, selected: usize) -> TaskBoard {
    TaskBoard::new(vec![TaskList { id: 1, title: "l".to_string(), tasks, selected }])
}

fn titles(list: &TaskList) -> Vec<String> {
    list.tasks.iter().map(|t| t.title.clone()).collect()
}

#[test]
fn parse_due_reads_year_month_day() {
    assert_eq!(parse_due("2025/01/07"), Some(day(2025, 1, 7)));
    assert_eq!(parse_due("2025/1/7"), Some(day(2025, 1, 7)));
    assert_eq!(parse_due("1970/01/01"), Some(719_163));
    assert_eq!(parse_due("2102/12/01"), Some(PLACEHOLDER_DUE));
    assert_eq!(parse_due("2024/02/29"), Some(day(2024, 2, 29)));
}

#[test]
fn parse_due_rejects_what_is_no_date() {
    assert_eq!(parse_due(""), None);
    assert_eq!(parse_due("2025/13/40"), None);
    assert_eq!(parse_due("2025/02/30"), None);
    assert_eq!(parse_due("2023/02/29"), None);
    assert_eq!(parse_due("2025-01-07"), None);
    assert_eq!(parse_due("2025/01"), None);
    assert_eq!(parse_due("2025/01/07 "), None);
    assert_eq!(parse_due("tomorrow"), None);
    assert_eq!(parse_due("|"), None);
}

#[test]
fn labels_for_today_tomorrow_and_the_past() {
    let today = day(2025, 1, 1);
    let mut board = board_with(
        vec![
            labeled("past", "2024/12/31", today - 1),
            labeled("long past", "x", today - 400),
            labeled("now", "2025/01/01", today),
            labeled("next", "2025/01/02", today + 1),
            labeled("soon", "2025/01/03", today + 2),
            labeled("later", "Overdue", today + 30),
        ],
        0,
    );
    update_dates(&mut board, today);
    let list = &board.lists[0];
    assert_eq!(titles(list), vec!["long past", "past", "now", "next", "soon", "later"]);
    let labels: Vec<&str> = list.tasks.iter().map(|t| t.date_string.as_str()).collect();
    assert_eq!(labels, vec!["Overdue", "Overdue", "Today", "Tomorrow", "2025/01/03", "Overdue"]);
}

#[test]
fn normalize_two_tasks_already_in_order() {
    let today = day(2025, 1, 1);
    let mut board = board_with(
        vec![
            labeled("first", "2025/01/01", day(2025, 1, 1)),
            labeled("second", "2025/01/03", day(2025, 1, 3)),
        ],
        1,
    );
    update_dates(&mut board, today);
    let list = &board.lists[0];
    assert_eq!(list.tasks[0], labeled("first", "Today", day(2025, 1, 1)));
    assert_eq!(list.tasks[1], labeled("second", "2025/01/03", day(2025, 1, 3)));
    assert_eq!(list.selected, 1);
    assert!(board.is_valid());
}

#[test]
fn sort_is_stable() {
    let mut tasks = vec![
        labeled("c1", "", 30),
        labeled("a1", "", 10),
        labeled("b1", "", 20),
        labeled("a2", "", 10),
        labeled("c2", "", 30),
        labeled("a3", "", 10),
        labeled("b2", "", 20),
    ];
    sort_tasks(&mut tasks);
    let order: Vec<&str> = tasks.iter().map(|t| t.title.as_str()).collect();
    assert_eq!(order, vec!["a1", "a2", "a3", "b1", "b2", "c1", "c2"]);
}

#[test]
fn sort_orders_by_due_day() {
    let mut tasks = vec![labeled("z", "", 5), labeled("y", "", -3), labeled("x", "", 4)];
    sort_tasks(&mut tasks);
    let dues: Vec<i32> = tasks.iter().map(|t| t.due).collect();
    assert_eq!(dues, vec![-3, 4, 5]);
    let mut none: Vec<Task> = vec![];
    sort_tasks(&mut none);
    assert!(none.is_empty());
    let mut one = vec![labeled("o", "l", 1)];
    sort_tasks(&mut one);
    assert_eq!(one, vec![labeled("o", "l", 1)]);
}

#[test]
fn sort_agrees_with_the_stable_sort_of_the_standard_library() {
    let mut seed: u32 = 12345;
    for len in 0..40usize {
        let mut tasks = Vec::new();
        for n in 0..len {
            seed = seed.wrapping_mul(1_103_515_245).wrapping_add(12345);
            let due = ((seed >> 16) % 7) as i32 - 3;
            tasks.push(labeled(&format!("t{}", n), "", due));
        }
        let mut expected = tasks.clone();
        expected.sort_by(|a, b| a.due.cmp(&b.due));
        sort_tasks(&mut tasks);
        assert_eq!(tasks, expected);
    }
}

#[test]
fn normalize_twice_is_normalize_once() {
    let today = day(2025, 6, 15);
    let mut board = TaskBoard::new(vec![
        TaskList {
            id: 1,
            title: "a".to_string(),
            tasks: vec![
                labeled("t1", "2025/06/20", today + 5),
                labeled("t2", "x", today),
                labeled("t3", "y", today - 2),
                labeled("t4", "z", today + 1),
                labeled("t5", "w", today),
            ],
            selected: 3,
        },
        TaskList { id: 2, title: "b".to_string(), tasks: vec![], selected: 0 },
    ]);
    update_dates(&mut board, today);
    let once = board.clone();
    update_dates(&mut board, today);
    assert_eq!(board, once);
    assert_eq!(titles(&board.lists[0]), vec!["t3", "t2", "t5", "t4", "t1"]);
    assert_eq!(board.lists[0].selected, 3);
}

#[test]
fn extreme_days_do_not_overflow() {
    let mut board = board_with(
        vec![labeled("far", "keep", i32::MAX), labeled("early", "x", i32::MIN)],
        0,
    );
    update_dates(&mut board, i32::MIN);
    assert_eq!(board.lists[0].tasks[0], labeled("early", "Today", i32::MIN));
    assert_eq!(board.lists[0].tasks[1], labeled("far", "keep", i32::MAX));
    update_dates(&mut board, i32::MAX);
    assert_eq!(board.lists[0].tasks[0], labeled("early", "Overdue", i32::MIN));
    assert_eq!(board.lists[0].tasks[1], labeled("far", "Today", i32::MAX));
}

#[test]
fn update_dates_with_the_local_day() {
    let today = Local::now().naive_local().date().num_days_from_ce();
    let mut board = board_with(
        vec![
            labeled("new", "|", PLACEHOLDER_DUE),
            labeled("old", "1999/01/01", day(1999, 1, 1)),
            labeled("now", "?", today),
        ],
        2,
    );
    update_dates(&mut board, today);
    assert_eq!(board.lists[0].tasks[0], labeled("old", "Overdue", day(1999, 1, 1)));
    assert_eq!(board.lists[0].tasks[1], labeled("now", "Today", today));
    assert_eq!(board.lists[0].tasks[2], labeled("new", "|", PLACEHOLDER_DUE));
    assert_eq!(board.lists[0].selected, 2);
    assert!(board.is_valid());
}
