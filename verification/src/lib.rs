//! A task board: named lists of tasks, edited from the keyboard.
//!
//! The board is a plain value that one owner passes by reference. Every key
//! event is handed to [`handle_event`], which moves the board and the input
//! mode to their next state; [`update_dates`] then refreshes the relative
//! date labels and the order of the tasks for the day that the caller names
//! as today.

pub mod board;
pub mod date;
pub mod events;
pub mod model;
pub mod normalize;
pub mod panel;
pub mod text;

pub use board::{Task, TaskBoard, TaskList};
pub use date::{parse_due, PLACEHOLDER_DUE};
pub use events::{
    digit_value, edited_field, enter_date, handle_event, KeyCode, KeyEvent, MenuItem,
};
pub use normalize::{sort_tasks, update_dates};
pub use panel::{get_helpline, HelpSpan, Panel};
pub use text::{apply, backspace, commit, insert, start_edit, Edit, SENTINEL};
