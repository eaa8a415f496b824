//! What the screen shows of the board, as plain values for a renderer.
//!
//! The renderer draws a legend of the commands and one panel for every list.
//! What a panel holds and which of its frames is marked is decided here.

use vstd::prelude::*;
use crate::board::{Task, TaskBoard, TaskList};
use crate::events::MenuItem;
use crate::model::{TaskBoardView, TaskListView, TaskView};

verus! {

/// One piece of the legend that names the commands.
#[derive(Clone, Debug, PartialEq, Eq)]
pub struct HelpSpan {
    /// The text of the piece.
    pub text: String,
    /// Whether the piece names the key of a command, and is shown underlined.
    pub is_key: bool,
}

/// The panel of one list.
#[derive(Clone, Debug, PartialEq, Eq)]
pub struct Panel {
    /// The title of the list; while it is being typed it ends in the cursor
    /// mark.
    pub title: String,
    /// Whether the frame of the title is marked.
    pub title_marked: bool,
    /// One line for every task.
    pub rows: Vec<String>,
    /// Whether the frame of the tasks is marked.
    pub rows_marked: bool,
    /// The row that is shown as selected, if any.
    pub selected: Option<usize>,
}

/// A panel as a mathematical value.
pub struct PanelView {
    /// The title of the list.
    pub title: Seq<char>,
    /// Whether the frame of the title is marked.
    pub title_marked: bool,
    /// One line for every task.
    pub rows: Seq<Seq<char>>,
    /// Whether the frame of the tasks is marked.
    pub rows_marked: bool,
    /// The row that is shown as selected, if any.
    pub selected: Option<usize>,
}

impl View for Panel {
    type V = PanelView;

    open spec fn view(&self) -> PanelView {
        PanelView {
            title: self.title@,
            title_marked: self.title_marked,
            rows: self.rows@.map_values(|row: String| row@),
            rows_marked: self.rows_marked,
            selected: self.selected,
        }
    }
}

/// The number of pieces of the legend.
pub const HELP_SPANS: usize = 12;

/// The text of the piece of the legend at place `k`. The pieces at the even
/// places name the keys.
pub open spec fn help_text(k: int) -> Seq<char> {
    if k == 0 {
        "<num>"@
    } else if k == 1 {
        " Select List - "@
    } else if k == 2 {
        "N"@
    } else if k == 3 {
        "ew List - "@
    } else if k == 4 {
        "D"@
    } else if k == 5 {
        "elete List - "@
    } else if k == 6 {
        "A"@
    } else if k == 7 {
        "dd item - "@
    } else if k == 8 {
        "d"@
    } else if k == 9 {
        "elete item - "@
    } else if k == 10 {
        "Q"@
    } else {
        "uit"@
    }
}

/// The line that shows a task: its title, a dash, and what stands for its
/// date.
pub open spec fn task_line(task: TaskView) -> Seq<char> {
    task.title + " - "@ + task.date_string
}

/// Whether the frame of the title of the list is marked: it is while the
/// list is being named.
pub open spec fn title_marked(menu: MenuItem, list: TaskListView, active_list: nat) -> bool {
    menu == MenuItem::AddingList && list.id == active_list
}

/// Whether the frame of the tasks of the list is marked: it is for the
/// active list, but not while a list is being named.
pub open spec fn rows_marked(menu: MenuItem, list: TaskListView, active_list: nat) -> bool {
    menu != MenuItem::AddingList && list.id == active_list
}

/// The panel of a list in the given mode.
pub open spec fn panel_of(menu: MenuItem, list: TaskListView, active_list: nat) -> PanelView {
    PanelView {
        title: list.title,
        title_marked: title_marked(menu, list, active_list),
        rows: list.tasks.map_values(|t: TaskView| task_line(t)),
        rows_marked: rows_marked(menu, list, active_list),
        selected: if list.id == active_list && list.tasks.len() > 0 {
            Some(list.selected as usize)
        } else {
            None
        },
    }
}

/// The panels of the board, one for every list in the order shown.
pub open spec fn panels_of(menu: MenuItem, board: TaskBoardView) -> Seq<PanelView> {
    board.lists.map_values(|l: TaskListView| panel_of(menu, l, board.active_list))
}

fn help_span(text: &str, is_key: bool) -> (span: HelpSpan)
    ensures
        span.text@ == text@,
        span.is_key == is_key,
{
    HelpSpan { text: String::from_str(text), is_key }
}

/// The legend of the commands, piece by piece.
pub fn get_helpline() -> (line: Vec<HelpSpan>)
    ensures
        line.len() == HELP_SPANS,
        forall|k: int|
            0 <= k < line.len() ==> (#[trigger] line[k]).text@ == help_text(k) && line[k].is_key
                == (k % 2 == 0),
{
    let mut line = Vec::new();
    line.push(help_span("<num>", true));
    line.push(help_span(" Select List - ", false));
    line.push(help_span("N", true));
    line.push(help_span("ew List - ", false));
    line.push(help_span("D", true));
    line.push(help_span("elete List - ", false));
    line.push(help_span("A", true));
    line.push(help_span("dd item - ", false));
    line.push(help_span("d", true));
    line.push(help_span("elete item - ", false));
    line.push(help_span("Q", true));
    line.push(help_span("uit", false));
    line
}

impl Task {
    /// The line that shows the task: its title, a dash, and what stands for
    /// its date.
    pub fn line(&self) -> (line: String)
        ensures
            line@ == task_line(self@),
    {
        let mut line = self.title.clone();
        line.append(" - ");
        line.append(self.date_string.as_str());
        line
    }
}

impl TaskList {
    /// The panel of the list in the given mode, on a board whose active list
    /// has the identity `active_list`.
    pub fn panel(&self, menu: MenuItem, active_list: usize) -> (panel: Panel)
        ensures
            panel@ == panel_of(menu, self@, active_list as nat),
    {
        let active = self.id == active_list;
        let naming = match menu {
            MenuItem::AddingList => true,
            _ => false,
        };
        let n = self.tasks.len();
        let mut rows: Vec<String> = Vec::new();
        let mut j: usize = 0;
        while j < n
            invariant
                j <= n,
                n == self.tasks.len(),
                rows.len() == j,
                forall|k: int| 0 <= k < j ==> (#[trigger] rows[k])@ == task_line(self.tasks[k]@),
            decreases n - j,
        {
            rows.push(self.tasks[j].line());
            j += 1;
        }
        let panel = Panel {
            title: self.title.clone(),
            title_marked: naming && active,
            rows,
            rows_marked: !naming && active,
            selected: if active && n > 0 { Some(self.selected) } else { None },
        };
        assert(panel@.rows =~= panel_of(menu, self@, active_list as nat).rows);
        panel
    }
}

impl TaskBoard {
    /// The panels of the board in the given mode, one for every list in the
    /// order shown.
    pub fn panels(&self, menu: MenuItem) -> (panels: Vec<Panel>)
        ensures
            panels@.map_values(|p: Panel| p@) == panels_of(menu, self@),
    {
        let n = self.lists.len();
        let mut panels: Vec<Panel> = Vec::new();
        let mut i: usize = 0;
        while i < n
            invariant
                i <= n,
                n == self.lists.len(),
                panels.len() == i,
                forall|k: int|
                    0 <= k < i ==> (#[trigger] panels[k])@ == panel_of(
                        menu,
                        self.lists[k]@,
                        self.active_list as nat,
                    ),
            decreases n - i,
        {
            panels.push(self.lists[i].panel(menu, self.active_list));
            i += 1;
        }
        assert(panels@.map_values(|p: Panel| p@) =~= panels_of(menu, self@));
        panels
    }
}

} // verus!
