//! Decision logic of the physical-display front end: which view of the
//! task screen is shown, how the selection index moves under wrap-around,
//! and how a playback duration splits into clock fields. Driving the
//! display hardware is outside the library; it consumes these decisions.

use vstd::prelude::*;

verus! {

/// The views the task screen cycles through.
#[derive(Clone, Copy, Debug, PartialEq, Eq, Structural)]
pub enum TaskScreenState {
    Root,
    Categories,
    CategoryTasks,
    AllTasks,
    Overdue,
    TaskInfo,
}

impl TaskScreenState {
    /// The numeric code of this view.
    pub open spec fn val_spec(self) -> int {
        match self {
            TaskScreenState::Root => 0,
            TaskScreenState::Categories => 1,
            TaskScreenState::CategoryTasks => 2,
            TaskScreenState::AllTasks => 3,
            TaskScreenState::Overdue => 4,
            TaskScreenState::TaskInfo => 5,
        }
    }

    /// The numeric code stored in the screen's view flag.
    pub fn val(self) -> (r: usize)
        ensures
            r == self.val_spec(),
    {
        match self {
            TaskScreenState::Root => 0,
            TaskScreenState::Categories => 1,
            TaskScreenState::CategoryTasks => 2,
            TaskScreenState::AllTasks => 3,
            TaskScreenState::Overdue => 4,
            TaskScreenState::TaskInfo => 5,
        }
    }

    /// The view encoded by a flag value, reading the code modulo the
    /// number of views.
    pub fn get(val: usize) -> (r: TaskScreenState)
        ensures
            r.val_spec() == val % 6,
    {
        match val % 6 {
            5 => TaskScreenState::TaskInfo,
            4 => TaskScreenState::Overdue,
            3 => TaskScreenState::AllTasks,
            2 => TaskScreenState::CategoryTasks,
            1 => TaskScreenState::Categories,
            _ => TaskScreenState::Root,
        }
    }
}

/// The view codes are in range and identify the view: two views with the
/// same code are the same view, so `get` of a view's code gives that view
/// back.
pub proof fn lemma_screen_codes_identify(s1: TaskScreenState, s2: TaskScreenState)
    ensures
        0 <= s1.val_spec() < 6,
        s1.val_spec() == s2.val_spec() ==> s1 == s2,
        s1.val_spec() % 6 == s1.val_spec(),
{
}

/// The previous selection index under wrap-around: one step back, or the
/// last entry when the cursor sits on the first.
pub fn select_prev(idx: usize, len: usize) -> (r: usize)
    requires
        len > 0,
        idx < len,
    ensures
        r < len,
        idx == 0 ==> r == len - 1,
        idx > 0 ==> r == idx - 1,
{
    if idx == 0 {
        len - 1
    } else {
        idx - 1
    }
}

/// The next selection index under wrap-around.
pub fn select_next(idx: usize, len: usize) -> (r: usize)
    requires
        len > 0,
        idx < len,
    ensures
        r < len,
        r == (idx + 1) % (len as int),
{
    (idx + 1) % len
}

/// The list lengths the task screen navigates over.
#[derive(Clone, Copy, Debug, PartialEq, Eq, Structural)]
pub struct NavLens {
    pub categories: usize,
    pub category_tasks: usize,
    pub all: usize,
    pub overdue: usize,
}

/// What one round of button input asks the display to do, beyond moving
/// the cursor.
#[derive(Clone, Copy, Debug, PartialEq, Eq, Structural)]
pub enum TaskScreenAction {
    /// Keep browsing the current view.
    Browse,
    /// Reload the root view.
    ReloadRoot,
    /// The category at this index of the category list was chosen.
    PickCategory(usize),
    /// The task at this index of the current task list was chosen.
    PickTask(usize),
}

/// Cursor state of the task screen: the view flag and the selection index.
#[derive(Clone, Copy, Debug, PartialEq, Eq, Structural)]
pub struct TaskNav {
    pub flag: usize,
    pub idx: usize,
}

/// The length of the list the cursor moves over in a view.
pub open spec fn view_len(flag: int, lens: NavLens) -> int {
    if flag % 6 == 1 {
        lens.categories as int
    } else if flag % 6 == 2 {
        lens.category_tasks as int
    } else if flag % 6 == 3 {
        lens.all as int
    } else if flag % 6 == 4 {
        lens.overdue as int
    } else if flag % 6 == 0 {
        4
    } else {
        1
    }
}

/// One round of button input on the task screen: a released cycle button
/// reloads the root view; in the root view the function buttons move the
/// cursor over the four entries and the middle button enters the chosen
/// list; in a list view the middle button picks the entry under the
/// cursor and the outer buttons move the cursor with wrap-around; the
/// detail view ignores input. Inputs under which the display would index
/// an empty list are excluded: each view's list must be nonempty and hold
/// the cursor.
pub fn task_screen_step(nav: TaskNav, cycle: bool, f0: bool, f1: bool, f2: bool, lens: NavLens) -> (r: (
    TaskNav,
    TaskScreenAction,
))
    requires
        view_len(nav.flag as int, lens) > 0,
        nav.idx < view_len(nav.flag as int, lens),
    ensures
        cycle ==> r.1 == TaskScreenAction::ReloadRoot && r.0 == (TaskNav { flag: 0, idx: 0 }),
        !cycle && nav.flag % 6 == 0 ==> (if f1 {
            r.1 == TaskScreenAction::Browse && r.0.idx == 0 && (if nav.idx == 1 {
                r.0.flag == 1
            } else if nav.idx == 2 {
                r.0.flag == 4
            } else {
                r.0.flag == 3
            })
        } else {
            r.1 == TaskScreenAction::Browse && r.0.flag == nav.flag && (if f0 {
                r.0.idx == (if nav.idx == 0 {
                    3int
                } else {
                    nav.idx - 1
                })
            } else if f2 {
                r.0.idx == (nav.idx + 1) % 4
            } else {
                r.0.idx == nav.idx
            })
        }),
        !cycle && 1 <= nav.flag % 6 <= 4 ==> (if f1 {
            (if nav.flag % 6 == 1 {
                r.1 == TaskScreenAction::PickCategory(nav.idx) && r.0 == (TaskNav {
                    flag: 2,
                    idx: 0,
                })
            } else {
                r.1 == TaskScreenAction::PickTask(nav.idx) && r.0 == (TaskNav { flag: 5, idx: 0 })
            })
        } else {
            r.1 == TaskScreenAction::Browse && r.0.flag == nav.flag && (if f0 {
                r.0.idx == (if nav.idx == 0 {
                    view_len(nav.flag as int, lens) - 1
                } else {
                    nav.idx - 1
                })
            } else if f2 {
                r.0.idx == (nav.idx + 1) % view_len(nav.flag as int, lens)
            } else {
                r.0.idx == nav.idx
            })
        }),
        !cycle && nav.flag % 6 == 5 ==> r.1 == TaskScreenAction::Browse && r.0 == nav,
{
    if cycle {
        return (TaskNav { flag: 0, idx: 0 }, TaskScreenAction::ReloadRoot);
    }
    let state = TaskScreenState::get(nav.flag);
    match state {
        TaskScreenState::Root => {
            if f1 {
                let flag = if nav.idx == 1 {
                    TaskScreenState::Categories.val()
                } else if nav.idx == 2 {
                    TaskScreenState::Overdue.val()
                } else {
                    TaskScreenState::AllTasks.val()
                };
                (TaskNav { flag, idx: 0 }, TaskScreenAction::Browse)
            } else if f0 {
                (
                    TaskNav { flag: nav.flag, idx: select_prev(nav.idx, 4) },
                    TaskScreenAction::Browse,
                )
            } else if f2 {
                (
                    TaskNav { flag: nav.flag, idx: select_next(nav.idx, 4) },
                    TaskScreenAction::Browse,
                )
            } else {
                (nav, TaskScreenAction::Browse)
            }
        },
        TaskScreenState::Categories | TaskScreenState::CategoryTasks | TaskScreenState::AllTasks
            | TaskScreenState::Overdue => {
            let len = match state {
                TaskScreenState::Categories => lens.categories,
                TaskScreenState::CategoryTasks => lens.category_tasks,
                TaskScreenState::AllTasks => lens.all,
                _ => lens.overdue,
            };
            if f1 {
                match state {
                    TaskScreenState::Categories => (
                        TaskNav { flag: TaskScreenState::CategoryTasks.val(), idx: 0 },
                        TaskScreenAction::PickCategory(nav.idx),
                    ),
                    _ => (
                        TaskNav { flag: TaskScreenState::TaskInfo.val(), idx: 0 },
                        TaskScreenAction::PickTask(nav.idx),
                    ),
                }
            } else if f0 {
                (
                    TaskNav { flag: nav.flag, idx: select_prev(nav.idx, len) },
                    TaskScreenAction::Browse,
                )
            } else if f2 {
                (
                    TaskNav { flag: nav.flag, idx: select_next(nav.idx, len) },
                    TaskScreenAction::Browse,
                )
            } else {
                (nav, TaskScreenAction::Browse)
            }
        },
        TaskScreenState::TaskInfo => (nav, TaskScreenAction::Browse),
    }
}

/// Split a duration in milliseconds into clock fields: whole hours,
/// minutes within the hour, and seconds within the minute.
pub fn split_duration_ms(ms: u32) -> (r: (u32, u32, u32))
    ensures
        r.0 == ms / 1000 / 3600,
        r.1 == (ms / 1000 - r.0 * 3600) / 60,
        r.2 == ms / 1000 - r.0 * 3600 - r.1 * 60,
        r.1 < 60,
        r.2 < 60,
{
    let secs = ms / 1000;
    let hours = secs / 3600;
    let mins = (secs - hours * 3600) / 60;
    let rest = secs - hours * 3600 - mins * 60;
    (hours, mins, rest)
}

} // verus!
