//! Core of a personal task-tracking service: an in-memory task store with
//! category and overdue indices, a pure recurrence calculator, and the
//! decision logic of the timer-driven scheduler that marks tasks overdue and
//! regenerates recurring tasks.

use vstd::prelude::*;
use vstd::string::StrSliceExecFns;

pub mod scheduler;
pub mod screen;
pub mod search;
pub mod stamp;
pub mod tasks;
pub mod todo;
pub mod trello;

verus! {

/// Saturate a mathematical count into the `u32` range.
pub open spec fn sat32(n: int) -> int {
    if n <= u32::MAX as int {
        n
    } else {
        u32::MAX as int
    }
}

/// Urgency of a task; `val` gives the numeric rank, higher is more urgent.
#[derive(Clone, Copy, Debug, PartialEq, Eq, Structural)]
pub enum Priority {
    Low,
    Medium,
    High,
    Extreme,
}

impl Priority {
    /// Numeric rank of this priority.
    pub open spec fn val_spec(self) -> int {
        match self {
            Priority::Low => 1,
            Priority::Medium => 2,
            Priority::High => 3,
            Priority::Extreme => 4,
        }
    }

    /// Numeric rank of this priority; higher means more urgent.
    pub fn val(self) -> (r: i32)
        ensures
            r == self.val_spec(),
    {
        match self {
            Priority::Low => 1,
            Priority::Medium => 2,
            Priority::High => 3,
            Priority::Extreme => 4,
        }
    }
}

/// Case-blind match of one character against a lowercase reference
/// character: equal outright, or the uppercase letter of it.
pub open spec fn char_eq_ic(a: char, b: char) -> bool {
    a == b || ('A' <= a && a <= 'Z' && (a as int) + 32 == b as int)
}

/// Case-blind match of a string against a lowercase reference word.
pub open spec fn eq_ic(s: Seq<char>, lit: Seq<char>) -> bool {
    s.len() == lit.len() && forall|i: int| 0 <= i < s.len() ==> char_eq_ic(#[trigger] s[i], lit[i])
}

/// The priority named by a string, compared without regard to ASCII case;
/// "mid" is accepted for `Medium`.
pub open spec fn spec_parse_priority(s: Seq<char>) -> Option<Priority> {
    if eq_ic(s, "low"@) {
        Some(Priority::Low)
    } else if eq_ic(s, "medium"@) || eq_ic(s, "mid"@) {
        Some(Priority::Medium)
    } else if eq_ic(s, "high"@) {
        Some(Priority::High)
    } else if eq_ic(s, "extreme"@) {
        Some(Priority::Extreme)
    } else {
        None
    }
}

/// Case-blind comparison against a lowercase reference word.
fn eq_ignore_case(s: &str, lit: &str) -> (r: bool)
    ensures
        r == eq_ic(s@, lit@),
{
    let n = s.unicode_len();
    if n != lit.unicode_len() {
        return false;
    }
    let mut i: usize = 0;
    while i < n
        invariant
            n == s@.len(),
            s@.len() == lit@.len(),
            i <= n,
            forall|k: int| 0 <= k < i ==> char_eq_ic(#[trigger] s@[k], lit@[k]),
        decreases n - i,
    {
        let a = s.get_char(i);
        let b = lit.get_char(i);
        let ok = a == b || ('A' <= a && a <= 'Z' && (a as u32) + 32 == (b as u32));
        if !ok {
            return false;
        }
        i = i + 1;
    }
    true
}

/// Parse a priority name, without regard to ASCII case.
pub fn parse_priority(s: &str) -> (r: Option<Priority>)
    ensures
        r == spec_parse_priority(s@),
{
    if eq_ignore_case(s, "low") {
        Some(Priority::Low)
    } else if eq_ignore_case(s, "medium") || eq_ignore_case(s, "mid") {
        Some(Priority::Medium)
    } else if eq_ignore_case(s, "high") {
        Some(Priority::High)
    } else if eq_ignore_case(s, "extreme") {
        Some(Priority::Extreme)
    } else {
        None
    }
}

impl core::str::FromStr for Priority {
    type Err = &'static str;

    fn from_str(s: &str) -> Result<Priority, Self::Err> {
        match parse_priority(s) {
            Some(p) => Ok(p),
            None => Err("Invalid Priority"),
        }
    }
}

/// The errors the core reports: an unknown task or category, a recurrence
/// requested without a due date (or with no weekdays), and a task keyed in a
/// loaded map under an id that is not its own.
#[derive(Clone, Copy, Debug, PartialEq, Eq, Structural)]
pub enum TodoError {
    NotFound,
    InvalidRecurrence,
    IdMismatch,
}

/// Things that carry a duration estimate in minutes.
pub trait EstTime {
    /// The mathematical total estimate in minutes.
    spec fn est_time_spec(&self) -> int;

    /// The estimate in minutes, saturated into `u32`.
    fn est_time(&self) -> (r: u32)
        ensures
            r == sat32(self.est_time_spec()),
    ;
}

/// Things that can report how finished they are.
pub trait CompletionStatus {
    /// Whether everything here counts as finished.
    spec fn complete_spec(&self) -> bool;

    /// How many contained items are finished.
    spec fn finished_count_spec(&self) -> int;

    /// How many items are contained in all.
    spec fn item_count_spec(&self) -> int;

    fn complete(&self) -> (r: bool)
        ensures
            r == self.complete_spec(),
    ;

    /// `(finished, total)`, each saturated into `u32`.
    fn completion_status(&self) -> (r: (u32, u32))
        ensures
            r.0 == sat32(self.finished_count_spec()),
            r.1 == sat32(self.item_count_spec()),
    ;
}

} // verus!
