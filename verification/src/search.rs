//! The store's search: a query of optional filters, each of which a task
//! must pass, and the function that runs them over the store. The API
//! layer only parses the query fields out of a request; which tasks match
//! is decided and proved here, down to the substring test.

use vstd::prelude::*;
use vstd::string::StrSliceExecFns;

use crate::stamp::Timestamp;
use crate::tasks::{Task, TaskV};
use crate::todo::ToDo;
use crate::{CompletionStatus, EstTime, Priority};

verus! {

/// `needle` occurs contiguously somewhere in `hay`.
pub open spec fn contains_spec(hay: Seq<char>, needle: Seq<char>) -> bool {
    exists|i: int|
        0 <= i && i + needle.len() <= hay.len() && #[trigger] hay.subrange(i, i + needle.len())
            == needle
}

/// The characters of a string as a vector.
fn chars_of(s: &str) -> (v: Vec<char>)
    ensures
        v@ == s@,
{
    let len = s.unicode_len();
    let mut v: Vec<char> = Vec::new();
    let mut i: usize = 0;
    while i < len
        invariant
            len == s@.len(),
            i <= len,
            v@ == s@.take(i as int),
        decreases len - i,
    {
        v.push(s.get_char(i));
        proof {
            assert(s@.take(i + 1 as int) =~= s@.take(i as int).push(s@[i as int]));
        }
        i = i + 1;
    }
    proof {
        assert(s@.take(len as int) =~= s@);
    }
    v
}

/// Whether `n` matches `h` starting at position `i`.
fn match_at(h: &Vec<char>, n: &Vec<char>, i: usize) -> (r: bool)
    requires
        i + n@.len() <= h@.len(),
    ensures
        r == (h@.subrange(i as int, i as int + n@.len()) == n@),
{
    let hl = h.len();
    let mut k: usize = 0;
    while k < n.len()
        invariant
            hl == h@.len(),
            i + n@.len() <= h@.len(),
            k <= n@.len(),
            forall|k2: int| 0 <= k2 < k ==> h@[i + k2] == n@[k2],
        decreases n@.len() - k,
    {
        proof {
            assert(i + k < h@.len());
        }
        if h[i + k] != n[k] {
            proof {
                assert(h@.subrange(i as int, i as int + n@.len())[k as int] != n@[k as int]);
            }
            return false;
        }
        k = k + 1;
    }
    proof {
        assert(h@.subrange(i as int, i as int + n@.len()) =~= n@);
    }
    true
}

/// Substring test: true exactly when the needle occurs in the haystack
/// (an empty needle occurs in every string).
pub fn contains_sub(hay: &str, needle: &str) -> (r: bool)
    ensures
        r == contains_spec(hay@, needle@),
{
    let h = chars_of(hay);
    let n = chars_of(needle);
    if n.len() == 0 {
        proof {
            assert(hay@.subrange(0, 0 + needle@.len() as int) =~= needle@);
        }
        return true;
    }
    if n.len() > h.len() {
        return false;
    }
    let mut i: usize = 0;
    while i <= h.len() - n.len()
        invariant
            h@ == hay@,
            n@ == needle@,
            1 <= n@.len() <= h@.len(),
            i <= h@.len() - n@.len() + 1,
            forall|i2: int|
                0 <= i2 < i ==> #[trigger] hay@.subrange(i2, i2 + needle@.len()) != needle@,
        decreases h@.len() - n@.len() + 1 - i,
    {
        if match_at(&h, &n, i) {
            return true;
        }
        i = i + 1;
    }
    false
}

/// Mathematical value of a search query.
pub struct QueryV {
    pub name: Option<Seq<char>>,
    pub desc: Option<Seq<char>>,
    pub due_date_start: Option<Timestamp>,
    pub due_date_end: Option<Timestamp>,
    pub est_time_low: Option<u32>,
    pub est_time_high: Option<u32>,
    pub complete: Option<bool>,
    pub priority_low: Option<Priority>,
    pub priority_high: Option<Priority>,
    pub category: Option<Seq<char>>,
}

/// A search query: every present field is a filter a task must pass.
pub struct SearchQuery {
    pub name: Option<String>,
    pub desc: Option<String>,
    pub due_date_start: Option<Timestamp>,
    pub due_date_end: Option<Timestamp>,
    pub est_time_low: Option<u32>,
    pub est_time_high: Option<u32>,
    pub complete: Option<bool>,
    pub priority_low: Option<Priority>,
    pub priority_high: Option<Priority>,
    pub category: Option<String>,
}

impl View for SearchQuery {
    type V = QueryV;

    open spec fn view(&self) -> QueryV {
        QueryV {
            name: crate::tasks::opt_str_view(self.name),
            desc: crate::tasks::opt_str_view(self.desc),
            due_date_start: self.due_date_start,
            due_date_end: self.due_date_end,
            est_time_low: self.est_time_low,
            est_time_high: self.est_time_high,
            complete: self.complete,
            priority_low: self.priority_low,
            priority_high: self.priority_high,
            category: crate::tasks::opt_str_view(self.category),
        }
    }
}

impl SearchQuery {
    /// A query with no filters: every task passes.
    pub fn empty() -> (r: SearchQuery)
        ensures
            r@ == (QueryV {
                name: None,
                desc: None,
                due_date_start: None,
                due_date_end: None,
                est_time_low: None,
                est_time_high: None,
                complete: None,
                priority_low: None,
                priority_high: None,
                category: None,
            }),
    {
        SearchQuery {
            name: None,
            desc: None,
            due_date_start: None,
            due_date_end: None,
            est_time_low: None,
            est_time_high: None,
            complete: None,
            priority_low: None,
            priority_high: None,
            category: None,
        }
    }

    /// The query's timestamps lie in range.
    pub open spec fn wf(self) -> bool {
        &&& (self.due_date_start matches Some(d) ==> d.wf())
        &&& (self.due_date_end matches Some(d) ==> d.wf())
    }
}

/// Whether a task passes every filter of a query:
/// - a name or description filter asks for a substring match;
/// - a due-date lower bound excludes tasks without a due date, while the
///   upper bound lets them pass (absence sorts below any date);
/// - a priority lower bound excludes tasks without a priority, while the
///   upper bound lets them pass (absence sorts below `Low`);
/// - `complete == Some(true)` keeps only finished tasks, while
///   `Some(false)` keeps everything;
/// - an empty category string stands for the uncategorized bucket.
pub open spec fn matches_query(t: TaskV, q: QueryV) -> bool {
    &&& (q.name matches Some(n) ==> contains_spec(t.name, n))
    &&& (q.desc matches Some(d) ==> contains_spec(t.desc, d))
    &&& (q.due_date_start matches Some(s) ==> (t.due_date matches Some(d) && d.as_secs()
        >= s.as_secs()))
    &&& (q.due_date_end matches Some(e) ==> (t.due_date matches Some(d) ==> d.as_secs()
        <= e.as_secs()))
    &&& (q.est_time_low matches Some(lo) ==> t.est_minutes >= lo)
    &&& (q.est_time_high matches Some(hi) ==> t.est_minutes <= hi)
    &&& (q.complete matches Some(c) ==> (c ==> t.finished))
    &&& (q.priority_low matches Some(lo) ==> (t.priority matches Some(p) && p.val_spec()
        >= lo.val_spec()))
    &&& (q.priority_high matches Some(hi) ==> (t.priority matches Some(p) ==> p.val_spec()
        <= hi.val_spec()))
    &&& (q.category matches Some(c) ==> t.category == (if c.len() == 0 {
        Option::<Seq<char>>::None
    } else {
        Some(c)
    }))
}

/// Whether one task passes every filter of a query.
pub fn matches_task(t: &Task, q: &SearchQuery) -> (r: bool)
    requires
        t@.wf(),
        q.wf(),
    ensures
        r == matches_query(t@, q@),
{
    let name_ok = match &q.name {
        Some(n) => contains_sub(t.get_name().as_str(), n.as_str()),
        None => true,
    };
    let desc_ok = match &q.desc {
        Some(d) => contains_sub(t.get_desc().as_str(), d.as_str()),
        None => true,
    };
    let due = t.get_due_date();
    let start_ok = match q.due_date_start {
        Some(s) => match due {
            Some(d) => s.le(d),
            None => false,
        },
        None => true,
    };
    let end_ok = match q.due_date_end {
        Some(e) => match due {
            Some(d) => d.le(e),
            None => true,
        },
        None => true,
    };
    let est = t.est_time();
    let est_low_ok = match q.est_time_low {
        Some(lo) => est >= lo,
        None => true,
    };
    let est_high_ok = match q.est_time_high {
        Some(hi) => est <= hi,
        None => true,
    };
    let complete_ok = match q.complete {
        Some(c) => !c || t.complete(),
        None => true,
    };
    let pri = t.get_priority();
    let pri_low_ok = match q.priority_low {
        Some(lo) => match pri {
            Some(p) => p.val() >= lo.val(),
            None => false,
        },
        None => true,
    };
    let pri_high_ok = match q.priority_high {
        Some(hi) => match pri {
            Some(p) => p.val() <= hi.val(),
            None => true,
        },
        None => true,
    };
    let cat_ok = match &q.category {
        Some(c) => {
            let want: Option<String> = if c.unicode_len() == 0 {
                None
            } else {
                Some(c.clone())
            };
            let have = t.get_category();
            opt_label_eq(&have, &want)
        },
        None => true,
    };
    name_ok && desc_ok && start_ok && end_ok && est_low_ok && est_high_ok && complete_ok
        && pri_low_ok && pri_high_ok && cat_ok
}

/// Compare two optional labels by contents.
fn opt_label_eq(a: &Option<String>, b: &Option<String>) -> (r: bool)
    ensures
        r == (crate::tasks::opt_str_view(*a) == crate::tasks::opt_str_view(*b)),
{
    match (a, b) {
        (Some(x), Some(y)) => {
            let r = String::eq(x, y);
            proof {
                if x@ == y@ {
                    assert(crate::tasks::opt_str_view(*a) == crate::tasks::opt_str_view(*b));
                } else {
                    assert(crate::tasks::opt_str_view(*a) != crate::tasks::opt_str_view(*b));
                }
            }
            r
        },
        (None, None) => true,
        _ => false,
    }
}

/// The store's tasks as a sequence of values, in storage order.
pub open spec fn tasks_in_order(v: crate::todo::ToDoV) -> Seq<TaskV> {
    v.order.map_values(|id: u128| v.tasks[id])
}

/// The subsequence of tasks that pass the query, in order.
pub open spec fn filtered(s: Seq<TaskV>, q: QueryV) -> Seq<TaskV>
    decreases s.len(),
{
    if s.len() == 0 {
        Seq::empty()
    } else {
        let prev = filtered(s.drop_last(), q);
        if matches_query(s.last(), q) {
            prev.push(s.last())
        } else {
            prev
        }
    }
}

/// Search the store. With an id, the result is that task alone (or
/// nothing when the id is unknown) and the query is not consulted; without
/// one, the result is exactly the tasks that pass every filter of the
/// query, in storage order.
pub fn search(todo: &ToDo, id: Option<u128>, q: &SearchQuery) -> (r: Vec<Task>)
    requires
        todo.wf(),
        q.wf(),
    ensures
        match id {
            Some(x) => {
                if todo@.tasks.contains_key(x) {
                    r@.len() == 1 && r@[0]@ == todo@.tasks[x]
                } else {
                    r@.len() == 0
                }
            },
            None => r@.map_values(|t: Task| t@) == filtered(tasks_in_order(todo@), q@),
        },
{
    match id {
        Some(x) => {
            let mut out: Vec<Task> = Vec::new();
            match todo.get_task(x) {
                Some(t) => {
                    out.push(t.clone());
                },
                None => {},
            }
            out
        },
        None => {
            let all = todo.get_all_tasks();
            let ghost tio = tasks_in_order(todo@);
            proof {
                assert(all@.map_values(|t: Task| t@) =~= tio);
            }
            let mut out: Vec<Task> = Vec::new();
            let mut i: usize = 0;
            while i < all.len()
                invariant
                    todo.wf(),
                    q.wf(),
                    i <= all@.len(),
                    tio == tasks_in_order(todo@),
                    all@.map_values(|t: Task| t@) == tio,
                    forall|k: int| 0 <= k < all@.len() ==> (#[trigger] all@[k])@.wf(),
                    out@.map_values(|t: Task| t@) == filtered(tio.take(i as int), q@),
                decreases all@.len() - i,
            {
                proof {
                    assert(tio.take(i + 1 as int).drop_last() =~= tio.take(i as int));
                    assert(tio.take(i + 1 as int).last() == tio[i as int]);
                    assert(all@.map_values(|t: Task| t@)[i as int] == all@[i as int]@);
                }
                if matches_task(&all[i], q) {
                    out.push(all[i].clone());
                    proof {
                        assert(out@.map_values(|t: Task| t@) =~= filtered(
                            tio.take(i + 1 as int),
                            q@,
                        ));
                    }
                } else {
                    proof {
                        assert(out@.map_values(|t: Task| t@) =~= filtered(
                            tio.take(i + 1 as int),
                            q@,
                        ));
                    }
                }
                i = i + 1;
            }
            proof {
                assert(tio.take(tio.len() as int) =~= tio);
            }
            out
        },
    }
}

} // verus!
