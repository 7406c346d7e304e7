//! The task store: the sole owner of task data, with a category index and
//! an overdue index maintained by every mutating operation. Its value is
//! modelled as a map from id to task, a map from category label to bucket,
//! and a set of overdue ids; every operation's contract is stated over that
//! model, and the store's invariant ties the two indices to the task map.

use vstd::prelude::*;
use vstd::seq_lib::*;

use crate::stamp::{Timestamp, Weekday};
use crate::tasks::{opt_str_view, Task, TaskV};
use crate::{sat32, CompletionStatus, EstTime, TodoError};

verus! {

/// One category bucket: a label (`None` is the uncategorized bucket) and
/// the ids filed under it, in insertion order.
#[derive(Debug)]
struct Bucket {
    label: Option<String>,
    ids: Vec<u128>,
}

impl Bucket {
    spec fn label_view(&self) -> Option<Seq<char>> {
        opt_str_view(self.label)
    }
}

/// Mathematical value of the store: the ids in storage order, the task map,
/// the category index, and the overdue set.
pub struct ToDoV {
    /// Ids of the stored tasks, in storage order.
    pub order: Seq<u128>,
    /// The tasks, keyed by id.
    pub tasks: Map<u128, TaskV>,
    /// For each known category label, the ids filed under it in insertion
    /// order. A bucket exists once a task carried its label, and stays when
    /// it empties.
    pub categories: Map<Option<Seq<char>>, Seq<u128>>,
    /// Ids currently flagged overdue.
    pub overdue: Set<u128>,
}

/// The store's invariant over its mathematical value:
/// - ids are unique, and the task map holds exactly the ids in `order`,
///   each mapped to a well-formed task carrying that id;
/// - every task's id lies in the bucket of the task's own category, and a
///   bucket holds only ids of stored tasks carrying its label, each at most
///   once — so every id is in exactly one bucket, the one matching its
///   stored category;
/// - the overdue set holds only ids of stored tasks.
pub open spec fn inv(v: ToDoV) -> bool {
    &&& v.order.no_duplicates()
    &&& v.tasks.dom() == v.order.to_set()
    &&& forall|id: u128|
        #[trigger] v.tasks.contains_key(id) ==> v.tasks[id].id == id && v.tasks[id].wf()
    &&& forall|id: u128| #[trigger]
        v.tasks.contains_key(id) ==> v.categories.contains_key(v.tasks[id].category)
            && v.categories[v.tasks[id].category].contains(id)
    &&& forall|lab: Option<Seq<char>>| #[trigger]
        v.categories.contains_key(lab) ==> v.categories[lab].no_duplicates() && (forall|k: int|
            0 <= k < v.categories[lab].len() ==> v.tasks.contains_key(
                #[trigger] v.categories[lab][k],
            ) && v.tasks[v.categories[lab][k]].category == lab)
    &&& forall|id: u128| v.overdue.contains(id) ==> #[trigger] v.tasks.contains_key(id)
}

/// Compare two optional labels by contents; `None` equals only `None`.
fn opt_str_eq(a: &Option<String>, b: &Option<String>) -> (r: bool)
    ensures
        r == (opt_str_view(*a) == opt_str_view(*b)),
{
    match (a, b) {
        (Some(x), Some(y)) => {
            let r = String::eq(x, y);
            proof {
                if x@ == y@ {
                    assert(opt_str_view(*a) == opt_str_view(*b));
                } else {
                    assert(opt_str_view(*a) != opt_str_view(*b));
                }
            }
            r
        },
        (None, None) => true,
        _ => false,
    }
}

/// Whether some bucket carries this label.
spec fn has_label(s: Seq<Bucket>, lab: Option<Seq<char>>) -> bool {
    exists|j: int| 0 <= j < s.len() && (#[trigger] s[j].label_view()) == lab
}

/// Shape of the bucket list after filing `id` under `catv`: the bucket
/// carrying that label gained the id at its end (a fresh bucket at the end
/// of the list where none carried it), and every other bucket is unchanged.
spec fn cats_after(pre: Seq<Bucket>, post: Seq<Bucket>, catv: Option<Seq<char>>, id: u128) -> bool {
    if has_label(pre, catv) {
        let j = bucket_index(pre, catv);
        &&& post.len() == pre.len()
        &&& (forall|j2: int|
            0 <= j2 < pre.len() && j2 != j ==> (#[trigger] post[j2]).label_view()
                == pre[j2].label_view() && post[j2].ids@ == pre[j2].ids@)
        &&& post[j].label_view() == catv
        &&& post[j].ids@ == pre[j].ids@.push(id)
    } else {
        &&& post.len() == pre.len() + 1
        &&& (forall|j2: int|
            0 <= j2 < pre.len() ==> (#[trigger] post[j2]).label_view() == pre[j2].label_view()
                && post[j2].ids@ == pre[j2].ids@)
        &&& post[pre.len() as int].label_view() == catv
        &&& post[pre.len() as int].ids@ == Seq::<u128>::empty().push(id)
    }
}

/// Find the first position of `id` in an id list.
fn find_id(v: &Vec<u128>, id: u128) -> (r: Option<usize>)
    ensures
        match r {
            Some(m) => m < v@.len() && v@[m as int] == id && (forall|a: int|
                0 <= a < m ==> v@[a] != id),
            None => !v@.contains(id),
        },
{
    let mut m: usize = 0;
    while m < v.len()
        invariant
            m <= v@.len(),
            forall|a: int| 0 <= a < m ==> v@[a] != id,
        decreases v@.len() - m,
    {
        if v[m] == id {
            return Some(m);
        }
        m = m + 1;
    }
    None
}

/// Every bucket's id list is free of duplicates.
spec fn buckets_nodup(cats: Seq<Bucket>) -> bool {
    forall|j2: int| 0 <= j2 < cats.len() ==> (#[trigger] cats[j2]).ids@.no_duplicates()
}

/// The id at position `k2` of bucket `j2` belongs to a stored task whose
/// category is the bucket's label.
spec fn bucket_entry_ok(tasks: Seq<Task>, cats: Seq<Bucket>, j2: int, k2: int) -> bool {
    exists|i2: int|
        0 <= i2 < tasks.len() && (#[trigger] tasks[i2])@.id == cats[j2].ids@[k2]
            && tasks[i2]@.category == cats[j2].label_view()
}

/// Every id in a bucket belongs to a stored task whose category is the
/// bucket's label.
spec fn buckets_linked(tasks: Seq<Task>, cats: Seq<Bucket>) -> bool {
    forall|j2: int, k2: int| #![trigger cats[j2].ids@[k2]]
        0 <= j2 < cats.len() && 0 <= k2 < cats[j2].ids@.len() ==> bucket_entry_ok(
            tasks,
            cats,
            j2,
            k2,
        )
}

/// Package the pointwise bucket-entry facts into `buckets_linked`.
proof fn lemma_linked_intro(tasks: Seq<Task>, cats: Seq<Bucket>)
    requires
        forall|j2: int, k2: int|
            0 <= j2 < cats.len() && 0 <= k2 < cats[j2].ids@.len() ==> #[trigger] bucket_entry_ok(
                tasks,
                cats,
                j2,
                k2,
            ),
    ensures
        buckets_linked(tasks, cats),
{
}

/// Every stored task's id lies in the bucket of the task's own category.
spec fn tasks_bucketed(tasks: Seq<Task>, cats: Seq<Bucket>) -> bool {
    forall|i2: int| #![trigger tasks[i2]]
        0 <= i2 < tasks.len() ==> exists|j2: int|
            0 <= j2 < cats.len() && cats[j2].label_view() == tasks[i2]@.category
                && cats[j2].ids@.contains(tasks[i2]@.id)
}

/// Index of the task carrying `id` in a task list.
spec fn task_index(s: Seq<Task>, id: u128) -> int {
    choose|i: int| 0 <= i < s.len() && s[i]@.id == id
}

/// Index of the bucket carrying `lab` in a bucket list.
spec fn bucket_index(s: Seq<Bucket>, lab: Option<Seq<char>>) -> int {
    choose|j: int| 0 <= j < s.len() && s[j].label_view() == lab
}

/// The ids of a task list, in order.
spec fn ids_of(s: Seq<Task>) -> Seq<u128> {
    s.map_values(|t: Task| t@.id)
}

/// The ids filed under a label, or the empty bucket where none exists yet.
pub open spec fn bucket_or_empty(v: ToDoV, cat: Option<Seq<char>>) -> Seq<u128> {
    if v.categories.contains_key(cat) {
        v.categories[cat]
    } else {
        Seq::empty()
    }
}

/// Insertion of a task into the store's model: the task is added under its
/// id, its id is appended to its category's bucket (a fresh bucket where
/// none exists), and, where `marked` says its due date had already passed,
/// the id joins the overdue set.
pub open spec fn spec_add(v: ToDoV, t: TaskV, marked: bool) -> ToDoV {
    ToDoV {
        order: v.order.push(t.id),
        tasks: v.tasks.insert(t.id, t),
        categories: v.categories.insert(t.category, bucket_or_empty(v, t.category).push(t.id)),
        overdue: if marked {
            v.overdue.insert(t.id)
        } else {
            v.overdue
        },
    }
}

/// Removal of a stored task from the store's model: the task leaves the
/// task map, its category's bucket, and the overdue set, all in one step.
pub open spec fn spec_remove(v: ToDoV, id: u128) -> ToDoV
    recommends
        v.tasks.contains_key(id),
{
    ToDoV {
        order: v.order.remove_value(id),
        tasks: v.tasks.remove(id),
        categories: v.categories.insert(
            v.tasks[id].category,
            v.categories[v.tasks[id].category].remove_value(id),
        ),
        overdue: v.overdue.remove(id),
    }
}

/// Removal where the id may be absent: absent ids leave the model unchanged.
pub open spec fn spec_drop(v: ToDoV, id: u128) -> ToDoV {
    if v.tasks.contains_key(id) {
        spec_remove(v, id)
    } else {
        v
    }
}

/// Whether a task's due date has already passed as of `now` (non-strict:
/// a task due exactly now counts as passed, as the insertion check has it).
pub open spec fn due_passed(t: TaskV, now: Timestamp) -> bool {
    t.due_date matches Some(d) && d.as_secs() <= now.as_secs()
}

/// Setting a task's completion flag in the store's model.
pub open spec fn spec_set_done(v: ToDoV, id: u128, b: bool) -> ToDoV
    recommends
        v.tasks.contains_key(id),
{
    ToDoV { tasks: v.tasks.insert(id, TaskV { finished: b, ..v.tasks[id] }), ..v }
}

/// Marking a task overdue in the store's model.
pub open spec fn spec_mark_overdue(v: ToDoV, id: u128) -> ToDoV {
    ToDoV { overdue: v.overdue.insert(id), ..v }
}

/// One recurrence cycle applied to a stored task in the store's model: the
/// due date advances by the calculator and the completion flag clears.
pub open spec fn spec_advance(v: ToDoV, id: u128, reference: int) -> ToDoV
    recommends
        v.tasks.contains_key(id),
{
    let t = v.tasks[id];
    let nd = crate::tasks::advanced_due(t.due_date->Some_0, t.repeat->Some_0, reference);
    ToDoV {
        tasks: v.tasks.insert(id, TaskV { due_date: Some(nd), finished: false, ..t }),
        ..v
    }
}

/// Loading a task list into an empty store at time `now`: each task in turn
/// is inserted as `add_task_at` does it.
pub open spec fn spec_load(ts: Seq<TaskV>, now: Timestamp) -> ToDoV
    decreases ts.len(),
{
    if ts.len() == 0 {
        ToDoV {
            order: Seq::empty(),
            tasks: Map::empty(),
            categories: Map::empty(),
            overdue: Set::empty(),
        }
    } else {
        let prev = spec_load(ts.drop_last(), now);
        spec_add(spec_drop(prev, ts.last().id), ts.last(), due_passed(ts.last(), now))
    }
}

/// How many of the tasks named by `ids` are finished.
pub open spec fn count_finished(v: ToDoV, ids: Seq<u128>) -> int
    decreases ids.len(),
{
    if ids.len() == 0 {
        0
    } else {
        count_finished(v, ids.drop_last()) + (if v.tasks[ids.last()].finished {
            1int
        } else {
            0int
        })
    }
}

/// Total of the minute estimates over a task list.
spec fn est_total(s: Seq<Task>) -> int
    decreases s.len(),
{
    if s.len() == 0 {
        0
    } else {
        est_total(s.drop_last()) + s.last()@.est_minutes
    }
}

/// How many tasks of a list are finished.
spec fn finished_total(s: Seq<Task>) -> int
    decreases s.len(),
{
    if s.len() == 0 {
        0
    } else {
        finished_total(s.drop_last()) + (if s.last()@.finished {
            1int
        } else {
            0int
        })
    }
}

/// The in-memory task store. All access goes through its operations, which
/// keep the category and overdue indices in step with the task collection.
#[derive(Debug)]
pub struct ToDo {
    tasks: Vec<Task>,
    categories: Vec<Bucket>,
    overdue: Vec<u128>,
}

impl View for ToDo {
    type V = ToDoV;

    closed spec fn view(&self) -> ToDoV {
        ToDoV {
            order: ids_of(self.tasks@),
            tasks: Map::new(
                |id: u128| ids_of(self.tasks@).contains(id),
                |id: u128| self.tasks@[task_index(self.tasks@, id)]@,
            ),
            categories: Map::new(
                |lab: Option<Seq<char>>|
                    exists|j: int|
                        0 <= j < self.categories@.len() && self.categories@[j].label_view() == lab,
                |lab: Option<Seq<char>>|
                    self.categories@[bucket_index(self.categories@, lab)].ids@,
            ),
            overdue: self.overdue@.to_set(),
        }
    }
}

impl ToDo {
    /// The store's concrete well-formedness: what `inv` states of the
    /// model, read off the vectors, plus unique bucket labels.
    pub closed spec fn wf(&self) -> bool {
        &&& ids_of(self.tasks@).no_duplicates()
        &&& forall|i: int| 0 <= i < self.tasks@.len() ==> (#[trigger] self.tasks@[i])@.wf()
        &&& forall|j1: int, j2: int|
            0 <= j1 < j2 < self.categories@.len() ==> (#[trigger] self.categories@[j1].label_view())
                != (#[trigger] self.categories@[j2].label_view())
    &&& buckets_nodup(self.categories@)
    &&& buckets_linked(self.tasks@, self.categories@)
    &&& tasks_bucketed(self.tasks@, self.categories@)
    &&& self.overdue@.no_duplicates()
    &&& forall|k: int|
            0 <= k < self.overdue@.len() ==> ids_of(self.tasks@).contains(
                #[trigger] self.overdue@[k],
            )
    }

    /// An empty store.
    pub fn new() -> (r: ToDo)
        ensures
            r.wf(),
            r@.order == Seq::<u128>::empty(),
            r@.tasks == Map::<u128, TaskV>::empty(),
            r@.categories == Map::<Option<Seq<char>>, Seq<u128>>::empty(),
            r@.overdue == Set::<u128>::empty(),
    {
        let r = ToDo { tasks: Vec::new(), categories: Vec::new(), overdue: Vec::new() };
        proof {
            assert(ids_of(r.tasks@) =~= Seq::<u128>::empty());
            assert(r@.tasks =~= Map::<u128, TaskV>::empty());
            assert(r@.categories =~= Map::<Option<Seq<char>>, Seq<u128>>::empty());
            assert(r@.overdue =~= Set::<u128>::empty());
        }
        r
    }

    /// Find the storage index of the task carrying `id`.
    fn find_task(&self, id: u128) -> (r: Option<usize>)
        ensures
            match r {
                Some(i) => i < self.tasks@.len() && self.tasks@[i as int]@.id == id,
                None => !ids_of(self.tasks@).contains(id),
            },
    {
        let mut i: usize = 0;
        while i < self.tasks.len()
            invariant
                i <= self.tasks@.len(),
                forall|k: int| 0 <= k < i ==> (#[trigger] self.tasks@[k])@.id != id,
            decreases self.tasks@.len() - i,
        {
            if self.tasks[i].get_id() == id {
                return Some(i);
            }
            i = i + 1;
        }
        proof {
            assert forall|k: int| 0 <= k < ids_of(self.tasks@).len() implies ids_of(self.tasks@)[k]
                != id by {
                assert(ids_of(self.tasks@)[k] == self.tasks@[k]@.id);
            }
        }
        None
    }

    /// Whether a task with this id is stored.
    pub fn contains_id(&self, id: u128) -> (r: bool)
        ensures
            r == self@.tasks.contains_key(id),
    {
        match self.find_task(id) {
            Some(i) => {
                proof {
                    assert(ids_of(self.tasks@)[i as int] == self.tasks@[i as int]@.id);
                }
                true
            },
            None => false,
        }
    }

    /// The number of tasks in the store.
    pub fn num_tasks(&self) -> (r: usize)
        requires
            self.wf(),
        ensures
            r == self@.tasks.len(),
            r == self@.order.len(),
    {
        proof {
            self.lemma_view_sizes();
        }
        self.tasks.len()
    }

    /// Look a task up by id.
    pub fn get_task(&self, id: u128) -> (r: Option<&Task>)
        requires
            self.wf(),
        ensures
            match r {
                Some(t) => self@.tasks.contains_key(id) && t@ == self@.tasks[id],
                None => !self@.tasks.contains_key(id),
            },
    {
        match self.find_task(id) {
            Some(i) => {
                proof {
                    self.lemma_task_index(i as int);
                }
                Some(&self.tasks[i])
            },
            None => None,
        }
    }

    /// Find the index of the bucket carrying `label`.
    fn find_bucket(&self, label: &Option<String>) -> (r: Option<usize>)
        ensures
            match r {
                Some(j) => j < self.categories@.len() && self.categories@[j as int].label_view()
                    == opt_str_view(*label),
                None => forall|j: int|
                    0 <= j < self.categories@.len() ==> (
                    #[trigger] self.categories@[j].label_view()) != opt_str_view(*label),
            },
    {
        let mut j: usize = 0;
        while j < self.categories.len()
            invariant
                j <= self.categories@.len(),
                forall|k: int|
                    0 <= k < j ==> (#[trigger] self.categories@[k].label_view()) != opt_str_view(
                        *label,
                    ),
            decreases self.categories@.len() - j,
        {
            if opt_str_eq(&self.categories[j].label, label) {
                return Some(j);
            }
            j = j + 1;
        }
        None
    }

    /// With unique bucket labels, `bucket_index` finds exactly position `j`.
    proof fn lemma_bucket_index(&self, j: int)
        requires
            forall|j1: int, j2: int|
                0 <= j1 < j2 < self.categories@.len() ==> (
                #[trigger] self.categories@[j1].label_view()) != (
                #[trigger] self.categories@[j2].label_view()),
            0 <= j < self.categories@.len(),
        ensures
            bucket_index(self.categories@, self.categories@[j].label_view()) == j,
            self@.categories.contains_key(self.categories@[j].label_view()),
            self@.categories[self.categories@[j].label_view()] == self.categories@[j].ids@,
    {
        let lab = self.categories@[j].label_view();
        let j2 = bucket_index(self.categories@, lab);
        assert(0 <= j2 < self.categories@.len() && self.categories@[j2].label_view() == lab);
        if j2 < j {
        } else if j < j2 {
        }
    }

    /// With unique ids, `task_index` finds exactly the position that holds
    /// the id at position `i`.
    proof fn lemma_task_index(&self, i: int)
        requires
            ids_of(self.tasks@).no_duplicates(),
            0 <= i < self.tasks@.len(),
        ensures
            task_index(self.tasks@, self.tasks@[i]@.id) == i,
            self@.tasks.contains_key(self.tasks@[i]@.id),
            self@.tasks[self.tasks@[i]@.id] == self.tasks@[i]@,
    {
        let id = self.tasks@[i]@.id;
        assert(ids_of(self.tasks@)[i] == id);
        let j = task_index(self.tasks@, id);
        assert(0 <= j < self.tasks@.len() && self.tasks@[j]@.id == id);
        assert(ids_of(self.tasks@)[j] == id);
    }

    /// File a task that is not yet stored: append its id to its category's
    /// bucket (creating the bucket where none exists), mark it overdue where
    /// `marked` says so, and store the task.
    fn push_new(&mut self, task: Task, marked: bool)
        requires
            old(self).wf(),
            task@.wf(),
            !old(self)@.tasks.contains_key(task@.id),
        ensures
            final(self).wf(),
            final(self)@ == spec_add(old(self)@, task@, marked),
    {
        let id = task.get_id();
        let cat = task.get_category();
        match self.find_bucket(&cat) {
            Some(j) => {
                proof {
                    self.lemma_bucket_index(j as int);
                }
                let mut b = self.categories.remove(j);
                b.ids.push(id);
                self.categories.insert(j, b);
            },
            None => {
                let mut ids: Vec<u128> = Vec::new();
                ids.push(id);
                self.categories.push(Bucket { label: cat, ids });
            },
        }
        if marked {
            self.overdue.push(id);
        }
        self.tasks.push(task);
        proof {
            assert(cats_after(old(self).categories@, self.categories@, task@.category, task@.id));
            self.lemma_after_push(*old(self), task, marked);
        }
    }

    /// After `push_new`'s mutations, the store's value is `spec_add` of the
    /// old value and the store is well-formed again.
    proof fn lemma_after_push(&self, pre: ToDo, task: Task, marked: bool)
        requires
            pre.wf(),
            task@.wf(),
            !pre@.tasks.contains_key(task@.id),
            self.tasks@ == pre.tasks@.push(task),
            self.overdue@ == if marked {
                pre.overdue@.push(task@.id)
            } else {
                pre.overdue@
            },
            cats_after(pre.categories@, self.categories@, task@.category, task@.id),
        ensures
            self.wf(),
            self@ == spec_add(pre@, task@, marked),
    {
        let id = task@.id;
        let catv = task@.category;
        assert(!ids_of(pre.tasks@).contains(id));
        assert(ids_of(self.tasks@) =~= ids_of(pre.tasks@).push(id));
        assert(forall|i: int|
            0 <= i < pre.tasks@.len() ==> (#[trigger] self.tasks@[i]) == pre.tasks@[i]);
        // ids stay unique
        assert(ids_of(self.tasks@).no_duplicates()) by {
            let s = ids_of(self.tasks@);
            assert forall|i: int, k: int| 0 <= i < k < s.len() implies s[i] != s[k] by {
                assert(ids_of(pre.tasks@)[i] == s[i]);
                if k < s.len() - 1 {
                } else {
                    assert(ids_of(pre.tasks@).contains(s[i]));
                }
            }
        }
        // no old bucket held the fresh id
        assert forall|j: int| 0 <= j < pre.categories@.len() implies !(
        #[trigger] pre.categories@[j].ids@.contains(id)) by {
            if pre.categories@[j].ids@.contains(id) {
                let k = choose|k: int|
                    0 <= k < pre.categories@[j].ids@.len() && pre.categories@[j].ids@[k] == id;
                let i = choose|i: int|
                    0 <= i < pre.tasks@.len() && (#[trigger] pre.tasks@[i])@.id
                        == pre.categories@[j].ids@[k] && pre.tasks@[i]@.category
                        == pre.categories@[j].label_view();
                assert(ids_of(pre.tasks@)[i] == id);
            }
        }
        self.lemma_after_push_wf(pre, task, marked);
        self.lemma_after_push_view(pre, task, marked);
    }

    /// The well-formedness clauses that tie buckets and tasks together,
    /// after `push_new`'s mutations.
    #[verifier::rlimit(60)]
    proof fn lemma_after_push_wf(&self, pre: ToDo, task: Task, marked: bool)
        requires
            pre.wf(),
            task@.wf(),
            !ids_of(pre.tasks@).contains(task@.id),
            forall|j: int|
                0 <= j < pre.categories@.len() ==> !(#[trigger] pre.categories@[j].ids@.contains(
                    task@.id,
                )),
            self.tasks@ == pre.tasks@.push(task),
            ids_of(self.tasks@).no_duplicates(),
            self.overdue@ == if marked {
                pre.overdue@.push(task@.id)
            } else {
                pre.overdue@
            },
            cats_after(pre.categories@, self.categories@, task@.category, task@.id),
        ensures
            self.wf(),
    {
        let id = task@.id;
        let catv = task@.category;
        let jn: int = if has_label(pre.categories@, catv) {
            bucket_index(pre.categories@, catv)
        } else {
            pre.categories@.len() as int
        };
        assert(forall|i: int|
            0 <= i < pre.tasks@.len() ==> (#[trigger] self.tasks@[i]) == pre.tasks@[i]);
        assert(self.tasks@[pre.tasks@.len() as int] == task);
        if has_label(pre.categories@, catv) {
            assert(0 <= jn < pre.categories@.len() && pre.categories@[jn].label_view() == catv);
        }
        // labels stay distinct
        assert forall|j1: int, j2: int|
            0 <= j1 < j2 < self.categories@.len() implies (
        #[trigger] self.categories@[j1].label_view()) != (
        #[trigger] self.categories@[j2].label_view()) by {
            if j2 < pre.categories@.len() {
                assert(self.categories@[j1].label_view() == pre.categories@[j1].label_view());
                assert(self.categories@[j2].label_view() == pre.categories@[j2].label_view());
            } else if j2 >= pre.categories@.len() {
                // j2 is the fresh bucket; its label is catv, which no old bucket has
                assert(self.categories@[j1].label_view() == pre.categories@[j1].label_view());
                assert(self.categories@[j2].label_view() == catv);
                assert(!has_label(pre.categories@, catv));
            }
        }
        // each bucket's ids stay unique
        assert(buckets_nodup(self.categories@)) by {
            assert forall|j2: int|
                0 <= j2 < self.categories@.len() implies (
            #[trigger] self.categories@[j2]).ids@.no_duplicates() by {
                if j2 != jn {
                    assert(self.categories@[j2].ids@ == pre.categories@[j2].ids@);
                } else {
                    let old_ids: Seq<u128> = if jn < pre.categories@.len() {
                        pre.categories@[jn].ids@
                    } else {
                        Seq::empty()
                    };
                    assert(self.categories@[j2].ids@ == old_ids.push(id));
                    assert forall|a: int, c: int|
                        0 <= a < c < self.categories@[j2].ids@.len() implies self.categories@[j2].ids@[a]
                        != self.categories@[j2].ids@[c] by {
                        assert(self.categories@[j2].ids@[a] == old_ids[a]);
                        if c < self.categories@[j2].ids@.len() - 1 {
                        } else {
                            assert(old_ids.contains(old_ids[a]));
                        }
                    }
                }
            }
        }
        // each bucket id is a stored task's id carrying the bucket's label
        assert(buckets_linked(self.tasks@, self.categories@)) by {
            assert forall|j2: int, k2: int| #![trigger self.categories@[j2].ids@[k2]]
                0 <= j2 < self.categories@.len() && 0 <= k2 < self.categories@[j2].ids@.len()
                    implies bucket_entry_ok(self.tasks@, self.categories@, j2, k2) by {
                if j2 != jn {
                    assert(self.categories@[j2].ids@ == pre.categories@[j2].ids@);
                    assert(self.categories@[j2].label_view() == pre.categories@[j2].label_view());
                    let i0 = choose|i2: int|
                        0 <= i2 < pre.tasks@.len() && (#[trigger] pre.tasks@[i2])@.id
                            == pre.categories@[j2].ids@[k2] && pre.tasks@[i2]@.category
                            == pre.categories@[j2].label_view();
                    assert(self.tasks@[i0]@.id == self.categories@[j2].ids@[k2]
                        && self.tasks@[i0]@.category == self.categories@[j2].label_view());
                } else {
                    assert(self.categories@[j2].label_view() == catv);
                    if k2 < self.categories@[j2].ids@.len() - 1 {
                        assert(has_label(pre.categories@, catv));
                        assert(self.categories@[j2].ids@[k2] == pre.categories@[jn].ids@[k2]);
                        let i0 = choose|i2: int|
                            0 <= i2 < pre.tasks@.len() && (#[trigger] pre.tasks@[i2])@.id
                                == pre.categories@[jn].ids@[k2] && pre.tasks@[i2]@.category
                                == pre.categories@[jn].label_view();
                        assert(self.tasks@[i0]@.id == self.categories@[j2].ids@[k2]
                            && self.tasks@[i0]@.category == self.categories@[j2].label_view());
                    } else {
                        let i0 = pre.tasks@.len() as int;
                        assert(self.categories@[j2].ids@[k2] == id);
                        assert(self.tasks@[i0]@.id == id && self.tasks@[i0]@.category == catv);
                        assert(self.tasks@[i0]@.id == self.categories@[j2].ids@[k2]
                            && self.tasks@[i0]@.category == self.categories@[j2].label_view());
                    }
                }
                assert(bucket_entry_ok(self.tasks@, self.categories@, j2, k2));
            }
        }
        // every task's id lies in the bucket of its own category
        assert(tasks_bucketed(self.tasks@, self.categories@)) by {
            assert forall|i2: int| #![trigger self.tasks@[i2]]
                0 <= i2 < self.tasks@.len() implies exists|j2: int|
                0 <= j2 < self.categories@.len() && self.categories@[j2].label_view()
                    == self.tasks@[i2]@.category && self.categories@[j2].ids@.contains(
                self.tasks@[i2]@.id,
            ) by {
                if i2 < pre.tasks@.len() {
                    let j0 = choose|j2: int|
                        0 <= j2 < pre.categories@.len() && pre.categories@[j2].label_view() == (
                        #[trigger] pre.tasks@[i2])@.category && pre.categories@[j2].ids@.contains(
                            pre.tasks@[i2]@.id,
                        );
                    if j0 == jn {
                        let k0 = choose|k2: int|
                            0 <= k2 < pre.categories@[j0].ids@.len() && pre.categories@[j0].ids@[k2]
                                == pre.tasks@[i2]@.id;
                        assert(self.categories@[j0].ids@[k0] == pre.tasks@[i2]@.id);
                        assert(self.categories@[j0].label_view() == self.tasks@[i2]@.category);
                        assert(self.categories@[j0].ids@.contains(self.tasks@[i2]@.id));
                    } else {
                        assert(self.categories@[j0].label_view() == pre.categories@[j0].label_view()
                            && self.categories@[j0].ids@ == pre.categories@[j0].ids@);
                    }
                } else {
                    assert(self.categories@[jn].ids@[self.categories@[jn].ids@.len() - 1] == id);
                    assert(self.categories@[jn].ids@.contains(id));
                    assert(self.categories@[jn].label_view() == catv);
                }
            }
        }

        // the overdue list stays unique and keeps pointing at stored tasks
        assert(self.overdue@.no_duplicates()) by {
            if marked {
                assert forall|k1: int, k2: int|
                    0 <= k1 < k2 < self.overdue@.len() implies self.overdue@[k1]
                    != self.overdue@[k2] by {
                    assert(self.overdue@[k1] == pre.overdue@[k1]);
                    if k2 < self.overdue@.len() - 1 {
                    } else {
                        assert(ids_of(pre.tasks@).contains(pre.overdue@[k1]));
                    }
                }
            }
        }
        assert forall|k: int| 0 <= k < self.overdue@.len() implies ids_of(self.tasks@).contains(
            #[trigger] self.overdue@[k],
        ) by {
            if marked && k == self.overdue@.len() - 1 {
                assert(ids_of(self.tasks@)[ids_of(self.tasks@).len() - 1] == id);
            } else {
                assert(self.overdue@[k] == pre.overdue@[k]);
                let m = choose|m: int|
                    0 <= m < ids_of(pre.tasks@).len() && ids_of(pre.tasks@)[m] == pre.overdue@[k];
                assert(ids_of(self.tasks@)[m] == pre.overdue@[k]);
            }
        }
    }

    /// The view after `push_new`'s mutations equals `spec_add`.
    #[verifier::rlimit(60)]
    proof fn lemma_after_push_view(&self, pre: ToDo, task: Task, marked: bool)
        requires
            pre.wf(),
            self.wf(),
            task@.wf(),
            !pre@.tasks.contains_key(task@.id),
            self.tasks@ == pre.tasks@.push(task),
            self.overdue@ == if marked {
                pre.overdue@.push(task@.id)
            } else {
                pre.overdue@
            },
            cats_after(pre.categories@, self.categories@, task@.category, task@.id),
        ensures
            self@ == spec_add(pre@, task@, marked),
    {
        let id = task@.id;
        let catv = task@.category;
        assert(ids_of(self.tasks@) =~= ids_of(pre.tasks@).push(id));
        assert(forall|i: int|
            0 <= i < pre.tasks@.len() ==> (#[trigger] self.tasks@[i]) == pre.tasks@[i]);
        assert(self@.tasks =~= pre@.tasks.insert(id, task@)) by {
            assert forall|x: u128| #[trigger]
                self@.tasks.contains_key(x) implies pre@.tasks.insert(id, task@).contains_key(x)
                && self@.tasks[x] == pre@.tasks.insert(id, task@)[x] by {
                let i = choose|i: int|
                    0 <= i < self.tasks@.len() && (#[trigger] self.tasks@[i])@.id == x;
                if x == id {
                    self.lemma_task_index(pre.tasks@.len() as int);
                } else {
                    assert(i < pre.tasks@.len() && ids_of(pre.tasks@)[i] == x);
                    self.lemma_task_index(i);
                    pre.lemma_task_index(i);
                }
            }
            assert forall|x: u128| #[trigger]
                pre@.tasks.insert(id, task@).contains_key(x) implies self@.tasks.contains_key(
                x,
            ) by {
                if x == id {
                    assert(ids_of(self.tasks@)[self.tasks@.len() - 1] == id);
                } else {
                    let i = choose|i: int|
                        0 <= i < ids_of(pre.tasks@).len() && ids_of(pre.tasks@)[i] == x;
                    assert(ids_of(self.tasks@)[i] == x);
                }
            }
        }
        let jn: int = if has_label(pre.categories@, catv) {
            bucket_index(pre.categories@, catv)
        } else {
            pre.categories@.len() as int
        };
        if has_label(pre.categories@, catv) {
            pre.lemma_bucket_index(jn);
        } else {
            assert(!pre@.categories.contains_key(catv));
            assert(bucket_or_empty(pre@, catv) =~= Seq::<u128>::empty());
        }
        assert(self.categories@[jn].label_view() == catv);
        assert(self@.categories =~= pre@.categories.insert(
            catv,
            bucket_or_empty(pre@, catv).push(id),
        )) by {
            let target = pre@.categories.insert(catv, bucket_or_empty(pre@, catv).push(id));
            assert forall|lab: Option<Seq<char>>| #[trigger]
                self@.categories.contains_key(lab) implies target.contains_key(lab)
                && self@.categories[lab] == target[lab] by {
                let j = choose|j: int|
                    0 <= j < self.categories@.len() && (
                    #[trigger] self.categories@[j].label_view()) == lab;
                self.lemma_bucket_index(j);
                if j == jn {
                    assert(lab == catv);
                } else {
                    assert(self.categories@[j].label_view() == pre.categories@[j].label_view()
                        && self.categories@[j].ids@ == pre.categories@[j].ids@);
                    pre.lemma_bucket_index(j);
                    assert(lab != catv);
                }
            }
            assert forall|lab: Option<Seq<char>>| #[trigger]
                target.contains_key(lab) implies self@.categories.contains_key(lab) by {
                if lab == catv {
                    assert(self.categories@[jn].label_view() == catv);
                } else {
                    let j = choose|j: int|
                        0 <= j < pre.categories@.len() && (
                        #[trigger] pre.categories@[j].label_view()) == lab;
                    assert(self.categories@[j].label_view() == lab);
                }
            }
        }
        assert(self@.overdue =~= if marked {
            pre@.overdue.insert(id)
        } else {
            pre@.overdue
        }) by {
            if marked {
                assert forall|x: u128| #[trigger]
                    self.overdue@.to_set().contains(x) implies pre@.overdue.insert(id).contains(
                    x,
                ) by {
                    let k = choose|k: int|
                        0 <= k < self.overdue@.len() && self.overdue@[k] == x;
                    if k < self.overdue@.len() - 1 {
                        assert(pre.overdue@[k] == x);
                    }
                }
                assert forall|x: u128| #[trigger]
                    pre@.overdue.insert(id).contains(x) implies self.overdue@.to_set().contains(
                    x,
                ) by {
                    if x == id {
                        assert(self.overdue@[self.overdue@.len() - 1] == id);
                    } else {
                        let k = choose|k: int|
                            0 <= k < pre.overdue@.len() && pre.overdue@[k] == x;
                        assert(self.overdue@[k] == x);
                    }
                }
            }
        }
        assert(self@ =~= spec_add(pre@, task@, marked));
    }


    /// Take the task at storage index `i` out of the store, scrubbing its
    /// id from its category's bucket and from the overdue index.
    fn take_out(&mut self, i: usize) -> (r: Task)
        requires
            old(self).wf(),
            i < old(self).tasks@.len(),
        ensures
            final(self).wf(),
            r@ == old(self)@.tasks[r@.id],
            r@.id == old(self)@.order[i as int],
            old(self)@.tasks.contains_key(r@.id),
            final(self)@ == spec_remove(old(self)@, r@.id),
    {
        proof {
            self.lemma_task_index(i as int);
            assert(ids_of(self.tasks@)[i as int] == self.tasks@[i as int]@.id);
        }
        let t = self.tasks.remove(i);
        let id = t.get_id();
        let cat = t.get_category();
        let jopt = self.find_bucket(&cat);
        proof {
            old(self).tasks@.remove_ensures(i as int);
            let j0 = choose|j: int|
                0 <= j < old(self).categories@.len() && old(self).categories@[j].label_view() == (
                old(self).tasks@[i as int])@.category && old(self).categories@[j].ids@.contains(
                    old(self).tasks@[i as int]@.id,
                );
            assert(self.categories@[j0].label_view() == opt_str_view(cat));
            assert(jopt is Some);
        }
        let j = jopt.unwrap();
        let mut b = self.categories.remove(j);
        let kopt = find_id(&b.ids, id);
        proof {
            let j0 = choose|j2: int|
                0 <= j2 < old(self).categories@.len() && old(self).categories@[j2].label_view() == (
                old(self).tasks@[i as int])@.category && old(self).categories@[j2].ids@.contains(
                    old(self).tasks@[i as int]@.id,
                );
            old(self).lemma_bucket_index(j0);
            old(self).lemma_bucket_index(j as int);
            assert(j0 == j as int);
            assert(b.ids@.contains(id));
            assert(kopt is Some);
        }
        let k = kopt.unwrap();
        b.ids.remove(k);
        self.categories.insert(j, b);
        proof {
            assert(self.categories@ =~= old(self).categories@.update(j as int, self.categories@[j as int]));
            assert(self.categories@[j as int].ids@ == old(self).categories@[j as int].ids@.remove(
                k as int,
            ));
            assert(self.categories@[j as int].label_view() == old(self).categories@[j as int].label_view());
        }
        let mopt = find_id(&self.overdue, id);
        proof {
            let s = self.overdue@;
            match mopt {
                Some(m) => {
                    assert(s.contains(id));
                    let mi = s.index_of(id);
                    assert(0 <= mi < s.len() && s[mi] == id);
                    assert(s[m as int] == id);
                    assert(mi == m as int);
                },
                None => {},
            }
        }
        match mopt {
            Some(m) => {
                self.overdue.remove(m);
            },
            None => {},
        }
        proof {
            self.lemma_after_take(*old(self), i as int, j as int, k as int, t);
        }
        t
    }

    /// After `take_out`'s mutations, the store's value is `spec_remove` of
    /// the old value and the store is well-formed again.
    #[verifier::spinoff_prover]
    #[verifier::rlimit(50)]
    proof fn lemma_after_take(&self, pre: ToDo, i: int, j: int, k: int, t: Task)
        requires
            pre.wf(),
            0 <= i < pre.tasks@.len(),
            t == pre.tasks@[i],
            0 <= j < pre.categories@.len(),
            pre.categories@[j].label_view() == t@.category,
            0 <= k < pre.categories@[j].ids@.len(),
            pre.categories@[j].ids@[k] == t@.id,
            forall|m: int| 0 <= m < k ==> pre.categories@[j].ids@[m] != t@.id,
            self.tasks@ == pre.tasks@.remove(i),
            self.categories@.len() == pre.categories@.len(),
            forall|j2: int|
                0 <= j2 < pre.categories@.len() && j2 != j ==> (#[trigger] self.categories@[j2])
                    == pre.categories@[j2],
            self.categories@[j].label_view() == t@.category,
            self.categories@[j].ids@ == pre.categories@[j].ids@.remove(k),
            self.overdue@ == if pre.overdue@.contains(t@.id) {
                pre.overdue@.remove(pre.overdue@.index_of(t@.id))
            } else {
                pre.overdue@
            },
        ensures
            self.wf(),
            self@ == spec_remove(pre@, t@.id),
    {
        let id = t@.id;
        let catv = t@.category;
        pre.lemma_task_index(i);
        pre.lemma_bucket_index(j);
        pre.tasks@.remove_ensures(i);
        assert(ids_of(self.tasks@) =~= ids_of(pre.tasks@).remove(i));
        ids_of(pre.tasks@).remove_ensures(i);
        // each stored id other than the removed one survives at a shifted index
        assert forall|i2: int| 0 <= i2 < pre.tasks@.len() && i2 != i implies ids_of(
            self.tasks@,
        ).contains((#[trigger] pre.tasks@[i2])@.id) by {
            if i2 < i {
                assert(ids_of(self.tasks@)[i2] == ids_of(pre.tasks@)[i2]);
            } else {
                assert(ids_of(self.tasks@)[i2 - 1] == ids_of(pre.tasks@)[i2]);
            }
        }
        // ids stay unique, and the removed id is gone
        assert(ids_of(self.tasks@).no_duplicates()) by {
            assert forall|a: int, b: int|
                0 <= a < b < ids_of(self.tasks@).len() implies ids_of(self.tasks@)[a] != ids_of(
                self.tasks@,
            )[b] by {
                let a0 = if a < i {
                    a
                } else {
                    a + 1
                };
                let b0 = if b < i {
                    b
                } else {
                    b + 1
                };
                assert(ids_of(self.tasks@)[a] == ids_of(pre.tasks@)[a0]);
                assert(ids_of(self.tasks@)[b] == ids_of(pre.tasks@)[b0]);
            }
        }
        assert(!ids_of(self.tasks@).contains(id)) by {
            if ids_of(self.tasks@).contains(id) {
                let a = choose|a: int|
                    0 <= a < ids_of(self.tasks@).len() && ids_of(self.tasks@)[a] == id;
                let a0 = if a < i {
                    a
                } else {
                    a + 1
                };
                assert(ids_of(pre.tasks@)[a0] == id);
                assert(ids_of(pre.tasks@)[i] == id);
            }
        }
        // the removed id appeared in no bucket but bucket `j`
        assert forall|j2: int|
            0 <= j2 < pre.categories@.len() && j2 != j implies !(
        #[trigger] pre.categories@[j2].ids@.contains(id)) by {
            if pre.categories@[j2].ids@.contains(id) {
                let k2 = choose|k2: int|
                    0 <= k2 < pre.categories@[j2].ids@.len() && pre.categories@[j2].ids@[k2] == id;
                let i2 = choose|i2: int|
                    0 <= i2 < pre.tasks@.len() && (#[trigger] pre.tasks@[i2])@.id
                        == pre.categories@[j2].ids@[k2] && pre.tasks@[i2]@.category
                        == pre.categories@[j2].label_view();
                assert(ids_of(pre.tasks@)[i2] == id && ids_of(pre.tasks@)[i] == id);
                assert(i2 == i);
                assert(pre.categories@[j2].label_view() == catv);
                pre.lemma_bucket_index(j2);
            }
        }
        // and only once in bucket `j`
        assert forall|m: int|
            0 <= m < pre.categories@[j].ids@.len() && m != k implies (
        #[trigger] pre.categories@[j].ids@[m]) != id by {
            assert(pre.categories@[j].ids@[k] == id);
        }
        self.lemma_after_take_wf(pre, i, j, k, t);
        self.lemma_after_take_view(pre, i, j, k, t);
    }

    /// The well-formedness clauses after `take_out`'s mutations.
    #[verifier::spinoff_prover]
    #[verifier::rlimit(50)]
    proof fn lemma_after_take_wf(&self, pre: ToDo, i: int, j: int, k: int, t: Task)
        requires
            pre.wf(),
            0 <= i < pre.tasks@.len(),
            t == pre.tasks@[i],
            0 <= j < pre.categories@.len(),
            pre.categories@[j].label_view() == t@.category,
            0 <= k < pre.categories@[j].ids@.len(),
            pre.categories@[j].ids@[k] == t@.id,
            self.tasks@ == pre.tasks@.remove(i),
            self.categories@.len() == pre.categories@.len(),
            forall|j2: int|
                0 <= j2 < pre.categories@.len() && j2 != j ==> (#[trigger] self.categories@[j2])
                    == pre.categories@[j2],
            self.categories@[j].label_view() == t@.category,
            self.categories@[j].ids@ == pre.categories@[j].ids@.remove(k),
            self.overdue@ == if pre.overdue@.contains(t@.id) {
                pre.overdue@.remove(pre.overdue@.index_of(t@.id))
            } else {
                pre.overdue@
            },
            ids_of(self.tasks@).no_duplicates(),
            !ids_of(self.tasks@).contains(t@.id),
            forall|i2: int|
                0 <= i2 < pre.tasks@.len() && i2 != i ==> ids_of(self.tasks@).contains(
                    (#[trigger] pre.tasks@[i2])@.id,
                ),
            forall|j2: int|
                0 <= j2 < pre.categories@.len() && j2 != j ==> !(
                #[trigger] pre.categories@[j2].ids@.contains(t@.id)),
            forall|m: int|
                0 <= m < pre.categories@[j].ids@.len() && m != k ==> (
                #[trigger] pre.categories@[j].ids@[m]) != t@.id,
        ensures
            self.wf(),
    {
        let id = t@.id;
        pre.tasks@.remove_ensures(i);
        // every remaining task is well-formed
        assert forall|i2: int|
            0 <= i2 < self.tasks@.len() implies (#[trigger] self.tasks@[i2])@.wf() by {
            if i2 < i {
                assert(self.tasks@[i2] == pre.tasks@[i2]);
            } else {
                assert(self.tasks@[i2] == pre.tasks@[i2 + 1]);
            }
        }
        // labels are untouched, so they stay distinct
        assert(forall|j2: int|
            0 <= j2 < self.categories@.len() ==> (#[trigger] self.categories@[j2].label_view())
                == pre.categories@[j2].label_view());
        self.lemma_after_take_wf_buckets(pre, i, j, k, t);
        self.lemma_after_take_wf_tasks(pre, i, j, k, t);
        self.lemma_after_take_wf_overdue(pre, i, j, k, t);
    }

    /// The overdue list after `take_out`: unique survivors, all stored.
    #[verifier::spinoff_prover]
    #[verifier::rlimit(50)]
    proof fn lemma_after_take_wf_overdue(&self, pre: ToDo, i: int, j: int, k: int, t: Task)
        requires
            pre.overdue@.no_duplicates(),
            forall|k2: int|
                0 <= k2 < pre.overdue@.len() ==> ids_of(pre.tasks@).contains(
                    #[trigger] pre.overdue@[k2],
                ),
            0 <= i < pre.tasks@.len(),
            t == pre.tasks@[i],
            ids_of(pre.tasks@).no_duplicates(),
            ids_of(pre.tasks@)[i] == t@.id,
            self.tasks@ == pre.tasks@.remove(i),
            self.overdue@ == if pre.overdue@.contains(t@.id) {
                pre.overdue@.remove(pre.overdue@.index_of(t@.id))
            } else {
                pre.overdue@
            },
            !ids_of(self.tasks@).contains(t@.id),
            forall|i2: int|
                0 <= i2 < pre.tasks@.len() && i2 != i ==> ids_of(self.tasks@).contains(
                    (#[trigger] pre.tasks@[i2])@.id,
                ),
        ensures
            self.overdue@.no_duplicates(),
            forall|k2: int|
                0 <= k2 < self.overdue@.len() ==> ids_of(self.tasks@).contains(
                    #[trigger] self.overdue@[k2],
                ),
    {
        let id = t@.id;
        if pre.overdue@.contains(id) {
            let m = pre.overdue@.index_of(id);
            assert(0 <= m < pre.overdue@.len() && pre.overdue@[m] == id);
            assert(self.overdue@ == pre.overdue@.remove(m));
            pre.overdue@.remove_ensures(m);
            assert(self.overdue@.no_duplicates()) by {
                assert forall|a: int, c: int|
                    0 <= a < c < self.overdue@.len() implies self.overdue@[a]
                    != self.overdue@[c] by {
                    let a0 = if a < m {
                        a
                    } else {
                        a + 1
                    };
                    let c0 = if c < m {
                        c
                    } else {
                        c + 1
                    };
                    assert(self.overdue@[a] == pre.overdue@[a0] && self.overdue@[c]
                        == pre.overdue@[c0]);
                }
            }
            assert forall|k2: int|
                0 <= k2 < self.overdue@.len() implies ids_of(self.tasks@).contains(
                #[trigger] self.overdue@[k2],
            ) by {
                let k0 = if k2 < m {
                    k2
                } else {
                    k2 + 1
                };
                assert(self.overdue@[k2] == pre.overdue@[k0]);
                assert(pre.overdue@[k0] != id) by {
                    if k0 != m && pre.overdue@[k0] == pre.overdue@[m] {
                        assert(false);
                    }
                }
                let i0 = choose|i2: int|
                    0 <= i2 < ids_of(pre.tasks@).len() && ids_of(pre.tasks@)[i2]
                        == pre.overdue@[k0];
                assert(pre.tasks@[i0]@.id == pre.overdue@[k0]);
                assert(i0 != i);
                assert(ids_of(self.tasks@).contains(pre.tasks@[i0]@.id));
            }
        } else {
            assert forall|k2: int|
                0 <= k2 < self.overdue@.len() implies ids_of(self.tasks@).contains(
                #[trigger] self.overdue@[k2],
            ) by {
                assert(self.overdue@[k2] != id);
                let i0 = choose|i2: int|
                    0 <= i2 < ids_of(pre.tasks@).len() && ids_of(pre.tasks@)[i2]
                        == self.overdue@[k2];
                assert(pre.tasks@[i0]@.id == self.overdue@[k2]);
                assert(i0 != i);
                assert(ids_of(self.tasks@).contains(pre.tasks@[i0]@.id));
            }
        }
    }

    /// Buckets keep unique ids that point at stored tasks with the
    /// bucket's label, after `take_out`'s mutations.
    #[verifier::rlimit(80)]
    proof fn lemma_after_take_wf_buckets(&self, pre: ToDo, i: int, j: int, k: int, t: Task)
        requires
            buckets_nodup(pre.categories@),
            buckets_linked(pre.tasks@, pre.categories@),
            0 <= i < pre.tasks@.len(),
            t == pre.tasks@[i],
            0 <= j < pre.categories@.len(),
            pre.categories@[j].label_view() == t@.category,
            0 <= k < pre.categories@[j].ids@.len(),
            pre.categories@[j].ids@[k] == t@.id,
            self.tasks@ == pre.tasks@.remove(i),
            self.categories@.len() == pre.categories@.len(),
            forall|j2: int|
                0 <= j2 < pre.categories@.len() && j2 != j ==> (#[trigger] self.categories@[j2])
                    == pre.categories@[j2],
            self.categories@[j].label_view() == t@.category,
            self.categories@[j].ids@ == pre.categories@[j].ids@.remove(k),
            forall|j2: int|
                0 <= j2 < pre.categories@.len() && j2 != j ==> !(
                #[trigger] pre.categories@[j2].ids@.contains(t@.id)),
            forall|m: int|
                0 <= m < pre.categories@[j].ids@.len() && m != k ==> (
                #[trigger] pre.categories@[j].ids@[m]) != t@.id,
        ensures
            buckets_nodup(self.categories@),
            buckets_linked(self.tasks@, self.categories@),
    {
        let id = t@.id;
        pre.tasks@.remove_ensures(i);
        pre.categories@[j].ids@.remove_ensures(k);
        assert(buckets_nodup(self.categories@)) by {
            assert forall|j2: int|
                0 <= j2 < self.categories@.len() implies (
            #[trigger] self.categories@[j2]).ids@.no_duplicates() by {
                if j2 == j {
                    assert forall|a: int, c: int|
                        0 <= a < c < self.categories@[j2].ids@.len() implies self.categories@[j2].ids@[a]
                        != self.categories@[j2].ids@[c] by {
                        let a0 = if a < k {
                            a
                        } else {
                            a + 1
                        };
                        let c0 = if c < k {
                            c
                        } else {
                            c + 1
                        };
                        assert(self.categories@[j2].ids@[a] == pre.categories@[j2].ids@[a0]
                            && self.categories@[j2].ids@[c] == pre.categories@[j2].ids@[c0]);
                    }
                } else {
                    assert(self.categories@[j2] == pre.categories@[j2]);
                }
            }
        }
        assert forall|j2: int, k2: int|
            0 <= j2 < self.categories@.len() && 0 <= k2 < self.categories@[j2].ids@.len()
                implies #[trigger] bucket_entry_ok(self.tasks@, self.categories@, j2, k2) by {
            assert(self.categories@[j2].label_view() == pre.categories@[j2].label_view());
                let k0: int = if j2 != j || k2 < k {
                    k2
                } else {
                    k2 + 1
                };
                assert(0 <= k0 < pre.categories@[j2].ids@.len());
                assert(self.categories@[j2].ids@[k2] == pre.categories@[j2].ids@[k0]);
                assert(pre.categories@[j2].ids@[k0] != id) by {
                    if j2 == j {
                        assert(k0 != k);
                    } else {
                        if pre.categories@[j2].ids@[k0] == id {
                            assert(pre.categories@[j2].ids@.contains(id));
                        }
                    }
                }
                assert(bucket_entry_ok(pre.tasks@, pre.categories@, j2, k0));
                let i0 = choose|i2: int|
                    0 <= i2 < pre.tasks@.len() && (#[trigger] pre.tasks@[i2])@.id == (
                    pre.categories@[j2].ids@[k0]) && pre.tasks@[i2]@.category
                        == pre.categories@[j2].label_view();
                assert(i0 != i) by {
                    assert(pre.tasks@[i]@.id == id);
                }
                let i1: int = if i0 < i {
                    i0
                } else {
                    i0 - 1
                };
                assert(self.tasks@[i1] == pre.tasks@[i0]);
            assert(self.tasks@[i1]@.id == self.categories@[j2].ids@[k2]
                && self.tasks@[i1]@.category == self.categories@[j2].label_view());
            assert(bucket_entry_ok(self.tasks@, self.categories@, j2, k2));
        }
        lemma_linked_intro(self.tasks@, self.categories@);
    }

    /// Every remaining task still sits in the bucket of its own category,
    /// after `take_out`'s mutations.
    #[verifier::spinoff_prover]
    #[verifier::rlimit(50)]
    proof fn lemma_after_take_wf_tasks(&self, pre: ToDo, i: int, j: int, k: int, t: Task)
        requires
            tasks_bucketed(pre.tasks@, pre.categories@),
            ids_of(pre.tasks@).no_duplicates(),
            0 <= i < pre.tasks@.len(),
            t == pre.tasks@[i],
            0 <= j < pre.categories@.len(),
            pre.categories@[j].label_view() == t@.category,
            0 <= k < pre.categories@[j].ids@.len(),
            pre.categories@[j].ids@[k] == t@.id,
            self.tasks@ == pre.tasks@.remove(i),
            self.categories@.len() == pre.categories@.len(),
            forall|j2: int|
                0 <= j2 < pre.categories@.len() && j2 != j ==> (#[trigger] self.categories@[j2])
                    == pre.categories@[j2],
            self.categories@[j].label_view() == t@.category,
            self.categories@[j].ids@ == pre.categories@[j].ids@.remove(k),
            ids_of(self.tasks@).no_duplicates(),
            !ids_of(self.tasks@).contains(t@.id),
        ensures
            tasks_bucketed(self.tasks@, self.categories@),
    {
        let id = t@.id;
        pre.tasks@.remove_ensures(i);
        pre.categories@[j].ids@.remove_ensures(k);
        assert(tasks_bucketed(self.tasks@, self.categories@)) by {
            assert forall|i2: int| #![trigger self.tasks@[i2]]
                0 <= i2 < self.tasks@.len() implies exists|j2: int|
                0 <= j2 < self.categories@.len() && self.categories@[j2].label_view()
                    == self.tasks@[i2]@.category && self.categories@[j2].ids@.contains(
                self.tasks@[i2]@.id,
            ) by {
                let i0 = if i2 < i {
                    i2
                } else {
                    i2 + 1
                };
                assert(self.tasks@[i2] == pre.tasks@[i0]);
                let x = pre.tasks@[i0]@.id;
                assert(x != id) by {
                    assert(ids_of(self.tasks@)[i2] == x);
                }
                let j0 = choose|j2: int|
                    0 <= j2 < pre.categories@.len() && pre.categories@[j2].label_view() == (
                    #[trigger] pre.tasks@[i0])@.category && pre.categories@[j2].ids@.contains(
                        pre.tasks@[i0]@.id,
                    );
                if j0 == j {
                    let k2 = choose|k3: int|
                        0 <= k3 < pre.categories@[j].ids@.len() && pre.categories@[j].ids@[k3] == x;
                    assert(k2 != k) by {
                        assert(pre.categories@[j].ids@[k] == id);
                    }
                    let k1 = if k2 < k {
                        k2
                    } else {
                        k2 - 1
                    };
                    assert(self.categories@[j].ids@[k1] == x);
                    assert(self.categories@[j].ids@.contains(x));
                    assert(self.categories@[j].label_view() == pre.categories@[j0].label_view());
                } else {
                    assert(self.categories@[j0] == pre.categories@[j0]);
                    assert(self.categories@[j0].ids@.contains(x));
                }
            }
        }
    }


    /// The view after `take_out`'s mutations equals `spec_remove`.
    #[verifier::spinoff_prover]
    #[verifier::rlimit(20)]
    proof fn lemma_after_take_view(&self, pre: ToDo, i: int, j: int, k: int, t: Task)
        requires
            pre.wf(),
            self.wf(),
            0 <= i < pre.tasks@.len(),
            t == pre.tasks@[i],
            0 <= j < pre.categories@.len(),
            pre.categories@[j].label_view() == t@.category,
            0 <= k < pre.categories@[j].ids@.len(),
            pre.categories@[j].ids@[k] == t@.id,
            forall|m: int| 0 <= m < k ==> pre.categories@[j].ids@[m] != t@.id,
            self.tasks@ == pre.tasks@.remove(i),
            self.categories@.len() == pre.categories@.len(),
            forall|j2: int|
                0 <= j2 < pre.categories@.len() && j2 != j ==> (#[trigger] self.categories@[j2])
                    == pre.categories@[j2],
            self.categories@[j].label_view() == t@.category,
            self.categories@[j].ids@ == pre.categories@[j].ids@.remove(k),
            self.overdue@ == if pre.overdue@.contains(t@.id) {
                pre.overdue@.remove(pre.overdue@.index_of(t@.id))
            } else {
                pre.overdue@
            },
            ids_of(self.tasks@).no_duplicates(),
            !ids_of(self.tasks@).contains(t@.id),
        ensures
            self@ == spec_remove(pre@, t@.id),
    {
        let id = t@.id;
        let catv = t@.category;
        pre.lemma_task_index(i);
        pre.lemma_bucket_index(j);
        pre.tasks@.remove_ensures(i);
        pre.categories@[j].ids@.remove_ensures(k);
        assert(pre@.tasks[id] == t@ && pre@.tasks[id].category == catv);
        assert(forall|i2: int|
            0 <= i2 < i ==> (#[trigger] self.tasks@[i2]) == pre.tasks@[i2]);
        assert(forall|i2: int|
            i <= i2 < self.tasks@.len() ==> (#[trigger] self.tasks@[i2]) == pre.tasks@[i2 + 1]);
        // order: removing the task at `i` removes the first occurrence of its id
        assert(self@.order == pre@.order.remove_value(id)) by {
            pre@.order.index_of_first_ensures(id);
            assert(pre@.order.contains(id)) by {
                assert(ids_of(pre.tasks@)[i] == id);
            }
            let mf = pre@.order.index_of_first(id).unwrap();
            assert(pre@.order[mf] == id && ids_of(pre.tasks@)[i] == id);
            assert(mf == i);
            assert(ids_of(self.tasks@) =~= ids_of(pre.tasks@).remove(i));
        }
        // the task map loses exactly the removed id
        assert(self@.tasks =~= pre@.tasks.remove(id)) by {
            assert forall|x: u128| #[trigger]
                self@.tasks.contains_key(x) implies pre@.tasks.remove(id).contains_key(x)
                && self@.tasks[x] == pre@.tasks.remove(id)[x] by {
                let i2 = choose|i2: int|
                    0 <= i2 < self.tasks@.len() && (#[trigger] self.tasks@[i2])@.id == x;
                self.lemma_task_index(i2);
                let i0 = if i2 < i {
                    i2
                } else {
                    i2 + 1
                };
                assert(self.tasks@[i2] == pre.tasks@[i0]);
                assert(ids_of(pre.tasks@)[i0] == x);
                pre.lemma_task_index(i0);
            }
            assert forall|x: u128| #[trigger]
                pre@.tasks.remove(id).contains_key(x) implies self@.tasks.contains_key(x) by {
                let i0 = choose|i2: int|
                    0 <= i2 < ids_of(pre.tasks@).len() && ids_of(pre.tasks@)[i2] == x;
                assert(pre.tasks@[i0]@.id == x);
                assert(i0 != i);
                let i1 = if i0 < i {
                    i0
                } else {
                    i0 - 1
                };
                assert(self.tasks@[i1] == pre.tasks@[i0]);
                assert(ids_of(self.tasks@)[i1] == x);
            }
        }
        // the category index: only the removed task's bucket changed
        assert(self@.categories =~= pre@.categories.insert(
            catv,
            pre@.categories[catv].remove_value(id),
        )) by {
            assert(pre@.categories[catv] == pre.categories@[j].ids@);
            assert(pre@.categories[catv].remove_value(id) == pre.categories@[j].ids@.remove(k)) by {
                pre.categories@[j].ids@.index_of_first_ensures(id);
                assert(pre.categories@[j].ids@.contains(id));
                let kf = pre.categories@[j].ids@.index_of_first(id).unwrap();
                assert(kf == k);
            }
            assert forall|lab: Option<Seq<char>>| #[trigger]
                self@.categories.contains_key(lab) implies pre@.categories.insert(
                catv,
                pre@.categories[catv].remove_value(id),
            ).contains_key(lab) && self@.categories[lab] == pre@.categories.insert(
                catv,
                pre@.categories[catv].remove_value(id),
            )[lab] by {
                let j2 = choose|j2: int|
                    0 <= j2 < self.categories@.len() && (
                    #[trigger] self.categories@[j2].label_view()) == lab;
                self.lemma_bucket_index(j2);
                assert(self.categories@[j2].label_view() == pre.categories@[j2].label_view());
                pre.lemma_bucket_index(j2);
                if j2 == j {
                    assert(lab == catv);
                } else {
                    assert(lab != catv);
                    assert(self.categories@[j2] == pre.categories@[j2]);
                }
            }
            assert forall|lab: Option<Seq<char>>| #[trigger]
                pre@.categories.insert(
                    catv,
                    pre@.categories[catv].remove_value(id),
                ).contains_key(lab) implies self@.categories.contains_key(lab) by {
                let j2 = choose|j2: int|
                    0 <= j2 < pre.categories@.len() && (
                    #[trigger] pre.categories@[j2].label_view()) == lab;
                assert(self.categories@[j2].label_view() == lab);
            }
        }
        // the overdue set loses the id
        assert(self@.overdue =~= pre@.overdue.remove(id)) by {
            if pre.overdue@.contains(id) {
                pre.overdue@.index_of_first_ensures(id);
                let m = pre.overdue@.index_of(id);
                assert(pre.overdue@[m] == id);
                assert(self.overdue@ == pre.overdue@.remove(m));
                assert forall|x: u128| #[trigger]
                    self.overdue@.to_set().contains(x) implies pre@.overdue.remove(id).contains(
                    x,
                ) by {
                    let a = choose|a: int|
                        0 <= a < self.overdue@.len() && self.overdue@[a] == x;
                    let a0 = if a < m {
                        a
                    } else {
                        a + 1
                    };
                    assert(pre.overdue@[a0] == x);
                    assert(x != id) by {
                        if x == id {
                            assert(a0 != m);
                        }
                    }
                }
                assert forall|x: u128| #[trigger]
                    pre@.overdue.remove(id).contains(x) implies self.overdue@.to_set().contains(
                    x,
                ) by {
                    let a0 = choose|a: int|
                        0 <= a < pre.overdue@.len() && pre.overdue@[a] == x;
                    assert(a0 != m);
                    let a = if a0 < m {
                        a0
                    } else {
                        a0 - 1
                    };
                    assert(self.overdue@[a] == x);
                }
            } else {
                assert(!pre@.overdue.contains(id));
                assert(pre@.overdue.remove(id) =~= pre@.overdue);
            }
        }
        assert(self@ =~= spec_remove(pre@, id));
    }

    /// Replacing the task at index `i` with one carrying the same id and
    /// category changes only the task map, and keeps the store well-formed.
    #[verifier::spinoff_prover]
    #[verifier::rlimit(50)]
    proof fn lemma_after_replace(&self, pre: ToDo, i: int, tnew: Task)
        requires
            pre.wf(),
            0 <= i < pre.tasks@.len(),
            self.tasks@ == pre.tasks@.update(i, tnew),
            self.categories@ == pre.categories@,
            self.overdue@ == pre.overdue@,
            tnew@.id == pre.tasks@[i]@.id,
            tnew@.category == pre.tasks@[i]@.category,
            tnew@.wf(),
        ensures
            self.wf(),
            self@ == (ToDoV { tasks: pre@.tasks.insert(tnew@.id, tnew@), ..pre@ }),
    {
        let id = tnew@.id;
        assert(ids_of(self.tasks@) =~= ids_of(pre.tasks@));
        assert(forall|i2: int|
            0 <= i2 < pre.tasks@.len() && i2 != i ==> (#[trigger] self.tasks@[i2])
                == pre.tasks@[i2]);
        assert(self.tasks@[i] == tnew);
        // well-formedness
        assert forall|i2: int|
            0 <= i2 < self.tasks@.len() implies (#[trigger] self.tasks@[i2])@.wf() by {
            if i2 != i {
                assert(self.tasks@[i2] == pre.tasks@[i2]);
            }
        }
        assert(buckets_linked(self.tasks@, self.categories@)) by {
            assert forall|j2: int, k2: int|
                0 <= j2 < self.categories@.len() && 0 <= k2 < self.categories@[j2].ids@.len()
                    implies #[trigger] bucket_entry_ok(self.tasks@, self.categories@, j2, k2) by {
                assert(bucket_entry_ok(pre.tasks@, pre.categories@, j2, k2));
                let i0 = choose|i2: int|
                    0 <= i2 < pre.tasks@.len() && (#[trigger] pre.tasks@[i2])@.id == (
                    pre.categories@[j2].ids@[k2]) && pre.tasks@[i2]@.category
                        == pre.categories@[j2].label_view();
                assert(self.tasks@[i0]@.id == self.categories@[j2].ids@[k2]
                    && self.tasks@[i0]@.category == self.categories@[j2].label_view());
            }
        }
        assert(tasks_bucketed(self.tasks@, self.categories@)) by {
            assert forall|i2: int| #![trigger self.tasks@[i2]]
                0 <= i2 < self.tasks@.len() implies exists|j2: int|
                0 <= j2 < self.categories@.len() && self.categories@[j2].label_view()
                    == self.tasks@[i2]@.category && self.categories@[j2].ids@.contains(
                self.tasks@[i2]@.id,
            ) by {
                let j0 = choose|j2: int|
                    0 <= j2 < pre.categories@.len() && pre.categories@[j2].label_view() == (
                    #[trigger] pre.tasks@[i2])@.category && pre.categories@[j2].ids@.contains(
                        pre.tasks@[i2]@.id,
                    );
                assert(self.tasks@[i2]@.category == pre.tasks@[i2]@.category);
                assert(self.tasks@[i2]@.id == pre.tasks@[i2]@.id);
                assert(self.categories@[j0].label_view() == self.tasks@[i2]@.category
                    && self.categories@[j0].ids@.contains(self.tasks@[i2]@.id));
            }
        }
        // view equality
        assert(self@.tasks =~= pre@.tasks.insert(id, tnew@)) by {
            assert forall|x: u128| #[trigger]
                self@.tasks.contains_key(x) implies pre@.tasks.insert(id, tnew@).contains_key(x)
                && self@.tasks[x] == pre@.tasks.insert(id, tnew@)[x] by {
                let i2 = choose|i3: int|
                    0 <= i3 < self.tasks@.len() && (#[trigger] self.tasks@[i3])@.id == x;
                self.lemma_task_index(i2);
                pre.lemma_task_index(i2);
                if x == id {
                    pre.lemma_task_index(i);
                    self.lemma_task_index(i);
                }
            }
            assert forall|x: u128| #[trigger]
                pre@.tasks.insert(id, tnew@).contains_key(x) implies self@.tasks.contains_key(
                x,
            ) by {
                if x == id {
                    assert(ids_of(pre.tasks@)[i] == id);
                    assert(ids_of(self.tasks@)[i] == id);
                } else {
                    let i3 = choose|i4: int|
                        0 <= i4 < ids_of(pre.tasks@).len() && ids_of(pre.tasks@)[i4] == x;
                    assert(ids_of(self.tasks@)[i3] == x);
                }
            }
        }
        assert(self@ =~= (ToDoV { tasks: pre@.tasks.insert(id, tnew@), ..pre@ }));
    }

    /// The view's task map is exactly as large as the task list.
    proof fn lemma_view_sizes(&self)
        requires
            ids_of(self.tasks@).no_duplicates(),
        ensures
            self@.tasks.len() == self.tasks@.len(),
            self@.order.len() == self.tasks@.len(),
            self@.tasks.dom() == self@.order.to_set(),
            self@.tasks.dom().finite(),
    {
        assert(self@.tasks.dom() =~= self@.order.to_set());
        self@.order.unique_seq_to_set();
    }

    /// Insert a task, evaluating its due date against `now`: the task is
    /// stored under its id (replacing any task already stored under it),
    /// filed under its category, and marked overdue at once when its due
    /// date has already passed. Always succeeds.
    pub fn add_task_at(&mut self, task: Task, now: Timestamp)
        requires
            old(self).wf(),
            task@.wf(),
            now.wf(),
        ensures
            final(self).wf(),
            final(self)@ == spec_add(
                spec_drop(old(self)@, task@.id),
                task@,
                due_passed(task@, now),
            ),
    {
        match self.find_task(task.get_id()) {
            Some(i) => {
                proof {
                    self.lemma_task_index(i as int);
                    assert(ids_of(self.tasks@)[i as int] == task@.id);
                }
                let removed = self.take_out(i);
                proof {
                    assert(removed@.id == task@.id);
                }
            },
            None => {},
        }
        let marked = match task.get_due_date() {
            Some(d) => d.le(now),
            None => false,
        };
        self.push_new(task, marked);
    }

    /// Insert a task, reading the wall clock for the overdue check. The
    /// clock is outside the model: whatever moment was read, the result is
    /// `add_task_at` for some time, and a task without a due date is never
    /// marked on insertion; `add_task_at` carries the exact contract.
    pub fn add_task(&mut self, task: Task)
        requires
            old(self).wf(),
            task@.wf(),
        ensures
            final(self).wf(),
            exists|marked: bool|
                final(self)@ == #[trigger] spec_add(
                    spec_drop(old(self)@, task@.id),
                    task@,
                    marked,
                ),
            task@.due_date is None ==> final(self)@ == spec_add(
                spec_drop(old(self)@, task@.id),
                task@,
                false,
            ),
    {
        let now = crate::stamp::now_stamp();
        let ghost tv = task@;
        self.add_task_at(task, now);
        proof {
            let marked = due_passed(tv, now);
            assert(final(self)@ == spec_add(spec_drop(old(self)@, tv.id), tv, marked));
        }
    }

    /// Remove a task by id: the task leaves the task map, its category's
    /// bucket, and the overdue index in one step, and is returned. Fails
    /// with `NotFound`, leaving the store unchanged, exactly when no task
    /// carries the id.
    pub fn remove_task(&mut self, id: u128) -> (r: Result<Task, TodoError>)
        requires
            old(self).wf(),
        ensures
            final(self).wf(),
            match r {
                Ok(t) => old(self)@.tasks.contains_key(id) && t@ == old(self)@.tasks[id] && t@.id
                    == id && final(self)@ == spec_remove(old(self)@, id),
                Err(e) => e == TodoError::NotFound && !old(self)@.tasks.contains_key(id) && final(self)@ == old(self)@,
            },
    {
        match self.find_task(id) {
            Some(i) => {
                proof {
                    self.lemma_task_index(i as int);
                    assert(ids_of(self.tasks@)[i as int] == id);
                }
                Ok(self.take_out(i))
            },
            None => Err(TodoError::NotFound),
        }
    }

    /// All stored tasks, in storage order (callers should treat the order
    /// as unspecified).
    pub fn get_all_tasks(&self) -> (r: Vec<Task>)
        requires
            self.wf(),
        ensures
            r@.len() == self@.order.len(),
            forall|i: int|
                0 <= i < r@.len() ==> (#[trigger] r@[i])@ == self@.tasks[self@.order[i]]
                    && r@[i]@.id == self@.order[i] && r@[i]@.wf(),
    {
        let mut out: Vec<Task> = Vec::new();
        let mut i: usize = 0;
        while i < self.tasks.len()
            invariant
                self.wf(),
                i <= self.tasks@.len(),
                out@.len() == i,
                forall|k: int|
                    0 <= k < i ==> (#[trigger] out@[k])@ == self.tasks@[k]@ && out@[k]@.id
                        == ids_of(self.tasks@)[k],
            decreases self.tasks@.len() - i,
        {
            out.push(self.tasks[i].clone());
            i = i + 1;
        }
        proof {
            assert forall|k: int| 0 <= k < out@.len() implies (#[trigger] out@[k])@
                == self@.tasks[self@.order[k]] && out@[k]@.id == self@.order[k] && out@[k]@.wf() by {
                self.lemma_task_index(k);
                assert(ids_of(self.tasks@)[k] == self.tasks@[k]@.id);
            }
        }
        out
    }

    /// The ids of all stored tasks.
    pub fn get_ids(&self) -> (r: Vec<u128>)
        requires
            self.wf(),
        ensures
            r@ == self@.order,
    {
        let mut out: Vec<u128> = Vec::new();
        let mut i: usize = 0;
        while i < self.tasks.len()
            invariant
                i <= self.tasks@.len(),
                out@ == ids_of(self.tasks@).take(i as int),
            decreases self.tasks@.len() - i,
        {
            out.push(self.tasks[i].get_id());
            proof {
                assert(ids_of(self.tasks@).take(i + 1 as int) =~= ids_of(self.tasks@).take(
                    i as int,
                ).push(self.tasks@[i as int]@.id));
            }
            i = i + 1;
        }
        proof {
            assert(ids_of(self.tasks@).take(ids_of(self.tasks@).len() as int) =~= ids_of(
                self.tasks@,
            ));
        }
        out
    }

    /// The tasks filed under a category label, in bucket order, or `None`
    /// when no bucket exists for the label (distinct from an empty bucket).
    pub fn get_category(&self, category: Option<String>) -> (r: Option<Vec<Task>>)
        requires
            self.wf(),
        ensures
            match r {
                Some(ts) => self@.categories.contains_key(opt_str_view(category)) && ts@.len()
                    == self@.categories[opt_str_view(category)].len() && (forall|k: int|
                    0 <= k < ts@.len() ==> (#[trigger] ts@[k])@ == self@.tasks[self@.categories[opt_str_view(category)][k]]),
                None => !self@.categories.contains_key(opt_str_view(category)),
            },
    {
        let j = match self.find_bucket(&category) {
            Some(j) => j,
            None => {
                return None;
            },
        };
        proof {
            self.lemma_bucket_index(j as int);
        }
        let mut out: Vec<Task> = Vec::new();
        let mut k: usize = 0;
        while k < self.categories[j].ids.len()
            invariant
                self.wf(),
                j < self.categories@.len(),
                self.categories@[j as int].label_view() == opt_str_view(category),
                k <= self.categories@[j as int].ids@.len(),
                out@.len() == k,
                forall|k2: int|
                    0 <= k2 < k ==> (#[trigger] out@[k2])@ == self@.tasks[self.categories@[j as int].ids@[k2]],
            decreases self.categories@[j as int].ids@.len() - k,
        {
            let id = self.categories[j].ids[k];
            proof {
                assert(bucket_entry_ok(self.tasks@, self.categories@, j as int, k as int));
                let i0 = choose|i2: int|
                    0 <= i2 < self.tasks@.len() && (#[trigger] self.tasks@[i2])@.id == (
                    self.categories@[j as int].ids@[k as int]) && self.tasks@[i2]@.category
                        == self.categories@[j as int].label_view();
                assert(ids_of(self.tasks@)[i0] == id);
            }
            let t = match self.get_task(id) {
                Some(t) => t.clone(),
                None => {
                    proof {
                        assert(false);
                    }
                    return None;
                },
            };
            out.push(t);
            k = k + 1;
        }
        proof {
            self.lemma_bucket_index(j as int);
        }
        Some(out)
    }

    /// `(finished, total)` over the bucket of a category label, and
    /// `(0, 0)` for a label with no bucket.
    pub fn get_category_completion(&self, category: Option<String>) -> (r: (usize, usize))
        requires
            self.wf(),
        ensures
            self@.categories.contains_key(opt_str_view(category)) ==> r.0 == count_finished(
                self@,
                self@.categories[opt_str_view(category)],
            ) && r.1 == self@.categories[opt_str_view(category)].len(),
            !self@.categories.contains_key(opt_str_view(category)) ==> r == (0usize, 0usize),
    {
        let j = match self.find_bucket(&category) {
            Some(j) => j,
            None => {
                return (0, 0);
            },
        };
        proof {
            self.lemma_bucket_index(j as int);
        }
        let ghost ids = self.categories@[j as int].ids@;
        let mut done: usize = 0;
        let mut k: usize = 0;
        while k < self.categories[j].ids.len()
            invariant
                self.wf(),
                j < self.categories@.len(),
                ids == self.categories@[j as int].ids@,
                k <= ids.len(),
                done == count_finished(self@, ids.take(k as int)),
                done <= k,
            decreases ids.len() - k,
        {
            let id = self.categories[j].ids[k];
            proof {
                assert(bucket_entry_ok(self.tasks@, self.categories@, j as int, k as int));
                let i0 = choose|i2: int|
                    0 <= i2 < self.tasks@.len() && (#[trigger] self.tasks@[i2])@.id == (
                    self.categories@[j as int].ids@[k as int]) && self.tasks@[i2]@.category
                        == self.categories@[j as int].label_view();
                assert(ids_of(self.tasks@)[i0] == id);
            }
            let fin = match self.get_task(id) {
                Some(t) => t.complete(),
                None => {
                    proof {
                        assert(false);
                    }
                    false
                },
            };
            if fin {
                done = done + 1;
            }
            proof {
                assert(ids.take(k + 1 as int).drop_last() =~= ids.take(k as int));
                assert(ids.take(k + 1 as int).last() == ids[k as int]);
            }
            k = k + 1;
        }
        proof {
            assert(ids.take(ids.len() as int) =~= ids);
            self.lemma_bucket_index(j as int);
        }
        (done, self.categories[j].ids.len())
    }

    /// The labels of the known categories, the uncategorized bucket left
    /// out, each exactly once.
    pub fn get_categories(&self) -> (r: Vec<String>)
        requires
            self.wf(),
        ensures
            forall|k: int|
                0 <= k < r@.len() ==> self@.categories.contains_key(Some((#[trigger] r@[k])@)),
            forall|lab: Seq<char>| #![trigger self@.categories.contains_key(Some(lab))]
                self@.categories.contains_key(Some(lab)) ==> exists|k: int|
                    0 <= k < r@.len() && (#[trigger] r@[k])@ == lab,
            forall|k1: int, k2: int| 0 <= k1 < k2 < r@.len() ==> (#[trigger] r@[k1])@ != (#[trigger] r@[k2])@,
    {
        let mut out: Vec<String> = Vec::new();
        let mut j: usize = 0;
        while j < self.categories.len()
            invariant
                self.wf(),
                j <= self.categories@.len(),
                forall|k: int| #![trigger out@[k]]
                    0 <= k < out@.len() ==> exists|j2: int|
                        0 <= j2 < j && (#[trigger] self.categories@[j2].label_view()) == Some(
                            out@[k]@,
                        ),
                forall|j2: int|
                    0 <= j2 < j ==> ((#[trigger] self.categories@[j2].label_view()) matches Some(
                        lab,
                    ) ==> exists|k: int| 0 <= k < out@.len() && (#[trigger] out@[k])@ == lab),
                forall|k1: int, k2: int|
                    0 <= k1 < k2 < out@.len() ==> (#[trigger] out@[k1])@ != (#[trigger] out@[k2])@,
            decreases self.categories@.len() - j,
        {
            match &self.categories[j].label {
                Some(lab) => {
                    let ghost prev = out@;
                    out.push(lab.clone());
                    proof {
                        assert(self.categories@[j as int].label_view() == Some(lab@));
                        assert(out@[out@.len() - 1]@ == lab@);
                        assert forall|j2: int|
                            0 <= j2 < j + 1 implies ((
                        #[trigger] self.categories@[j2].label_view()) matches Some(l2)
                            ==> exists|k: int|
                                0 <= k < out@.len() && (#[trigger] out@[k])@ == l2) by {
                            let lv = self.categories@[j2].label_view();
                            if j2 < j {
                                if lv is Some {
                                    let k0 = choose|k: int|
                                        0 <= k < prev.len() && (#[trigger] prev[k])@
                                            == lv->Some_0;
                                    assert(out@[k0] == prev[k0]);
                                    assert(out@[k0]@ == lv->Some_0);
                                }
                            } else {
                                assert(out@[out@.len() - 1]@ == lab@);
                            }
                        }
                        assert forall|k1: int, k2: int|
                            0 <= k1 < k2 < out@.len() implies (#[trigger] out@[k1])@ != (
                        #[trigger] out@[k2])@ by {
                            if k2 == out@.len() - 1 {
                                let j1 = choose|j2: int|
                                    0 <= j2 < j && (#[trigger] self.categories@[j2].label_view())
                                        == Some(out@[k1]@);
                                if out@[k1]@ == lab@ {
                                    assert(self.categories@[j1].label_view()
                                        == self.categories@[j as int].label_view());
                                }
                            }
                        }
                    }
                },
                None => {},
            }
            j = j + 1;
        }
        proof {
            assert forall|lab: Seq<char>| #![trigger self@.categories.contains_key(Some(lab))]
                self@.categories.contains_key(Some(lab)) implies exists|k: int|
                0 <= k < out@.len() && (#[trigger] out@[k])@ == lab by {
                let j2 = choose|j3: int|
                    0 <= j3 < self.categories@.len() && (
                    #[trigger] self.categories@[j3].label_view()) == Some(lab);
                assert(self.categories@[j2].label_view() matches Some(l) && l == lab);
            }
            assert forall|k: int| 0 <= k < out@.len() implies self@.categories.contains_key(
                Some((#[trigger] out@[k])@),
            ) by {
                let j2 = choose|j3: int|
                    0 <= j3 < self.categories@.len() && (
                    #[trigger] self.categories@[j3].label_view()) == Some(out@[k]@);
            }
        }
        out
    }

    /// Set a task's completion flag; an absent value clears the flag.
    /// Fails with `NotFound`, changing nothing, exactly when the id is
    /// unknown.
    pub fn mark_finished(&mut self, id: u128, finished: Option<bool>) -> (r: Result<
        (),
        TodoError,
    >)
        requires
            old(self).wf(),
        ensures
            final(self).wf(),
            match r {
                Ok(()) => old(self)@.tasks.contains_key(id) && final(self)@ == spec_set_done(
                    old(self)@,
                    id,
                    finished matches Some(b) && b,
                ),
                Err(e) => e == TodoError::NotFound && !old(self)@.tasks.contains_key(id) && final(self)@ == old(self)@,
            },
    {
        let i = match self.find_task(id) {
            Some(i) => i,
            None => {
                return Err(TodoError::NotFound);
            },
        };
        proof {
            self.lemma_task_index(i as int);
            assert(ids_of(self.tasks@)[i as int] == id);
        }
        let value = match finished {
            Some(b) => b,
            None => false,
        };
        let mut t = self.tasks.remove(i);
        t.set_done(value);
        self.tasks.insert(i, t);
        proof {
            assert(self.tasks@ =~= old(self).tasks@.update(i as int, self.tasks@[i as int]));
            self.lemma_after_replace(*old(self), i as int, self.tasks@[i as int]);
        }
        Ok(())
    }

    /// Idempotently add a task's id to the overdue index. Fails with
    /// `NotFound`, changing nothing, exactly when the id is unknown.
    pub fn set_overdue(&mut self, id: u128) -> (r: Result<(), TodoError>)
        requires
            old(self).wf(),
        ensures
            final(self).wf(),
            match r {
                Ok(()) => old(self)@.tasks.contains_key(id) && final(self)@ == spec_mark_overdue(
                    old(self)@,
                    id,
                ),
                Err(e) => e == TodoError::NotFound && !old(self)@.tasks.contains_key(id) && final(self)@ == old(self)@,
            },
    {
        if !self.contains_id(id) {
            return Err(TodoError::NotFound);
        }
        match find_id(&self.overdue, id) {
            Some(_) => {
                proof {
                    assert(self@.overdue.contains(id));
                    assert(self@.overdue =~= old(self)@.overdue.insert(id));
                    assert(self@ =~= spec_mark_overdue(old(self)@, id));
                }
            },
            None => {
                self.overdue.push(id);
                proof {
                    assert forall|a: int, b: int|
                        0 <= a < b < self.overdue@.len() implies self.overdue@[a]
                        != self.overdue@[b] by {
                        assert(self.overdue@[a] == old(self).overdue@[a]);
                        if b < self.overdue@.len() - 1 {
                        } else {
                            assert(!old(self).overdue@.contains(id));
                        }
                    }
                    assert forall|k: int|
                        0 <= k < self.overdue@.len() implies ids_of(self.tasks@).contains(
                        #[trigger] self.overdue@[k],
                    ) by {
                        if k < self.overdue@.len() - 1 {
                            assert(self.overdue@[k] == old(self).overdue@[k]);
                        } else {
                            assert(self.overdue@[k] == id);
                        }
                    }
                    assert(self.overdue@.to_set() =~= old(self)@.overdue.insert(id)) by {
                        assert forall|x: u128| #[trigger]
                            self.overdue@.to_set().contains(x) implies old(self)@.overdue.insert(
                            id,
                        ).contains(x) by {
                            let a = choose|a: int|
                                0 <= a < self.overdue@.len() && self.overdue@[a] == x;
                            if a < self.overdue@.len() - 1 {
                                assert(old(self).overdue@[a] == x);
                            }
                        }
                        assert forall|x: u128| #[trigger]
                            old(self)@.overdue.insert(id).contains(x) implies self.overdue@.to_set().contains(x) by {
                            if x == id {
                                assert(self.overdue@[self.overdue@.len() - 1] == id);
                            } else {
                                let a = choose|a: int|
                                    0 <= a < old(self).overdue@.len() && old(self).overdue@[a] == x;
                                assert(self.overdue@[a] == x);
                            }
                        }
                    }
                    assert(self@ =~= spec_mark_overdue(old(self)@, id));
                }
            },
        }
        Ok(())
    }

    /// The tasks currently flagged overdue, each exactly once.
    pub fn get_overdue(&self) -> (r: Vec<Task>)
        requires
            self.wf(),
        ensures
            r@.len() == self@.overdue.len(),
            forall|k: int|
                0 <= k < r@.len() ==> self@.overdue.contains((#[trigger] r@[k])@.id) && r@[k]@
                    == self@.tasks[r@[k]@.id],
            forall|k1: int, k2: int| 0 <= k1 < k2 < r@.len() ==> (#[trigger] r@[k1])@.id != (#[trigger] r@[k2])@.id,
    {
        let mut out: Vec<Task> = Vec::new();
        let mut k: usize = 0;
        while k < self.overdue.len()
            invariant
                self.wf(),
                k <= self.overdue@.len(),
                out@.len() == k,
                forall|k2: int|
                    0 <= k2 < k ==> (#[trigger] out@[k2])@.id == self.overdue@[k2] && out@[k2]@
                        == self@.tasks[self.overdue@[k2]],
            decreases self.overdue@.len() - k,
        {
            let id = self.overdue[k];
            proof {
                assert(ids_of(self.tasks@).contains(id));
            }
            let t = match self.get_task(id) {
                Some(t) => t.clone(),
                None => {
                    proof {
                        assert(false);
                    }
                    return out;
                },
            };
            out.push(t);
            k = k + 1;
        }
        proof {
            self.overdue@.unique_seq_to_set();
            assert forall|k2: int| 0 <= k2 < out@.len() implies self@.overdue.contains(
                (#[trigger] out@[k2])@.id,
            ) && out@[k2]@ == self@.tasks[out@[k2]@.id] by {
                assert(out@[k2]@.id == self.overdue@[k2]);
            }
        }
        out
    }

    /// Advance a stored recurring task one cycle, with `reference` as the
    /// weekday of the day of evaluation. `None` says the task is gone from
    /// the store (an expected race, not an error); `Some(None)` says the
    /// task does not recur and nothing changed; `Some(Some(d))` says the
    /// task's due date advanced to `d` and its completion flag cleared.
    pub fn repeat_task(&mut self, id: u128, reference: Weekday) -> (r: Option<Option<Timestamp>>)
        requires
            old(self).wf(),
        ensures
            final(self).wf(),
            match r {
                None => !old(self)@.tasks.contains_key(id) && final(self)@ == old(self)@,
                Some(None) => old(self)@.tasks.contains_key(id) && !crate::tasks::can_advance(
                    old(self)@.tasks[id],
                ) && final(self)@ == old(self)@,
                Some(Some(d)) => old(self)@.tasks.contains_key(id) && crate::tasks::can_advance(
                    old(self)@.tasks[id],
                ) && final(self)@ == spec_advance(old(self)@, id, reference.idx()) && d
                    == final(self)@.tasks[id].due_date->Some_0,
            },
    {
        let i = match self.find_task(id) {
            Some(i) => i,
            None => {
                return None;
            },
        };
        proof {
            self.lemma_task_index(i as int);
            assert(ids_of(self.tasks@)[i as int] == id);
        }
        let mut t = self.tasks.remove(i);
        let advanced = t.repeat_on(reference);
        let new_due = t.get_due_date();
        self.tasks.insert(i, t);
        proof {
            assert(self.tasks@ =~= old(self).tasks@.update(i as int, self.tasks@[i as int]));
            self.lemma_after_replace(*old(self), i as int, self.tasks@[i as int]);
            if !advanced {
                assert(self@.tasks =~= old(self)@.tasks);
                assert(self@ =~= old(self)@);
            }
        }
        if advanced {
            match new_due {
                Some(d) => Some(Some(d)),
                None => {
                    proof {
                        assert(false);
                    }
                    None
                },
            }
        } else {
            Some(None)
        }
    }
}

impl EstTime for ToDo {
    closed spec fn est_time_spec(&self) -> int {
        est_total(self.tasks@)
    }

    /// Total estimate over all tasks, recomputed on demand and saturated
    /// into `u32`.
    fn est_time(&self) -> (r: u32)
        ensures
            r == sat32(self.est_time_spec()),
    {
        let mut acc: u32 = 0;
        let mut i: usize = 0;
        while i < self.tasks.len()
            invariant
                i <= self.tasks@.len(),
                acc == sat32(est_total(self.tasks@.take(i as int))),
                0 <= est_total(self.tasks@.take(i as int)),
            decreases self.tasks@.len() - i,
        {
            proof {
                assert(self.tasks@.take(i + 1 as int).drop_last() =~= self.tasks@.take(i as int));
                assert(self.tasks@.take(i + 1 as int).last() == self.tasks@[i as int]);
            }
            acc = match acc.checked_add(self.tasks[i].est_time()) {
                Some(v) => v,
                None => u32::MAX,
            };
            i = i + 1;
        }
        proof {
            assert(self.tasks@.take(self.tasks@.len() as int) =~= self.tasks@);
        }
        acc
    }
}

impl CompletionStatus for ToDo {
    closed spec fn complete_spec(&self) -> bool {
        forall|i: int| 0 <= i < self.tasks@.len() ==> (#[trigger] self.tasks@[i])@.finished
    }

    closed spec fn finished_count_spec(&self) -> int {
        finished_total(self.tasks@)
    }

    closed spec fn item_count_spec(&self) -> int {
        self.tasks@.len() as int
    }

    /// True exactly when every stored task is finished.
    fn complete(&self) -> (r: bool)
        ensures
            r == self.complete_spec(),
    {
        let mut i: usize = 0;
        while i < self.tasks.len()
            invariant
                i <= self.tasks@.len(),
                forall|k: int| 0 <= k < i ==> (#[trigger] self.tasks@[k])@.finished,
            decreases self.tasks@.len() - i,
        {
            if !self.tasks[i].complete() {
                return false;
            }
            i = i + 1;
        }
        true
    }

    /// `(finished, total)` over all tasks, saturated into `u32`.
    fn completion_status(&self) -> (r: (u32, u32))
        ensures
            r.0 == sat32(self.finished_count_spec()),
            r.1 == sat32(self.item_count_spec()),
    {
        let mut fin: u32 = 0;
        let mut total: u32 = 0;
        let mut i: usize = 0;
        while i < self.tasks.len()
            invariant
                i <= self.tasks@.len(),
                fin == sat32(finished_total(self.tasks@.take(i as int))),
                0 <= finished_total(self.tasks@.take(i as int)) <= i,
                total == sat32(i as int),
            decreases self.tasks@.len() - i,
        {
            proof {
                assert(self.tasks@.take(i + 1 as int).drop_last() =~= self.tasks@.take(i as int));
                assert(self.tasks@.take(i + 1 as int).last() == self.tasks@[i as int]);
            }
            if self.tasks[i].complete() {
                fin = match fin.checked_add(1) {
                    Some(v) => v,
                    None => u32::MAX,
                };
            }
            total = match total.checked_add(1) {
                Some(v) => v,
                None => u32::MAX,
            };
            i = i + 1;
        }
        proof {
            assert(self.tasks@.take(self.tasks@.len() as int) =~= self.tasks@);
        }
        (fin, total)
    }
}

impl vstd::std_specs::cmp::PartialEqSpecImpl for ToDo {
    open spec fn obeys_eq_spec() -> bool {
        true
    }

    open spec fn eq_spec(&self, other: &ToDo) -> bool {
        self@.order.len() == other@.order.len() && (forall|id: u128|
            #[trigger] self@.tasks.contains_key(id) ==> other@.tasks.contains_key(id))
    }
}

impl PartialEq for ToDo {
    /// Two stores are equal when they hold the same number of tasks under
    /// the same ids; task contents are not compared.
    fn eq(&self, other: &ToDo) -> (r: bool) {
        if self.tasks.len() != other.tasks.len() {
            return false;
        }
        let mut i: usize = 0;
        while i < self.tasks.len()
            invariant
                i <= self.tasks@.len(),
                self.tasks@.len() == other.tasks@.len(),
                forall|k: int|
                    0 <= k < i ==> other@.tasks.contains_key((#[trigger] self.tasks@[k])@.id),
            decreases self.tasks@.len() - i,
        {
            if !other.contains_id(self.tasks[i].get_id()) {
                proof {
                    assert(ids_of(self.tasks@)[i as int] == self.tasks@[i as int]@.id);
                    assert(self@.tasks.contains_key(self.tasks@[i as int]@.id));
                }
                return false;
            }
            i = i + 1;
        }
        proof {
            assert forall|id: u128| #[trigger]
                self@.tasks.contains_key(id) implies other@.tasks.contains_key(id) by {
                let k = choose|k: int|
                    0 <= k < ids_of(self.tasks@).len() && ids_of(self.tasks@)[k] == id;
                assert(self.tasks@[k]@.id == id);
            }
        }
        true
    }
}

impl Eq for ToDo {

}

impl ToDo {
    /// Rebuild a store from a plain task list at time `now`: each task is
    /// inserted in turn as `add_task_at` does it, so the category and
    /// overdue indices are derived from the tasks alone.
    pub fn from_vec_at(tasks: Vec<Task>, now: Timestamp) -> (r: ToDo)
        requires
            forall|i: int| 0 <= i < tasks@.len() ==> (#[trigger] tasks@[i])@.wf(),
            now.wf(),
        ensures
            r.wf(),
            r@ == spec_load(tasks@.map_values(|t: Task| t@), now),
    {
        let ghost all = tasks@.map_values(|t: Task| t@);
        let mut todo = ToDo::new();
        proof {
            assert(all.take(0) =~= Seq::<TaskV>::empty());
            assert(todo@ =~= spec_load(all.take(0), now));
        }
        let mut consumed: usize = 0;
        while consumed < tasks.len()
            invariant
                consumed <= tasks@.len(),
                tasks@.map_values(|t: Task| t@) == all,
                forall|k: int| 0 <= k < tasks@.len() ==> (#[trigger] tasks@[k])@.wf(),
                now.wf(),
                todo.wf(),
                todo@ == spec_load(all.take(consumed as int), now),
            decreases tasks@.len() - consumed,
        {
            let t = tasks[consumed].clone();
            proof {
                assert(all.take(consumed + 1 as int).drop_last() =~= all.take(consumed as int));
                assert(all.take(consumed + 1 as int).last() == all[consumed as int]);
                assert(all[consumed as int] == tasks@[consumed as int]@);
            }
            todo.add_task_at(t, now);
            consumed = consumed + 1;
        }
        proof {
            assert(all.take(all.len() as int) =~= all);
        }
        todo
    }

    /// Rebuild a store from a plain task list, evaluating overdue against
    /// the wall clock: whatever moment was read, the result is
    /// `from_vec_at` for some time.
    pub fn from_vec(tasks: Vec<Task>) -> (r: ToDo)
        requires
            forall|i: int| 0 <= i < tasks@.len() ==> (#[trigger] tasks@[i])@.wf(),
        ensures
            r.wf(),
            exists|now: Timestamp| #![trigger now.wf()]
                now.wf() && r@ == spec_load(tasks@.map_values(|t: Task| t@), now),
    {
        let now = crate::stamp::now_stamp();
        let ghost all = tasks@.map_values(|t: Task| t@);
        let r = ToDo::from_vec_at(tasks, now);
        proof {
            assert(r@ == spec_load(all, now));
        }
        r
    }

    /// Rebuild a store from id-task pairs, as a persistence layer hands
    /// them back. Fails with `IdMismatch` exactly when some pair keys a
    /// task under an id that is not the task's own.
    pub fn from_map(pairs: Vec<(u128, Task)>) -> (r: Result<ToDo, TodoError>)
        requires
            forall|i: int| 0 <= i < pairs@.len() ==> (#[trigger] pairs@[i]).1@.wf(),
        ensures
            match r {
                Ok(todo) => (forall|i: int|
                    0 <= i < pairs@.len() ==> (#[trigger] pairs@[i]).0 == pairs@[i].1@.id)
                    && todo.wf() && exists|now: Timestamp| #![trigger now.wf()]
                    now.wf() && todo@ == spec_load(
                        pairs@.map_values(|p: (u128, Task)| p.1@),
                        now,
                    ),
                Err(e) => e == TodoError::IdMismatch && exists|i: int|
                    0 <= i < pairs@.len() && (#[trigger] pairs@[i]).0 != pairs@[i].1@.id,
            },
    {
        let mut tasks: Vec<Task> = Vec::new();
        let mut i: usize = 0;
        while i < pairs.len()
            invariant
                i <= pairs@.len(),
                forall|k: int| 0 <= k < pairs@.len() ==> (#[trigger] pairs@[k]).1@.wf(),
                forall|k: int| 0 <= k < i ==> (#[trigger] pairs@[k]).0 == pairs@[k].1@.id,
                tasks@.map_values(|t: Task| t@) == pairs@.take(i as int).map_values(
                    |p: (u128, Task)| p.1@,
                ),
                forall|k: int| 0 <= k < tasks@.len() ==> (#[trigger] tasks@[k])@.wf(),
            decreases pairs@.len() - i,
        {
            if pairs[i].0 != pairs[i].1.get_id() {
                return Err(TodoError::IdMismatch);
            }
            tasks.push(pairs[i].1.clone());
            proof {
                assert(pairs@.take(i + 1 as int).drop_last() =~= pairs@.take(i as int));
                assert(pairs@.take(i + 1 as int).map_values(|p: (u128, Task)| p.1@) =~= pairs@.take(
                    i as int,
                ).map_values(|p: (u128, Task)| p.1@).push(pairs@[i as int].1@));
                assert(tasks@.map_values(|t: Task| t@) =~= pairs@.take(i + 1 as int).map_values(
                    |p: (u128, Task)| p.1@,
                ));
            }
            i = i + 1;
        }
        proof {
            assert(pairs@.take(pairs@.len() as int) =~= pairs@);
        }
        Ok(ToDo::from_vec(tasks))
    }

    /// Every well-formed store satisfies the model invariant: each id is
    /// filed in exactly the bucket of its task's category, buckets hold
    /// only stored ids, and the overdue set names only stored tasks. Every
    /// mutating operation returns a well-formed store, so the invariant
    /// holds after any sequence of insertions and removals.
    pub proof fn lemma_wf_inv(&self)
        requires
            self.wf(),
        ensures
            inv(self@),
    {
        self.lemma_view_sizes();
        assert forall|id: u128| #[trigger]
            self@.tasks.contains_key(id) implies self@.tasks[id].id == id && self@.tasks[id].wf()
            && self@.categories.contains_key(self@.tasks[id].category)
            && self@.categories[self@.tasks[id].category].contains(id) by {
            let i = choose|i: int|
                0 <= i < ids_of(self.tasks@).len() && ids_of(self.tasks@)[i] == id;
            assert(self.tasks@[i]@.id == id);
            self.lemma_task_index(i);
            let j = choose|j2: int|
                0 <= j2 < self.categories@.len() && self.categories@[j2].label_view() == (
                #[trigger] self.tasks@[i])@.category && self.categories@[j2].ids@.contains(
                    self.tasks@[i]@.id,
                );
            self.lemma_bucket_index(j);
        }
        assert forall|lab: Option<Seq<char>>| #[trigger]
            self@.categories.contains_key(lab) implies self@.categories[lab].no_duplicates() && (
        forall|k: int|
            0 <= k < self@.categories[lab].len() ==> self@.tasks.contains_key(
                #[trigger] self@.categories[lab][k],
            ) && self@.tasks[self@.categories[lab][k]].category == lab) by {
            let j = choose|j2: int|
                0 <= j2 < self.categories@.len() && (#[trigger] self.categories@[j2].label_view())
                    == lab;
            self.lemma_bucket_index(j);
            assert forall|k: int| 0 <= k < self@.categories[lab].len() implies self@.tasks.contains_key(
                #[trigger] self@.categories[lab][k],
            ) && self@.tasks[self@.categories[lab][k]].category == lab by {
                assert(bucket_entry_ok(self.tasks@, self.categories@, j, k));
                let i0 = choose|i2: int|
                    0 <= i2 < self.tasks@.len() && (#[trigger] self.tasks@[i2])@.id == (
                    self.categories@[j].ids@[k]) && self.tasks@[i2]@.category
                        == self.categories@[j].label_view();
                assert(ids_of(self.tasks@)[i0] == self.categories@[j].ids@[k]);
                self.lemma_task_index(i0);
            }
        }
        assert forall|id: u128| self@.overdue.contains(id) implies #[trigger] self@.tasks.contains_key(
            id,
        ) by {
            let k = choose|k2: int|
                0 <= k2 < self.overdue@.len() && self.overdue@[k2] == id;
            assert(ids_of(self.tasks@).contains(id));
        }
    }
}

/// Marking a task overdue twice leaves the overdue set as one marking
/// does: the entry for the id exists exactly once either way.
pub proof fn lemma_mark_overdue_idempotent(v: ToDoV, id: u128)
    ensures
        spec_mark_overdue(spec_mark_overdue(v, id), id) == spec_mark_overdue(v, id),
        spec_mark_overdue(v, id).overdue.contains(id),
{
    assert(spec_mark_overdue(spec_mark_overdue(v, id), id).overdue =~= spec_mark_overdue(
        v,
        id,
    ).overdue);
    assert(spec_mark_overdue(spec_mark_overdue(v, id), id) =~= spec_mark_overdue(v, id));
}

} // verus!
