use vstd::prelude::*;
use crate::bucket::{Bucket, Date, in_bucket, is_valid_bucket};

verus! {

broadcast use vstd::seq_lib::group_seq_properties, vstd::seq_lib::group_filter_ensures;

/// Number of days a task is kept: older tasks are removed by `expire_todos`.
pub const RETENTION_DAYS: i64 = 30;

/// A single task.
#[derive(Debug, PartialEq, Eq)]
pub struct Todo {
    pub id: i32,
    pub content: String,
    pub priority: bool,
    pub done: bool,
    pub created_at: Date,
}

/// The persisted aggregate: the tasks in insertion order and the last id given out.
#[derive(Debug)]
pub struct TodoWrapper {
    pub todo: Vec<Todo>,
    pub counter: i32,
}

/// The mathematical model of a store.
pub struct StoreModel {
    pub items: Seq<Todo>,
    pub counter: int,
}

impl StoreModel {
    /// Ids are positive, unique, and no greater than the counter.
    pub open spec fn wf(self) -> bool {
        &&& 0 <= self.counter
        &&& forall|i: int|
            0 <= i < self.items.len() ==> 1 <= #[trigger] self.items[i].id <= self.counter
        &&& forall|i: int, j: int|
            0 <= i < self.items.len() && 0 <= j < self.items.len() && i != j
                ==> #[trigger] self.items[i].id != #[trigger] self.items[j].id
    }
}

impl View for TodoWrapper {
    type V = StoreModel;

    open spec fn view(&self) -> StoreModel {
        StoreModel { items: self.todo@, counter: self.counter as int }
    }
}

/// Which tasks a removal pass keeps.
#[derive(Clone, Copy, Debug)]
pub enum Keep {
    /// Tasks created no more than the retention window before `today`.
    Fresh { today: Date },
    /// Tasks outside `bucket`.
    Outside { bucket: Bucket, today: Date },
    /// Tasks whose id is not `id`.
    OtherThan { id: i32 },
}

impl Keep {
    pub open spec fn holds(self, t: Todo) -> bool {
        match self {
            Keep::Fresh { today } => t.created_at.day >= today.day - RETENTION_DAYS,
            Keep::Outside { bucket, today } => !in_bucket(
                t.created_at.day as int,
                bucket,
                today.day as int,
            ),
            Keep::OtherThan { id } => t.id != id,
        }
    }

    fn holds_for(&self, t: &Todo) -> (r: bool)
        ensures
            r == self.holds(*t),
    {
        match *self {
            Keep::Fresh { today } => t.created_at.day as i64 >= today.day as i64 - RETENTION_DAYS,
            Keep::Outside { bucket, today } => !is_valid_bucket(t.created_at, bucket, today),
            Keep::OtherThan { id } => t.id != id,
        }
    }
}

/// `rule` as a predicate on tasks.
pub open spec fn keeps(rule: Keep) -> spec_fn(Todo) -> bool {
    |t: Todo| rule.holds(t)
}

/// The tasks of `items` that `rule` keeps, in their order.
pub open spec fn kept(items: Seq<Todo>, rule: Keep) -> Seq<Todo> {
    items.filter(keeps(rule))
}

/// Every task that a removal pass keeps was there before.
pub proof fn lemma_kept_from(items: Seq<Todo>, rule: Keep)
    ensures
        forall|i: int| 0 <= i < kept(items, rule).len() ==> items.contains(#[trigger] kept(items, rule)[i]),
    decreases items.len(),
{
    reveal(Seq::filter);
    if items.len() > 0 {
        lemma_kept_from(items.drop_last(), rule);
        let f = kept(items.drop_last(), rule);
        assert forall|i: int| 0 <= i < kept(items, rule).len() implies items.contains(
            #[trigger] kept(items, rule)[i],
        ) by {
            if i < f.len() {
                assert(items.drop_last().contains(f[i]));
                let m = choose|m: int| 0 <= m < items.drop_last().len() && items.drop_last()[m] == f[i];
                assert(items[m] == f[i]);
            } else {
                assert(items[items.len() - 1] == items.last());
            }
        }
    }
}

/// The store after the expiry pass of day `today`.
pub open spec fn expired(s: StoreModel, today: Date) -> StoreModel {
    StoreModel { items: kept(s.items, Keep::Fresh { today }), counter: s.counter }
}

/// The store after removing every task in `bucket`.
pub open spec fn cleared(s: StoreModel, bucket: Bucket, today: Date) -> StoreModel {
    StoreModel { items: kept(s.items, Keep::Outside { bucket, today }), counter: s.counter }
}

/// The store after removing the task with id `id`.
pub open spec fn deleted(s: StoreModel, id: i32) -> StoreModel {
    StoreModel { items: kept(s.items, Keep::OtherThan { id }), counter: s.counter }
}

/// The store after a task with `content` was added on `today`.
pub open spec fn added(s: StoreModel, content: String, priority: bool, today: Date) -> StoreModel {
    StoreModel {
        items: s.items.push(
            Todo { id: (s.counter + 1) as i32, content, priority, done: false, created_at: today },
        ),
        counter: s.counter + 1,
    }
}

/// The store after the task with id `id` was marked done.
pub open spec fn marked_done(s: StoreModel, id: i32) -> StoreModel {
    StoreModel {
        items: s.items.map_values(
            |t: Todo|
                if t.id == id {
                    Todo { done: true, ..t }
                } else {
                    t
                },
        ),
        counter: s.counter,
    }
}

/// The store after the task with id `id` was given priority.
pub open spec fn prioritized(s: StoreModel, id: i32) -> StoreModel {
    StoreModel {
        items: s.items.map_values(
            |t: Todo|
                if t.id == id {
                    Todo { priority: true, ..t }
                } else {
                    t
                },
        ),
        counter: s.counter,
    }
}

/// Whether some task of `s` has id `id`.
pub open spec fn has_id(s: StoreModel, id: i32) -> bool {
    exists|k: int| 0 <= k < s.items.len() && #[trigger] s.items[k].id == id
}

impl Todo {
    /// An equal task that owns its own content string.
    pub fn clone_task(&self) -> (r: Todo)
        ensures
            r == *self,
    {
        Todo {
            id: self.id,
            content: self.content.clone(),
            priority: self.priority,
            done: self.done,
            created_at: self.created_at,
        }
    }
}

/// Keeping a subsequence keeps the store well formed.
pub proof fn lemma_kept_wf(s: StoreModel, rule: Keep)
    requires
        s.wf(),
    ensures
        (StoreModel { items: kept(s.items, rule), counter: s.counter }).wf(),
    decreases s.items.len(),
{
    reveal(Seq::filter);
    if s.items.len() > 0 {
        let rest = StoreModel { items: s.items.drop_last(), counter: s.counter };
        assert(rest.wf()) by {
            assert forall|i: int, j: int|
                0 <= i < rest.items.len() && 0 <= j < rest.items.len() && i != j
                implies #[trigger] rest.items[i].id != #[trigger] rest.items[j].id by {
                assert(rest.items[i] == s.items[i] && rest.items[j] == s.items[j]);
            }
        }
        lemma_kept_wf(rest, rule);
        lemma_kept_from(rest.items, rule);
        let f = kept(rest.items, rule);
        let last = s.items.last();
        assert(kept(s.items, rule) == if rule.holds(last) {
            f.push(last)
        } else {
            f
        });
        if rule.holds(last) {
            let g = f.push(last);
            assert forall|i: int, j: int|
                0 <= i < g.len() && 0 <= j < g.len() && i != j
                implies #[trigger] g[i].id != #[trigger] g[j].id by {
                if i == f.len() || j == f.len() {
                    let k = if i == f.len() { j } else { i };
                    assert(rest.items.contains(f[k]));
                    let m = choose|m: int| 0 <= m < rest.items.len() && rest.items[m] == f[k];
                    assert(s.items[m] == f[k]);
                    assert(s.items[s.items.len() - 1] == last);
                    assert(g[k] == f[k] && g[f.len() as int] == last);
                    assert(s.items[m].id != s.items[s.items.len() - 1].id);
                } else {
                    assert(g[i] == f[i] && g[j] == f[j]);
                    let fm = StoreModel { items: f, counter: s.counter };
                    assert(fm.wf());
                    assert(fm.items[i].id != fm.items[j].id);
                }
            }
            assert forall|i: int| 0 <= i < g.len() implies 1 <= #[trigger] g[i].id <= s.counter by {
                if i < f.len() {
                    assert(rest.items.contains(f[i]));
                } else {
                    assert(s.items[s.items.len() - 1] == last);
                }
            }
        }
    }
}

/// Removes, in order, the tasks that `rule` does not keep.
fn retain_by(items: &mut Vec<Todo>, rule: Keep)
    ensures
        final(items)@ == kept(old(items)@, rule),
{
    let mut out: Vec<Todo> = Vec::new();
    let n = items.len();
    let mut i: usize = 0;
    while i < n
        invariant
            n == items.len(),
            items@ == old(items)@,
            0 <= i <= n,
            out@ == kept(items@.take(i as int), rule),
        decreases n - i,
    {
        proof {
            assert(items@.take(i + 1) == items@.take(i as int).push(items@[i as int]));
            items@.take(i as int).lemma_filter_push(items@[i as int], keeps(rule));
        }
        if rule.holds_for(&items[i]) {
            out.push(items[i].clone_task());
        }
        i += 1;
    }
    proof {
        assert(items@.take(n as int) == items@);
    }
    *items = out;
}

impl TodoWrapper {
    /// An empty store, as on first run.
    pub fn new() -> (r: TodoWrapper)
        ensures
            r@.items == Seq::<Todo>::empty(),
            r@.counter == 0,
            r@.wf(),
    {
        TodoWrapper { todo: Vec::new(), counter: 0 }
    }
}

/// Removes every task created more than the retention window before `today`,
/// and returns how many were removed.
pub fn expire_todos(wrapper: &mut TodoWrapper, today: Date) -> (r: usize)
    ensures
        final(wrapper)@ == expired(old(wrapper)@, today),
        r == old(wrapper)@.items.len() - final(wrapper)@.items.len(),
        old(wrapper)@.wf() ==> final(wrapper)@.wf(),
{
    let before = wrapper.todo.len();
    retain_by(&mut wrapper.todo, Keep::Fresh { today });
    proof {
        if old(wrapper)@.wf() {
            lemma_kept_wf(old(wrapper)@, Keep::Fresh { today });
        }
    }
    before - wrapper.todo.len()
}

/// Removes every task in `bucket`.
pub fn clear_bucket(wrapper: &mut TodoWrapper, bucket: Bucket, today: Date)
    ensures
        final(wrapper)@ == cleared(old(wrapper)@, bucket, today),
        old(wrapper)@.wf() ==> final(wrapper)@.wf(),
{
    retain_by(&mut wrapper.todo, Keep::Outside { bucket, today });
    proof {
        if old(wrapper)@.wf() {
            lemma_kept_wf(old(wrapper)@, Keep::Outside { bucket, today });
        }
    }
}

/// Removes the task with id `id`; does nothing where there is none.
pub fn delete_todo(wrapper: &mut TodoWrapper, id: i32)
    ensures
        final(wrapper)@ == deleted(old(wrapper)@, id),
        old(wrapper)@.wf() ==> final(wrapper)@.wf(),
{
    retain_by(&mut wrapper.todo, Keep::OtherThan { id });
    proof {
        if old(wrapper)@.wf() {
            lemma_kept_wf(old(wrapper)@, Keep::OtherThan { id });
        }
    }
}

/// Gives the next id to a new task created on `today` and appends it;
/// returns that id. Priority defaults to false.
pub fn add_todo(wrapper: &mut TodoWrapper, todo: String, priority: Option<bool>, today: Date) -> (r: i32)
    requires
        old(wrapper).counter < i32::MAX,
    ensures
        final(wrapper)@ == added(old(wrapper)@, todo, priority.unwrap_or(false), today),
        r == final(wrapper).counter,
        r == old(wrapper).counter + 1,
        old(wrapper)@.wf() ==> final(wrapper)@.wf(),
{
    wrapper.counter = wrapper.counter + 1;
    let id = wrapper.counter;
    wrapper.todo.push(
        Todo {
            id,
            content: todo,
            priority: priority.unwrap_or(false),
            done: false,
            created_at: today,
        },
    );
    proof {
        let o = old(wrapper)@;
        let n = final(wrapper)@;
        if o.wf() {
            assert forall|i: int, j: int|
                0 <= i < n.items.len() && 0 <= j < n.items.len() && i != j
                implies #[trigger] n.items[i].id != #[trigger] n.items[j].id by {
                if i < o.items.len() {
                    assert(n.items[i] == o.items[i]);
                }
                if j < o.items.len() {
                    assert(n.items[j] == o.items[j]);
                }
            }
            assert forall|i: int| 0 <= i < n.items.len() implies 1 <= #[trigger] n.items[i].id <= n.counter by {
                if i < o.items.len() {
                    assert(n.items[i] == o.items[i]);
                }
            }
        }
    }
    id
}

/// Marks the task with id `id` done; returns whether there was one.
/// Where there is none, nothing changes.
pub fn mark_done(wrapper: &mut TodoWrapper, id: i32) -> (r: bool)
    ensures
        final(wrapper)@ == marked_done(old(wrapper)@, id),
        r == has_id(old(wrapper)@, id),
        old(wrapper)@.wf() ==> final(wrapper)@.wf(),
{
    let ghost start = wrapper@;
    let n = wrapper.todo.len();
    let mut found = false;
    let mut i: usize = 0;
    while i < n
        invariant
            n == wrapper.todo.len() == start.items.len(),
            wrapper.counter == start.counter,
            0 <= i <= n,
            forall|k: int| 0 <= k < i ==> #[trigger] wrapper.todo@[k] == marked_done(start, id).items[k],
            forall|k: int| i <= k < n ==> #[trigger] wrapper.todo@[k] == start.items[k],
            found == exists|k: int| 0 <= k < i && #[trigger] start.items[k].id == id,
        decreases n - i,
    {
        if wrapper.todo[i].id == id {
            wrapper.todo[i].done = true;
            found = true;
        }
        i += 1;
    }
    proof {
        assert(wrapper@.items == marked_done(start, id).items);
        lemma_same_ids_wf(start, wrapper@);
    }
    found
}

/// Gives priority to the task with id `id`; returns whether there was one.
/// Where there is none, nothing changes.
pub fn set_priority(wrapper: &mut TodoWrapper, id: i32) -> (r: bool)
    ensures
        final(wrapper)@ == prioritized(old(wrapper)@, id),
        r == has_id(old(wrapper)@, id),
        old(wrapper)@.wf() ==> final(wrapper)@.wf(),
{
    let ghost start = wrapper@;
    let n = wrapper.todo.len();
    let mut found = false;
    let mut i: usize = 0;
    while i < n
        invariant
            n == wrapper.todo.len() == start.items.len(),
            wrapper.counter == start.counter,
            0 <= i <= n,
            forall|k: int| 0 <= k < i ==> #[trigger] wrapper.todo@[k] == prioritized(start, id).items[k],
            forall|k: int| i <= k < n ==> #[trigger] wrapper.todo@[k] == start.items[k],
            found == exists|k: int| 0 <= k < i && #[trigger] start.items[k].id == id,
        decreases n - i,
    {
        if wrapper.todo[i].id == id {
            wrapper.todo[i].priority = true;
            found = true;
        }
        i += 1;
    }
    proof {
        assert(wrapper@.items == prioritized(start, id).items);
        lemma_same_ids_wf(start, wrapper@);
    }
    found
}

/// Two stores with the same counter and the same ids in the same places are
/// equally well formed.
pub proof fn lemma_same_ids_wf(a: StoreModel, b: StoreModel)
    requires
        a.counter == b.counter,
        a.items.len() == b.items.len(),
        forall|k: int| 0 <= k < a.items.len() ==> #[trigger] a.items[k].id == b.items[k].id,
    ensures
        a.wf() ==> b.wf(),
{
    if a.wf() {
        assert forall|i: int, j: int|
            0 <= i < b.items.len() && 0 <= j < b.items.len() && i != j
            implies #[trigger] b.items[i].id != #[trigger] b.items[j].id by {
            assert(a.items[i].id == b.items[i].id && a.items[j].id == b.items[j].id);
        }
        assert forall|i: int| 0 <= i < b.items.len() implies 1 <= #[trigger] b.items[i].id <= b.counter by {
            assert(a.items[i].id == b.items[i].id);
        }
    }
}

/// Marking a task done a second time changes nothing more: the task stays
/// done, and the second call finds it as the first did.
pub proof fn lemma_mark_done_idempotent(s: StoreModel, id: i32)
    ensures
        marked_done(marked_done(s, id), id) == marked_done(s, id),
        has_id(marked_done(s, id), id) == has_id(s, id),
        forall|k: int|
            0 <= k < s.items.len() && s.items[k].id == id ==> #[trigger] marked_done(s, id).items[k].done,
{
    let once = marked_done(s, id);
    assert(marked_done(once, id).items == once.items);
    if has_id(s, id) {
        let k = choose|k: int| 0 <= k < s.items.len() && #[trigger] s.items[k].id == id;
        assert(once.items[k].id == id);
    }
    if has_id(once, id) {
        let k = choose|k: int| 0 <= k < once.items.len() && #[trigger] once.items[k].id == id;
        assert(s.items[k].id == id);
    }
}

/// The expiry pass removes a task created thirty-one days before today and
/// keeps one created thirty days before today.
pub proof fn lemma_expiry_boundary(s: StoreModel, today: Date, k: int)
    requires
        0 <= k < s.items.len(),
    ensures
        s.items[k].created_at.day == today.day - 31 ==> !expired(s, today).items.contains(s.items[k]),
        s.items[k].created_at.day == today.day - 30 ==> expired(s, today).items.contains(s.items[k]),
{
    let rule = Keep::Fresh { today };
    let e = expired(s, today).items;
    if s.items[k].created_at.day == today.day - 31 && e.contains(s.items[k]) {
        let i = choose|i: int| 0 <= i < e.len() && e[i] == s.items[k];
        s.items.lemma_filter_pred(keeps(rule), i);
    }
    if s.items[k].created_at.day == today.day - 30 {
        s.items.lemma_filter_contains(keeps(rule), k);
    }
}

} // verus!
