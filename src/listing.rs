use vstd::prelude::*;
use itertools::Itertools;
use crate::bucket::{Bucket, Date, in_bucket, is_valid_bucket};
use crate::store::{Todo, TodoWrapper};

verus! {


/// How a task is shown: the four combinations of its done and priority flags.
#[derive(Clone, Copy, Debug, PartialEq, Eq, Structural)]
pub enum Style {
    Normal,
    Priority,
    Done,
    DonePriority,
}

/// The tasks of one creation date, in store order.
#[derive(Debug)]
pub struct DayGroup {
    pub date: Date,
    pub items: Vec<Todo>,
}

/// The style class of a task.
pub open spec fn style_spec(t: Todo) -> Style {
    if t.done && t.priority {
        Style::DonePriority
    } else if t.done {
        Style::Done
    } else if t.priority {
        Style::Priority
    } else {
        Style::Normal
    }
}

/// Picks the style class of a task.
pub fn style_of(t: &Todo) -> (r: Style)
    ensures
        r == style_spec(*t),
{
    if t.done && t.priority {
        Style::DonePriority
    } else if t.done {
        Style::Done
    } else if t.priority {
        Style::Priority
    } else {
        Style::Normal
    }
}

/// Whether a task lies in `bucket`.
pub open spec fn in_range(bucket: Bucket, today: Date) -> spec_fn(Todo) -> bool {
    |t: Todo| in_bucket(t.created_at.day as int, bucket, today.day as int)
}

/// Whether a task was created on day `day`.
pub open spec fn on_day(day: i32) -> spec_fn(Todo) -> bool {
    |t: Todo| t.created_at.day == day
}

/// The tasks of `items` in `bucket`, in their order.
pub open spec fn selected(items: Seq<Todo>, bucket: Bucket, today: Date) -> Seq<Todo> {
    items.filter(in_range(bucket, today))
}

/// Whether some task of `s` was created on day `day`.
pub open spec fn has_day(s: Seq<Todo>, day: i32) -> bool {
    exists|k: int| 0 <= k < s.len() && #[trigger] s[k].created_at.day == day
}

/// Relies on itertools' `Itertools::sorted`: it returns the same items in
/// ascending order.
#[verifier::external_body]
fn sorted_days(days: Vec<i32>) -> (r: Vec<i32>)
    ensures
        r@.to_multiset() == days@.to_multiset(),
        forall|i: int, j: int| 0 <= i <= j < r@.len() ==> r@[i] <= r@[j],
{
    days.into_iter().sorted().collect()
}

/// The tasks of `items` in `bucket`, in order.
fn select(items: &Vec<Todo>, bucket: Bucket, today: Date) -> (r: Vec<Todo>)
    ensures
        r@ == selected(items@, bucket, today),
{
    let mut out: Vec<Todo> = Vec::new();
    let n = items.len();
    let mut i: usize = 0;
    while i < n
        invariant
            n == items.len(),
            0 <= i <= n,
            out@ == selected(items@.take(i as int), bucket, today),
        decreases n - i,
    {
        proof {
            assert(items@.take(i + 1) =~= items@.take(i as int).push(items@[i as int]));
            items@.take(i as int).lemma_filter_push(items@[i as int], in_range(bucket, today));
        }
        if is_valid_bucket(items[i].created_at, bucket, today) {
            out.push(items[i].clone_task());
        }
        i += 1;
    }
    proof {
        assert(items@.take(n as int) =~= items@);
    }
    out
}

/// The tasks of `items` created on day `day`, in order.
fn of_day(items: &Vec<Todo>, day: i32) -> (r: Vec<Todo>)
    ensures
        r@ == items@.filter(on_day(day)),
{
    let mut out: Vec<Todo> = Vec::new();
    let n = items.len();
    let mut i: usize = 0;
    while i < n
        invariant
            n == items.len(),
            0 <= i <= n,
            out@ == items@.take(i as int).filter(on_day(day)),
        decreases n - i,
    {
        proof {
            assert(items@.take(i + 1) =~= items@.take(i as int).push(items@[i as int]));
            items@.take(i as int).lemma_filter_push(items@[i as int], on_day(day));
        }
        if items[i].created_at.day == day {
            out.push(items[i].clone_task());
        }
        i += 1;
    }
    proof {
        assert(items@.take(n as int) =~= items@);
    }
    out
}

/// The distinct creation days of `items`, in ascending order.
fn distinct_days(items: &Vec<Todo>) -> (r: Vec<i32>)
    ensures
        forall|i: int, j: int| 0 <= i < j < r@.len() ==> r@[i] < r@[j],
        forall|k: int| 0 <= k < items@.len() ==> r@.contains(#[trigger] items@[k].created_at.day),
        forall|i: int| 0 <= i < r@.len() ==> has_day(items@, #[trigger] r@[i]),
{
    broadcast use vstd::seq_lib::group_seq_properties;

    let mut days: Vec<i32> = Vec::new();
    let n = items.len();
    let mut i: usize = 0;
    while i < n
        invariant
            n == items.len(),
            0 <= i <= n,
            days@.len() == i,
            forall|k: int| 0 <= k < i ==> #[trigger] days@[k] == items@[k].created_at.day,
        decreases n - i,
    {
        days.push(items[i].created_at.day);
        i += 1;
    }
    let ghost all = days@;
    let sorted = sorted_days(days);
    let mut out: Vec<i32> = Vec::new();
    let m = sorted.len();
    let mut j: usize = 0;
    while j < m
        invariant
            m == sorted@.len(),
            0 <= j <= m,
            forall|a: int, b: int| 0 <= a <= b < m ==> sorted@[a] <= sorted@[b],
            forall|a: int, b: int| 0 <= a < b < out@.len() ==> out@[a] < out@[b],
            j > 0 ==> out@.len() > 0 && out@.last() == sorted@[j - 1],
            j == 0 ==> out@.len() == 0,
            forall|k: int| 0 <= k < j ==> out@.contains(#[trigger] sorted@[k]),
            forall|a: int| 0 <= a < out@.len() ==> sorted@.contains(#[trigger] out@[a]),
        decreases m - j,
    {
        let d = sorted[j];
        let ghost before = out@;
        if out.len() == 0 || out[out.len() - 1] < d {
            out.push(d);
            proof {
                assert forall|k: int| 0 <= k <= j implies out@.contains(#[trigger] sorted@[k]) by {
                    if k < j {
                        let w = choose|w: int| 0 <= w < before.len() && before[w] == sorted@[k];
                        assert(out@[w] == sorted@[k]);
                    } else {
                        assert(out@[out@.len() - 1] == d);
                    }
                }
                assert forall|a: int| 0 <= a < out@.len() implies sorted@.contains(#[trigger] out@[a]) by {
                    if a < before.len() {
                        assert(out@[a] == before[a]);
                    } else {
                        assert(sorted@[j as int] == out@[a]);
                    }
                }
            }
        } else {
            assert(out@[out@.len() - 1] == d);
            assert(out@.contains(sorted@[j as int]));
        }
        j += 1;
    }
    proof {
        broadcast use vstd::seq_lib::group_to_multiset_ensures;
        all.to_multiset_ensures();
        sorted@.to_multiset_ensures();
        assert forall|k: int| 0 <= k < items@.len() implies out@.contains(
            #[trigger] items@[k].created_at.day,
        ) by {
            assert(all[k] == items@[k].created_at.day);
            assert(all.contains(all[k]));
            assert(all.to_multiset().count(all[k]) > 0);
            assert(sorted@.contains(all[k]));
        }
        assert forall|a: int| 0 <= a < out@.len() implies has_day(items@, #[trigger] out@[a]) by {
            assert(sorted@.contains(out@[a]));
            assert(sorted@.to_multiset().count(out@[a]) > 0);
            assert(all.contains(out@[a]));
            let k = choose|k: int| 0 <= k < all.len() && all[k] == out@[a];
            assert(items@[k].created_at.day == out@[a]);
        }
    }
    out
}

/// `groups` is `sel` grouped by creation date: the dates strictly ascending,
/// each group holding exactly the tasks of `sel` of its date, in order, and
/// every date of `sel` having a group.
pub open spec fn groups_of(groups: Seq<DayGroup>, sel: Seq<Todo>) -> bool {
    &&& (forall|i: int, j: int| 0 <= i < j < groups.len() ==> groups[i].date.day < groups[j].date.day)
    &&& (forall|i: int|
        0 <= i < groups.len() ==> (#[trigger] groups[i]).items@ == sel.filter(on_day(groups[i].date.day))
            && groups[i].items@.len() > 0)
    &&& (forall|k: int| 0 <= k < sel.len() ==> has_group(groups, #[trigger] sel[k].created_at))
}

/// Whether some group of `groups` is that of `date`.
pub open spec fn has_group(groups: Seq<DayGroup>, date: Date) -> bool {
    exists|i: int| 0 <= i < groups.len() && #[trigger] groups[i].date == date
}

/// One group per day of `days`, each with the tasks of `sel` of that day.
fn group_by_days(sel: &Vec<Todo>, days: &Vec<i32>) -> (r: Vec<DayGroup>)
    requires
        forall|i: int| 0 <= i < days@.len() ==> has_day(sel@, #[trigger] days@[i]),
    ensures
        r@.len() == days@.len(),
        forall|i: int|
            0 <= i < r@.len() ==> (#[trigger] r@[i]).date.day == days@[i]
                && r@[i].items@ == sel@.filter(on_day(days@[i]))
                && r@[i].items@.len() > 0,
{
    let mut groups: Vec<DayGroup> = Vec::new();
    let n = days.len();
    let mut g: usize = 0;
    while g < n
        invariant
            n == days@.len(),
            0 <= g <= n,
            groups@.len() == g,
            forall|i: int| 0 <= i < days@.len() ==> has_day(sel@, #[trigger] days@[i]),
            forall|i: int|
                0 <= i < g ==> (#[trigger] groups@[i]).date.day == days@[i]
                    && groups@[i].items@ == sel@.filter(on_day(days@[i]))
                    && groups@[i].items@.len() > 0,
        decreases n - g,
    {
        let d = days[g];
        let items = of_day(sel, d);
        proof {
            assert(has_day(sel@, days@[g as int]));
            let k = choose|k: int| 0 <= k < sel@.len() && #[trigger] sel@[k].created_at.day == d;
            sel@.lemma_filter_contains(on_day(d), k);
        }
        groups.push(DayGroup { date: Date { day: d }, items });
        g += 1;
    }
    groups
}

/// The tasks in `range` (all of them where it is `None`), grouped by creation
/// date: one group per date that occurs, dates ascending, and in each group
/// the tasks of that date in store order.
pub fn list_todos(wrapper: &TodoWrapper, range: Option<Bucket>, today: Date) -> (r: Vec<DayGroup>)
    ensures
        groups_of(r@, selected(wrapper.todo@, range.unwrap_or(Bucket::ALL), today)),
{
    let bucket = range.unwrap_or(Bucket::ALL);
    let sel = select(&wrapper.todo, bucket, today);
    let days = distinct_days(&sel);
    let groups = group_by_days(&sel, &days);
    proof {
        assert forall|k: int| 0 <= k < sel@.len() implies has_group(
            groups@,
            #[trigger] sel@[k].created_at,
        ) by {
            assert(days@.contains(sel@[k].created_at.day));
            let i = choose|i: int| 0 <= i < days@.len() && days@[i] == sel@[k].created_at.day;
            assert(groups@[i].date == sel@[k].created_at);
        }
    }
    groups
}

} // verus!
