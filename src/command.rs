use vstd::prelude::*;
use crate::bucket::{Bucket, Date};
use crate::listing::{DayGroup, groups_of, list_todos, selected};
use crate::store::{
    StoreModel, TodoWrapper, add_todo, added, clear_bucket, cleared, delete_todo, deleted,
    expire_todos, expired, has_id, mark_done, marked_done, prioritized, set_priority,
};

verus! {

/// A user command: each maps to exactly one store operation or query.
#[derive(Debug)]
pub enum Commands {
    Add { todo: String, priority: Option<bool> },
    List { range: Option<Bucket> },
    Clear { range: Bucket },
    Done { id: i32 },
    Pset { id: i32 },
    Delete { id: i32 },
}

/// A parsed invocation.
#[derive(Debug)]
pub struct LazyTodo {
    pub command: Commands,
}

/// What a command hands back for presentation.
#[derive(Debug)]
pub enum Reply {
    /// The id given to the new task.
    Added { id: i32 },
    /// The grouped listing.
    Listed { groups: Vec<DayGroup> },
    /// Whether a task with the id was found.
    Found { found: bool },
    /// Tasks were removed.
    Removed,
}

/// The store after `command`.
pub open spec fn step(s: StoreModel, command: Commands, today: Date) -> StoreModel {
    match command {
        Commands::Add { todo, priority } => added(s, todo, priority.unwrap_or(false), today),
        Commands::List { .. } => s,
        Commands::Clear { range } => cleared(s, range, today),
        Commands::Done { id } => marked_done(s, id),
        Commands::Pset { id } => prioritized(s, id),
        Commands::Delete { id } => deleted(s, id),
    }
}

/// The store after one invocation: the expiry pass, then `command`.
pub open spec fn session(s: StoreModel, command: Commands, today: Date) -> StoreModel {
    step(expired(s, today), command, today)
}

/// What `command` replies on store `s`.
pub open spec fn reply_ok(s: StoreModel, command: Commands, today: Date, r: Reply) -> bool {
    match command {
        Commands::Add { .. } => r == Reply::Added { id: (s.counter + 1) as i32 },
        Commands::List { range } => match r {
            Reply::Listed { groups } => groups_of(
                groups@,
                selected(s.items, range.unwrap_or(Bucket::ALL), today),
            ),
            _ => false,
        },
        Commands::Done { id } => r == Reply::Found { found: has_id(s, id) },
        Commands::Pset { id } => r == Reply::Found { found: has_id(s, id) },
        Commands::Clear { .. } => r == Reply::Removed,
        Commands::Delete { .. } => r == Reply::Removed,
    }
}

/// Runs `command` against the store.
pub fn run_command(wrapper: &mut TodoWrapper, command: Commands, today: Date) -> (r: Reply)
    requires
        command is Add ==> old(wrapper).counter < i32::MAX,
    ensures
        final(wrapper)@ == step(old(wrapper)@, command, today),
        reply_ok(old(wrapper)@, command, today, r),
        old(wrapper)@.wf() ==> final(wrapper)@.wf(),
{
    match command {
        Commands::Add { todo, priority } => {
            let id = add_todo(wrapper, todo, priority, today);
            Reply::Added { id }
        },
        Commands::List { range } => Reply::Listed { groups: list_todos(wrapper, range, today) },
        Commands::Clear { range } => {
            clear_bucket(wrapper, range, today);
            Reply::Removed
        },
        Commands::Done { id } => Reply::Found { found: mark_done(wrapper, id) },
        Commands::Pset { id } => Reply::Found { found: set_priority(wrapper, id) },
        Commands::Delete { id } => {
            delete_todo(wrapper, id);
            Reply::Removed
        },
    }
}

/// One invocation: removes expired tasks, then runs `command`. Returns how
/// many tasks expired and the command's reply.
pub fn run_session(wrapper: &mut TodoWrapper, command: Commands, today: Date) -> (r: (usize, Reply))
    requires
        command is Add ==> old(wrapper).counter < i32::MAX,
    ensures
        final(wrapper)@ == session(old(wrapper)@, command, today),
        r.0 == old(wrapper)@.items.len() - expired(old(wrapper)@, today).items.len(),
        reply_ok(expired(old(wrapper)@, today), command, today, r.1),
        old(wrapper)@.wf() ==> final(wrapper)@.wf(),
{
    let removed = expire_todos(wrapper, today);
    let reply = run_command(wrapper, command, today);
    (removed, reply)
}

/// The store after a series of invocations, each a command and its day.
pub open spec fn run(s: StoreModel, steps: Seq<(Commands, Date)>) -> StoreModel
    decreases steps.len(),
{
    if steps.len() == 0 {
        s
    } else {
        run(session(s, steps[0].0, steps[0].1), steps.drop_first())
    }
}

/// The ids that the add commands of a series of invocations hand out, in order.
pub open spec fn issued_ids(s: StoreModel, steps: Seq<(Commands, Date)>) -> Seq<int>
    decreases steps.len(),
{
    if steps.len() == 0 {
        Seq::empty()
    } else {
        let next = session(s, steps[0].0, steps[0].1);
        let head = if steps[0].0 is Add {
            seq![next.counter]
        } else {
            Seq::empty()
        };
        head + issued_ids(next, steps.drop_first())
    }
}

/// Over any series of invocations, whatever is listed, done, cleared or
/// deleted in between, the adds hand out the ids following the counter, one
/// by one in order, and the counter ends at the last one. From an empty store
/// the ids are exactly 1, 2, ..., N.
pub proof fn lemma_ids_count_up(s: StoreModel, steps: Seq<(Commands, Date)>)
    ensures
        issued_ids(s, steps) == Seq::new(issued_ids(s, steps).len(), |i: int| s.counter + 1 + i),
        run(s, steps).counter == s.counter + issued_ids(s, steps).len(),
    decreases steps.len(),
{
    if steps.len() > 0 {
        let next = session(s, steps[0].0, steps[0].1);
        let rest = steps.drop_first();
        lemma_ids_count_up(next, rest);
        let tail = issued_ids(next, rest);
        if steps[0].0 is Add {
            assert(next.counter == s.counter + 1);
            assert(issued_ids(s, steps) =~= Seq::new(tail.len() + 1, |i: int| s.counter + 1 + i));
        } else {
            assert(next.counter == s.counter);
            assert(issued_ids(s, steps) =~= tail);
        }
    }
}

} // verus!
