use lazytodo::store::{add_todo, clear_bucket, delete_todo, expire_todos, mark_done, set_priority};
use lazytodo::{list_todos, run_command, run_session, style_of, Bucket, Commands, Date, Reply, Style, Todo, TodoWrapper};

const TODAY: i32 = 739_000;

fn day(offset: i32) -> Date {
    Date { day: TODAY + offset }
}

fn ids(w: &TodoWrapper) -> Vec<i32> {
    w.todo.iter().map(|t| t.id).collect()
}

#[test]
fn new_store_is_empty() {
    let w = TodoWrapper::new();
    assert!(w.todo.is_empty());
    assert_eq!(w.counter, 0);
}

#[test]
fn add_assigns_next_id_and_defaults() {
    let mut w = TodoWrapper::new();
    let id = add_todo(&mut w, "buy milk".to_string(), None, day(0));
    assert_eq!(id, 1);
    assert_eq!(w.counter, 1);
    assert_eq!(
        w.todo[0],
        Todo { id: 1, content: "buy milk".to_string(), priority: false, done: false, created_at: day(0) }
    );
    let id2 = add_todo(&mut w, "x".to_string(), Some(true), day(-2));
    assert_eq!(id2, 2);
    assert!(w.todo[1].priority);
    assert_eq!(w.todo[1].created_at, day(-2));
}

#[test]
fn mark_done_twice_is_idempotent() {
    let mut w = TodoWrapper::new();
    add_todo(&mut w, "a".to_string(), None, day(0));
    assert!(mark_done(&mut w, 1));
    assert!(w.todo[0].done);
    assert!(mark_done(&mut w, 1));
    assert!(w.todo[0].done);
}

#[test]
fn mark_done_missing_id_changes_nothing() {
    let mut w = TodoWrapper::new();
    add_todo(&mut w, "a".to_string(), None, day(0));
    assert!(!mark_done(&mut w, 7));
    assert!(!w.todo[0].done);
    assert!(!set_priority(&mut w, 7));
    assert!(!w.todo[0].priority);
}

#[test]
fn set_priority_marks_only_that_task() {
    let mut w = TodoWrapper::new();
    add_todo(&mut w, "a".to_string(), None, day(0));
    add_todo(&mut w, "b".to_string(), None, day(0));
    assert!(set_priority(&mut w, 2));
    assert!(!w.todo[0].priority);
    assert!(w.todo[1].priority);
}

#[test]
fn ids_count_up_across_deletes_and_restarts() {
    let mut w = TodoWrapper::new();
    let mut issued = Vec::new();
    issued.push(add_todo(&mut w, "a".to_string(), None, day(0)));
    issued.push(add_todo(&mut w, "b".to_string(), None, day(0)));
    delete_todo(&mut w, 2);
    issued.push(add_todo(&mut w, "c".to_string(), None, day(1)));
    delete_todo(&mut w, 1);
    delete_todo(&mut w, 3);
    assert!(w.todo.is_empty());
    // a restart hands the same counter back
    let mut w = TodoWrapper { todo: Vec::new(), counter: w.counter };
    issued.push(add_todo(&mut w, "d".to_string(), None, day(2)));
    assert_eq!(issued, vec![1, 2, 3, 4]);
    assert_eq!(w.counter, 4);
}

#[test]
fn delete_missing_id_is_noop() {
    let mut w = TodoWrapper::new();
    add_todo(&mut w, "a".to_string(), None, day(0));
    delete_todo(&mut w, 9);
    assert_eq!(ids(&w), vec![1]);
}

#[test]
fn expiry_boundary() {
    let mut w = TodoWrapper::new();
    add_todo(&mut w, "old".to_string(), None, day(-31));
    add_todo(&mut w, "edge".to_string(), None, day(-30));
    add_todo(&mut w, "new".to_string(), None, day(0));
    let removed = expire_todos(&mut w, day(0));
    assert_eq!(removed, 1);
    assert_eq!(ids(&w), vec![2, 3]);
    assert_eq!(w.counter, 3);
}

#[test]
fn expiry_on_empty_store() {
    let mut w = TodoWrapper::new();
    assert_eq!(expire_todos(&mut w, day(0)), 0);
}

#[test]
fn clear_removes_matching_bucket() {
    let mut w = TodoWrapper::new();
    add_todo(&mut w, "a".to_string(), None, day(-10));
    add_todo(&mut w, "b".to_string(), None, day(-3));
    add_todo(&mut w, "c".to_string(), None, day(0));
    clear_bucket(&mut w, Bucket::WEEK, day(0));
    assert_eq!(ids(&w), vec![1]);
    clear_bucket(&mut w, Bucket::ALL, day(0));
    assert!(w.todo.is_empty());
    assert_eq!(w.counter, 3);
}

#[test]
fn style_classes() {
    let mut t = Todo { id: 1, content: "a".to_string(), priority: false, done: false, created_at: day(0) };
    assert_eq!(style_of(&t), Style::Normal);
    t.priority = true;
    assert_eq!(style_of(&t), Style::Priority);
    t.done = true;
    assert_eq!(style_of(&t), Style::DonePriority);
    t.priority = false;
    assert_eq!(style_of(&t), Style::Done);
}

#[test]
fn list_groups_by_date_ascending() {
    let mut w = TodoWrapper::new();
    add_todo(&mut w, "a".to_string(), None, day(0));
    add_todo(&mut w, "b".to_string(), None, day(-5));
    add_todo(&mut w, "c".to_string(), None, day(0));
    add_todo(&mut w, "d".to_string(), None, day(-20));
    add_todo(&mut w, "e".to_string(), None, day(-5));
    let groups = list_todos(&w, None, day(0));
    let dates: Vec<Date> = groups.iter().map(|g| g.date).collect();
    assert_eq!(dates, vec![day(-20), day(-5), day(0)]);
    let members: Vec<Vec<i32>> = groups.iter().map(|g| g.items.iter().map(|t| t.id).collect()).collect();
    assert_eq!(members, vec![vec![4], vec![2, 5], vec![1, 3]]);

    let week = list_todos(&w, Some(Bucket::WEEK), day(0));
    let dates: Vec<Date> = week.iter().map(|g| g.date).collect();
    assert_eq!(dates, vec![day(-5), day(0)]);

    let today = list_todos(&w, Some(Bucket::TODAY), day(0));
    assert_eq!(today.len(), 1);
    assert_eq!(today[0].items.len(), 2);
}

#[test]
fn list_of_empty_store_is_empty() {
    let w = TodoWrapper::new();
    assert!(list_todos(&w, Some(Bucket::ALL), day(0)).is_empty());
}

#[test]
fn end_to_end_scenario() {
    let mut w = TodoWrapper::new();
    let r = run_command(&mut w, Commands::Add { todo: "buy milk".to_string(), priority: None }, day(0));
    assert!(matches!(r, Reply::Added { id: 1 }));
    assert!(!w.todo[0].done);
    assert!(!w.todo[0].priority);
    let r = run_command(&mut w, Commands::Add { todo: "call mom".to_string(), priority: Some(true) }, day(0));
    assert!(matches!(r, Reply::Added { id: 2 }));
    assert!(w.todo[1].priority);

    match run_command(&mut w, Commands::List { range: Some(Bucket::ALL) }, day(0)) {
        Reply::Listed { groups } => {
            assert_eq!(groups.len(), 1);
            assert_eq!(groups[0].date, day(0));
            assert_eq!(groups[0].items.len(), 2);
            assert_eq!(groups[0].items[1].content, "call mom");
            assert_eq!(style_of(&groups[0].items[1]), Style::Priority);
        }
        _ => panic!("expected a listing"),
    }

    let r = run_command(&mut w, Commands::Done { id: 1 }, day(0));
    assert!(matches!(r, Reply::Found { found: true }));
    assert!(w.todo[0].done);
    match run_command(&mut w, Commands::List { range: None }, day(0)) {
        Reply::Listed { groups } => {
            assert_eq!(style_of(&groups[0].items[0]), Style::Done);
        }
        _ => panic!("expected a listing"),
    }

    let r = run_command(&mut w, Commands::Clear { range: Bucket::TODAY }, day(0));
    assert!(matches!(r, Reply::Removed));
    assert!(w.todo.is_empty());
    assert_eq!(w.counter, 2);
}

#[test]
fn session_expires_before_command() {
    let mut w = TodoWrapper::new();
    add_todo(&mut w, "old".to_string(), None, day(-40));
    add_todo(&mut w, "keep".to_string(), None, day(-1));
    let (removed, reply) = run_session(&mut w, Commands::Pset { id: 1 }, day(0));
    assert_eq!(removed, 1);
    assert!(matches!(reply, Reply::Found { found: false }));
    assert_eq!(ids(&w), vec![2]);
    let (removed, reply) = run_session(&mut w, Commands::Delete { id: 2 }, day(0));
    assert_eq!(removed, 0);
    assert!(matches!(reply, Reply::Removed));
    assert!(w.todo.is_empty());
}
