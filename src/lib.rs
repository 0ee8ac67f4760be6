//! A personal to-do tracker: a store of short tasks with priority and done
//! flags, a monotonic id counter, date buckets and automatic expiry.

pub mod bucket;
pub mod command;
pub mod listing;
pub mod store;

pub use bucket::{Bucket, Date, is_valid_bucket};
pub use command::{Commands, LazyTodo, Reply, run_command, run_session};
pub use listing::{DayGroup, Style, list_todos, style_of};
pub use store::{Todo, TodoWrapper};
