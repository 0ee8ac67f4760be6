use vstd::prelude::*;

verus! {

/// A calendar date, held as its day number counted from the start of the
/// common era (0001-01-01 is day 1). Consecutive days have consecutive numbers.
#[derive(Clone, Copy, Debug, PartialEq, Eq, Structural, PartialOrd, Ord, Hash)]
pub struct Date {
    pub day: i32,
}

/// A named date range, relative to today, used for listing and clearing.
#[allow(non_camel_case_types)]
#[derive(Clone, Copy, Debug, PartialEq, Eq, Structural, PartialOrd, Ord, Hash)]
pub enum Bucket {
    TODAY,
    WEEK,
    MONTH,
    ALL,
}

/// Whether a task created on day `date` falls in `bucket` when today is `today`.
/// Dates after today pass WEEK and MONTH: those have a lower bound only.
pub open spec fn in_bucket(date: int, bucket: Bucket, today: int) -> bool {
    match bucket {
        Bucket::TODAY => date == today,
        Bucket::WEEK => date >= today - 7,
        Bucket::MONTH => date >= today - 30,
        Bucket::ALL => true,
    }
}

/// Classifies `key` against `bucket`, with today given by the caller.
pub fn is_valid_bucket(key: Date, bucket: Bucket, today: Date) -> (r: bool)
    ensures
        r == in_bucket(key.day as int, bucket, today.day as int),
{
    match bucket {
        Bucket::TODAY => key.day == today.day,
        Bucket::WEEK => key.day as i64 >= today.day as i64 - 7,
        Bucket::MONTH => key.day as i64 >= today.day as i64 - 30,
        Bucket::ALL => true,
    }
}

/// Every date up to today is in the ALL bucket.
pub proof fn lemma_all_holds_past(d: int, today: int)
    requires
        d <= today,
    ensures
        in_bucket(d, Bucket::ALL, today),
{
}

/// Today itself is in every bucket.
pub proof fn lemma_today_in_every_bucket(bucket: Bucket, today: int)
    ensures
        in_bucket(today, bucket, today),
{
}

/// The WEEK bucket reaches back exactly seven days: seven days ago is in it,
/// eight days ago is not.
pub proof fn lemma_week_boundary(today: int)
    ensures
        in_bucket(today - 7, Bucket::WEEK, today),
        !in_bucket(today - 8, Bucket::WEEK, today),
{
}

/// The MONTH bucket reaches back exactly thirty days: thirty days ago is in
/// it, thirty-one days ago is not.
pub proof fn lemma_month_boundary(today: int)
    ensures
        in_bucket(today - 30, Bucket::MONTH, today),
        !in_bucket(today - 31, Bucket::MONTH, today),
{
}

} // verus!
