//! Defaults of the external key-value store.
use vstd::prelude::*;

verus! {

/// Items kept in a user's history.
pub fn user_history_length() -> (r: usize)
    ensures
        r == 16,
{
    16
}

/// Activities kept in the list that training drains.
pub fn activity_list_length() -> (r: u32)
    ensures
        r == 256,
{
    256
}

/// Seconds that an activity nobody chose is kept: ten minutes.
pub fn short_activity_lifetime() -> (r: u32)
    ensures
        r == 600,
{
    60 * 10
}

/// Seconds that a chosen activity is kept: two hours.
pub fn long_activity_lifetime() -> (r: u32)
    ensures
        r == 7200,
{
    60 * 60 * 2
}

/// Seconds that the activity list is kept: two hours.
pub fn activity_list_lifetime() -> (r: u32)
    ensures
        r == 7200,
{
    60 * 60 * 2
}

/// Items kept in a partition's list of recent items.
pub fn recent_list_length() -> (r: u32)
    ensures
        r == 256,
{
    256
}

} // verus!
