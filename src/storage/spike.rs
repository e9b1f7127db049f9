//! Defaults of the in-network data grid store.
use vstd::prelude::*;

verus! {

/// Threads of the client's pool.
pub fn aerospike_thread_pool() -> (r: usize)
    ensures
        r == 16,
{
    16
}

/// Whether the client connects through the alternate service addresses.
pub fn aerospike_services_alternate() -> (r: bool)
    ensures
        r == false,
{
    false
}

/// Items kept in a user's history.
pub fn user_history_length() -> (r: usize)
    ensures
        r == 16,
{
    16
}

/// Seconds that an activity nobody chose is kept: ten minutes.
pub fn short_activity_lifetime() -> (r: u32)
    ensures
        r == 600,
{
    60 * 10
}

/// Seconds that a chosen activity is kept: two hours.
pub fn long_activity_lifetime() -> (r: u32)
    ensures
        r == 7200,
{
    60 * 60 * 2
}

/// Seconds that the activity list is kept: two hours.
pub fn list_activity_lifetime() -> (r: u32)
    ensures
        r == 7200,
{
    60 * 60 * 2
}

/// Activities kept in the list that training drains.
pub fn list_activity_length() -> (r: u32)
    ensures
        r == 256,
{
    256
}

/// Items kept in a partition's list of recent items.
pub fn list_recent_length() -> (r: u32)
    ensures
        r == 256,
{
    256
}

} // verus!
