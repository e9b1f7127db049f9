//! Defaults of the embedded, memory-mapped store.
use vstd::prelude::*;

verus! {

/// Readers that the store admits at once.
pub fn max_readers() -> (r: u32)
    ensures
        r == 126,
{
    126
}

/// Size of the memory map in bytes: 1024 pages of 4096 bytes.
pub fn map_size() -> (r: usize)
    ensures
        r == 4096 * 1024,
{
    4096 * 1024
}

/// Items kept in a user's history.
pub fn user_history_length() -> (r: usize)
    ensures
        r == 16,
{
    16
}

/// Activities kept in the list that training drains.
pub fn activity_list_length() -> (r: u32)
    ensures
        r == 256,
{
    256
}

/// Items kept in a partition's list of recent items.
pub fn recent_list_length() -> (r: u32)
    ensures
        r == 256,
{
    256
}

} // verus!
