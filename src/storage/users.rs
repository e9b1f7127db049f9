//! Per-user data: the recently viewed items, newest first.
use vstd::prelude::*;

verus! {

/// The first `n` entries of `s`, or all of them where `s` is shorter.
pub open spec fn take_at_most<T>(s: Seq<T>, n: nat) -> Seq<T> {
    if n < s.len() {
        s.take(n as int)
    } else {
        s
    }
}

/// Puts `item` at the head of `list` and keeps at most `cap` entries, as
/// the list of activities awaiting training is kept.
pub fn push_front_capped<T>(list: &mut Vec<T>, item: T, cap: usize)
    requires
        old(list)@.len() < usize::MAX,
    ensures
        final(list)@ == take_at_most(seq![item] + old(list)@, cap as nat),
{
    list.insert(0, item);
    assert(list@ =~= seq![item] + old(list)@);
    list.truncate(cap);
}

#[derive(Debug, Clone)]
pub struct UserData {
    pub id: String,
    pub history: Vec<u128>,
}

impl UserData {
    /// A user with an empty history.
    pub fn new(id: String) -> (r: UserData)
        ensures
            r.id@ == id@,
            r.history@.len() == 0,
    {
        UserData { id, history: Vec::new() }
    }

    /// Puts `item` at the head of the history and keeps at most `cap`
    /// entries.
    pub fn push_history(&mut self, item: u128, cap: usize)
        ensures
            final(self).id == old(self).id,
            final(self).history@ == take_at_most(seq![item] + old(self).history@, cap as nat),
    {
        let mut next: Vec<u128> = Vec::new();
        if cap > 0 {
            next.push(item);
        }
        let mut i: usize = 0;
        while i < self.history.len() && next.len() < cap
            invariant
                i <= self.history@.len(),
                cap > 0 ==> next@ == (seq![item] + self.history@).take(i + 1),
                cap == 0 ==> next@.len() == 0 && i == 0,
                next@.len() <= cap,
            decreases self.history@.len() - i,
        {
            next.push(self.history[i]);
            i = i + 1;
            assert(next@ =~= (seq![item] + self.history@).take(i + 1));
        }
        proof {
            let full = seq![item] + self.history@;
            if cap == 0 {
                assert(full.take(0) =~= next@);
            } else if i == self.history@.len() {
                assert(full.take(i + 1) =~= full);
            }
        }
        self.history = next;
    }
}

} // verus!
