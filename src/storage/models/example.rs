//! Candidate examples: an item together with the positions at which it
//! stands in the near, top and popular lists.
use crate::learn::vector::Scalar;
use crate::storage::items::scope::TimeScope;
use vstd::prelude::*;

verus! {

/// Number of time scopes.
pub const SCOPES: usize = 7;

/// A position in a ranked list: the score there and the rank (0 for the
/// first entry).
#[derive(Debug, Clone, Copy, PartialEq, Eq, Structural)]
pub struct ListPosition {
    pub value: Scalar,
    pub rank: u64,
}

impl ListPosition {
    pub fn new(value: Scalar, rank: u64) -> (r: ListPosition)
        ensures
            r == (ListPosition { value, rank }),
    {
        ListPosition { value, rank }
    }
}

/// The list a position was read from.
#[derive(Debug, Clone, Copy, PartialEq, Eq, Structural)]
pub enum ListKind {
    Near,
    Top(TimeScope),
    Pop(TimeScope),
}

pub open spec fn scope_index_of(s: TimeScope) -> int {
    match s {
        TimeScope::HalfHour => 0,
        TimeScope::Hour => 1,
        TimeScope::TwoHours => 2,
        TimeScope::FourHours => 3,
        TimeScope::EightHours => 4,
        TimeScope::Day => 5,
        TimeScope::Month => 6,
    }
}

/// Where a scope's position is kept in an example.
pub fn scope_index(s: TimeScope) -> (r: usize)
    ensures
        r == scope_index_of(s),
        r < SCOPES,
{
    match s {
        TimeScope::HalfHour => 0,
        TimeScope::Hour => 1,
        TimeScope::TwoHours => 2,
        TimeScope::FourHours => 3,
        TimeScope::EightHours => 4,
        TimeScope::Day => 5,
        TimeScope::Month => 6,
    }
}

/// A candidate item with its list positions; `top` and `pop` are indexed
/// by scope.
#[derive(Debug, Clone, Copy)]
pub struct BasicExample {
    pub id: u128,
    pub near: Option<ListPosition>,
    pub top: [Option<ListPosition>; 7],
    pub pop: [Option<ListPosition>; 7],
}

/// What an example holds: id, near position, top positions, popular
/// positions.
pub type ExampleModel = (
    u128,
    Option<ListPosition>,
    Seq<Option<ListPosition>>,
    Seq<Option<ListPosition>>,
);

pub open spec fn model(e: BasicExample) -> ExampleModel {
    (e.id, e.near, e.top@, e.pop@)
}

pub open spec fn bare_model(id: u128) -> ExampleModel {
    (id, None, Seq::new(7, |_i: int| None), Seq::new(7, |_i: int| None))
}

/// `e` with the position `pos` read from list `kind`. A near position
/// replaces the one held unless that one has a higher rank.
pub open spec fn with_position(e: ExampleModel, kind: ListKind, pos: ListPosition) -> ExampleModel {
    match kind {
        ListKind::Near => (
            e.0,
            if e.1 is Some && e.1->Some_0.rank > pos.rank {
                e.1
            } else {
                Some(pos)
            },
            e.2,
            e.3,
        ),
        ListKind::Top(s) => (e.0, e.1, e.2.update(scope_index_of(s), Some(pos)), e.3),
        ListKind::Pop(s) => (e.0, e.1, e.2, e.3.update(scope_index_of(s), Some(pos))),
    }
}

impl BasicExample {
    /// An example of `id` with no list positions.
    pub fn new(id: u128) -> (r: BasicExample)
        ensures
            model(r) == bare_model(id),
    {
        let r = BasicExample { id, near: None, top: [None; 7], pop: [None; 7] };
        assert(r.top@ =~= Seq::new(7, |_i: int| None::<ListPosition>));
        assert(r.pop@ =~= Seq::new(7, |_i: int| None::<ListPosition>));
        r
    }

    pub fn with_near(&mut self, pos: ListPosition)
        ensures
            model(*final(self)) == with_position(model(*old(self)), ListKind::Near, pos),
    {
        match self.near {
            Some(cur) if cur.rank > pos.rank => {},
            _ => self.near = Some(pos),
        }
    }

    pub fn with_top(&mut self, scope: TimeScope, pos: ListPosition)
        ensures
            model(*final(self)) == with_position(model(*old(self)), ListKind::Top(scope), pos),
    {
        let i = scope_index(scope);
        self.top[i] = Some(pos);
        assert(self.top@ =~= old(self).top@.update(i as int, Some(pos)));
    }

    pub fn with_pop(&mut self, scope: TimeScope, pos: ListPosition)
        ensures
            model(*final(self)) == with_position(model(*old(self)), ListKind::Pop(scope), pos),
    {
        let i = scope_index(scope);
        self.pop[i] = Some(pos);
        assert(self.pop@ =~= old(self).pop@.update(i as int, Some(pos)));
    }

    /// Records the position `pos` read from list `kind`.
    pub fn with_position(&mut self, kind: ListKind, pos: ListPosition)
        ensures
            model(*final(self)) == with_position(model(*old(self)), kind, pos),
    {
        match kind {
            ListKind::Near => self.with_near(pos),
            ListKind::Top(s) => self.with_top(s, pos),
            ListKind::Pop(s) => self.with_pop(s, pos),
        }
    }
}

} // verus!
