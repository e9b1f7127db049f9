//! The time scopes of the top and popular lists.
use vstd::prelude::*;

verus! {

/// The half-life of the decay of popularity and top scores.
#[derive(Debug, Clone, Copy, PartialEq, Eq, Structural, Hash)]
pub enum TimeScope {
    HalfHour,
    Hour,
    TwoHours,
    FourHours,
    EightHours,
    Day,
    Month,
}

pub open spec fn scope_name(s: TimeScope) -> Seq<char> {
    match s {
        TimeScope::HalfHour => "half-hour"@,
        TimeScope::Hour => "hour"@,
        TimeScope::TwoHours => "two-hours"@,
        TimeScope::FourHours => "four-hours"@,
        TimeScope::EightHours => "eight-hours"@,
        TimeScope::Day => "day"@,
        TimeScope::Month => "month"@,
    }
}

pub open spec fn half_life_minutes(s: TimeScope) -> nat {
    match s {
        TimeScope::HalfHour => 30,
        TimeScope::Hour => 60,
        TimeScope::TwoHours => 120,
        TimeScope::FourHours => 240,
        TimeScope::EightHours => 480,
        TimeScope::Day => 1440,
        TimeScope::Month => 43200,
    }
}

pub open spec fn all_scopes() -> Seq<TimeScope> {
    seq![
        TimeScope::HalfHour,
        TimeScope::Hour,
        TimeScope::TwoHours,
        TimeScope::FourHours,
        TimeScope::EightHours,
        TimeScope::Day,
        TimeScope::Month,
    ]
}

impl TimeScope {
    /// The scope's name as it appears in keys and feature names.
    pub fn name(self) -> (r: &'static str)
        ensures
            r@ == scope_name(self),
    {
        match self {
            TimeScope::HalfHour => "half-hour",
            TimeScope::Hour => "hour",
            TimeScope::TwoHours => "two-hours",
            TimeScope::FourHours => "four-hours",
            TimeScope::EightHours => "eight-hours",
            TimeScope::Day => "day",
            TimeScope::Month => "month",
        }
    }

    /// The half-life of the scope, in minutes.
    pub fn half_life(self) -> (r: u64)
        ensures
            r == half_life_minutes(self),
    {
        match self {
            TimeScope::HalfHour => 30,
            TimeScope::Hour => 60,
            TimeScope::TwoHours => 60 * 2,
            TimeScope::FourHours => 60 * 4,
            TimeScope::EightHours => 60 * 8,
            TimeScope::Day => 60 * 24,
            TimeScope::Month => 60 * 24 * 30,
        }
    }

    /// Every scope, shortest half-life first.
    pub fn variants() -> (r: Vec<TimeScope>)
        ensures
            r@ == all_scopes(),
    {
        let r = vec![
            TimeScope::HalfHour,
            TimeScope::Hour,
            TimeScope::TwoHours,
            TimeScope::FourHours,
            TimeScope::EightHours,
            TimeScope::Day,
            TimeScope::Month,
        ];
        assert(r@ =~= all_scopes());
        r
    }
}

} // verus!
