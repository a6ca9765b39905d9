use vstd::prelude::*;
use crate::text::{eq_ignore_case, lower_of};

verus! {

/// A registered participant; `points` is the running total that settlement
/// credits.
#[derive(Clone, Debug, PartialEq, Eq)]
pub struct User {
    pub nick: String,
    pub time_zone: String,
    pub points: u32,
    pub notifications: String,
}

/// The mathematical shape of a [`User`]: its text fields as character
/// sequences.
pub struct UserV {
    pub nick: Seq<char>,
    pub time_zone: Seq<char>,
    pub points: u32,
    pub notifications: Seq<char>,
}

impl View for User {
    type V = UserV;

    open spec fn view(&self) -> UserV {
        UserV {
            nick: self.nick@,
            time_zone: self.time_zone@,
            points: self.points,
            notifications: self.notifications@,
        }
    }
}

impl User {
    pub fn new(nick: String, time_zone: String, points: u32, notifications: String) -> (r: User)
        ensures
            r.nick == nick,
            r.time_zone == time_zone,
            r.points == points,
            r.notifications == notifications,
    {
        User { nick, time_zone, points, notifications }
    }

    /// Whether some user in `users` carries this user's nick.  The nick is
    /// an identity key up to letter case.
    pub fn is_user(&self, users: &Vec<User>) -> (r: bool)
        ensures
            r == exists|i: int|
                0 <= i < users@.len() && lower_of(#[trigger] users@[i].nick@) == lower_of(
                    self.nick@,
                ),
    {
        let n = users.len();
        for i in 0..n
            invariant
                n == users@.len(),
                forall|j: int|
                    0 <= j < i ==> lower_of(#[trigger] users@[j].nick@) != lower_of(self.nick@),
        {
            if eq_ignore_case(users[i].nick.as_str(), self.nick.as_str()) {
                return true;
            }
        }
        false
    }
}

/// One prediction for one event; `points` is 0 until settlement grades it.
#[derive(Clone, Debug, PartialEq, Eq)]
pub struct Bet {
    pub event: String,
    pub nick: String,
    pub first: String,
    pub second: String,
    pub third: String,
    pub fourth: String,
    pub points: u32,
}

/// The mathematical shape of a [`Bet`].
pub struct BetV {
    pub event: Seq<char>,
    pub nick: Seq<char>,
    pub first: Seq<char>,
    pub second: Seq<char>,
    pub third: Seq<char>,
    pub fourth: Seq<char>,
    pub points: u32,
}

impl View for Bet {
    type V = BetV;

    open spec fn view(&self) -> BetV {
        BetV {
            event: self.event@,
            nick: self.nick@,
            first: self.first@,
            second: self.second@,
            third: self.third@,
            fourth: self.fourth@,
            points: self.points,
        }
    }
}

/// The official outcome of one event; `fourth` holds the fastest-lap driver
/// and `processed` equals `event` (up to case) once settlement has run.
#[derive(Clone, Debug, PartialEq, Eq)]
pub struct RaceResult {
    pub event: String,
    pub first: String,
    pub second: String,
    pub third: String,
    pub fourth: String,
    pub processed: String,
}

/// The mathematical shape of a [`RaceResult`].
pub struct RaceResultV {
    pub event: Seq<char>,
    pub first: Seq<char>,
    pub second: Seq<char>,
    pub third: Seq<char>,
    pub fourth: Seq<char>,
    pub processed: Seq<char>,
}

impl View for RaceResult {
    type V = RaceResultV;

    open spec fn view(&self) -> RaceResultV {
        RaceResultV {
            event: self.event@,
            first: self.first@,
            second: self.second@,
            third: self.third@,
            fourth: self.fourth@,
            processed: self.processed@,
        }
    }
}

impl RaceResult {
    /// Whether this result was settled before: its marker equals its event
    /// name, up to letter case.
    pub open spec fn spec_is_processed(&self) -> bool {
        lower_of(self.processed@) == lower_of(self.event@)
    }

    pub fn is_processed(&self) -> (r: bool)
        ensures
            r == self.spec_is_processed(),
    {
        eq_ignore_case(self.processed.as_str(), self.event.as_str())
    }
}

/// A driver of the roster: reference data, never written by settlement.
#[derive(Clone, Debug, PartialEq, Eq)]
pub struct Driver {
    pub number: u32,
    pub code: String,
    pub odds: u32,
}

/// The mathematical shape of a [`Driver`].
pub struct DriverV {
    pub number: u32,
    pub code: Seq<char>,
    pub odds: u32,
}

impl View for Driver {
    type V = DriverV;

    open spec fn view(&self) -> DriverV {
        DriverV { number: self.number, code: self.code@, odds: self.odds }
    }
}

} // verus!
