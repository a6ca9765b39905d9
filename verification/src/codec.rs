use vstd::prelude::*;
use crate::entities::{Bet, BetV, Driver, DriverV, RaceResult, RaceResultV, User, UserV};
use crate::errors::SettleError;
use crate::num::{lemma_u32_dec_parses_back, parse_u32_field, parse_u32_or_zero, u32_dec, u32_to_string};

verus! {

/// One entity kind's encoding to and from its ordered field list.
///
/// Decoding tolerates a numeric field that is no numeral (it reads as 0);
/// only a wrong field count is an error.
pub trait CsvRecord: View + Sized {
    /// The fixed number of fields of this entity kind.
    spec fn arity() -> int;

    /// The field list that encodes the given entity value.
    spec fn fields_of(m: Self::V) -> Seq<Seq<char>>;

    /// The entity value that a field list of the right arity decodes to.
    spec fn of_fields(fields: Seq<Seq<char>>) -> Self::V;

    /// An entity encodes to exactly its kind's arity, which is positive.
    proof fn lemma_arity(m: Self::V)
        ensures
            Self::fields_of(m).len() == Self::arity(),
            Self::arity() >= 1,
    ;

    /// Decoding undoes encoding, for every entity value.
    proof fn lemma_round_trip(m: Self::V)
        ensures
            Self::of_fields(Self::fields_of(m)) == m,
    ;

    /// Reads one entity off an ordered field list.
    fn from_fields(fields: &Vec<String>) -> (r: Result<Self, SettleError>)
        ensures
            fields.deep_view().len() == Self::arity() ==> (r matches Ok(v) && v@
                == Self::of_fields(fields.deep_view())),
            fields.deep_view().len() != Self::arity() ==> (r matches Err(e) && e
                == SettleError::MalformedRecord),
    ;

    /// Writes one entity as its ordered field list.
    fn to_fields(&self) -> (r: Vec<String>)
        ensures
            r.deep_view() == Self::fields_of(self@),
    ;
}

impl CsvRecord for User {
    open spec fn arity() -> int {
        4
    }

    open spec fn fields_of(m: UserV) -> Seq<Seq<char>> {
        seq![m.nick, m.time_zone, u32_dec(m.points as int), m.notifications]
    }

    open spec fn of_fields(fields: Seq<Seq<char>>) -> UserV {
        UserV {
            nick: fields[0],
            time_zone: fields[1],
            points: parse_u32_field(fields[2]),
            notifications: fields[3],
        }
    }

    proof fn lemma_arity(m: UserV) {
    }

    proof fn lemma_round_trip(m: UserV) {
        lemma_u32_dec_parses_back(m.points);
    }

    fn from_fields(fields: &Vec<String>) -> (r: Result<User, SettleError>) {
        if fields.len() != 4 {
            return Err(SettleError::MalformedRecord);
        }
        let u = User {
            nick: fields[0].clone(),
            time_zone: fields[1].clone(),
            points: parse_u32_or_zero(fields[2].as_str()),
            notifications: fields[3].clone(),
        };
        assert(u@ == Self::of_fields(fields.deep_view()));
        Ok(u)
    }

    fn to_fields(&self) -> (r: Vec<String>) {
        let mut r: Vec<String> = Vec::new();
        r.push(self.nick.clone());
        r.push(self.time_zone.clone());
        r.push(u32_to_string(self.points));
        r.push(self.notifications.clone());
        assert(r.deep_view() =~= Self::fields_of(self@));
        r
    }
}

impl CsvRecord for Bet {
    open spec fn arity() -> int {
        7
    }

    open spec fn fields_of(m: BetV) -> Seq<Seq<char>> {
        seq![m.event, m.nick, m.first, m.second, m.third, m.fourth, u32_dec(m.points as int)]
    }

    open spec fn of_fields(fields: Seq<Seq<char>>) -> BetV {
        BetV {
            event: fields[0],
            nick: fields[1],
            first: fields[2],
            second: fields[3],
            third: fields[4],
            fourth: fields[5],
            points: parse_u32_field(fields[6]),
        }
    }

    proof fn lemma_arity(m: BetV) {
    }

    proof fn lemma_round_trip(m: BetV) {
        lemma_u32_dec_parses_back(m.points);
    }

    fn from_fields(fields: &Vec<String>) -> (r: Result<Bet, SettleError>) {
        if fields.len() != 7 {
            return Err(SettleError::MalformedRecord);
        }
        let b = Bet {
            event: fields[0].clone(),
            nick: fields[1].clone(),
            first: fields[2].clone(),
            second: fields[3].clone(),
            third: fields[4].clone(),
            fourth: fields[5].clone(),
            points: parse_u32_or_zero(fields[6].as_str()),
        };
        assert(b@ == Self::of_fields(fields.deep_view()));
        Ok(b)
    }

    fn to_fields(&self) -> (r: Vec<String>) {
        let mut r: Vec<String> = Vec::new();
        r.push(self.event.clone());
        r.push(self.nick.clone());
        r.push(self.first.clone());
        r.push(self.second.clone());
        r.push(self.third.clone());
        r.push(self.fourth.clone());
        r.push(u32_to_string(self.points));
        assert(r.deep_view() =~= Self::fields_of(self@));
        r
    }
}

impl CsvRecord for RaceResult {
    open spec fn arity() -> int {
        6
    }

    open spec fn fields_of(m: RaceResultV) -> Seq<Seq<char>> {
        seq![m.event, m.first, m.second, m.third, m.fourth, m.processed]
    }

    open spec fn of_fields(fields: Seq<Seq<char>>) -> RaceResultV {
        RaceResultV {
            event: fields[0],
            first: fields[1],
            second: fields[2],
            third: fields[3],
            fourth: fields[4],
            processed: fields[5],
        }
    }

    proof fn lemma_arity(m: RaceResultV) {
    }

    proof fn lemma_round_trip(m: RaceResultV) {
    }

    fn from_fields(fields: &Vec<String>) -> (r: Result<RaceResult, SettleError>) {
        if fields.len() != 6 {
            return Err(SettleError::MalformedRecord);
        }
        let res = RaceResult {
            event: fields[0].clone(),
            first: fields[1].clone(),
            second: fields[2].clone(),
            third: fields[3].clone(),
            fourth: fields[4].clone(),
            processed: fields[5].clone(),
        };
        assert(res@ == Self::of_fields(fields.deep_view()));
        Ok(res)
    }

    fn to_fields(&self) -> (r: Vec<String>) {
        let mut r: Vec<String> = Vec::new();
        r.push(self.event.clone());
        r.push(self.first.clone());
        r.push(self.second.clone());
        r.push(self.third.clone());
        r.push(self.fourth.clone());
        r.push(self.processed.clone());
        assert(r.deep_view() =~= Self::fields_of(self@));
        r
    }
}

impl CsvRecord for Driver {
    open spec fn arity() -> int {
        3
    }

    open spec fn fields_of(m: DriverV) -> Seq<Seq<char>> {
        seq![u32_dec(m.number as int), m.code, u32_dec(m.odds as int)]
    }

    open spec fn of_fields(fields: Seq<Seq<char>>) -> DriverV {
        DriverV {
            number: parse_u32_field(fields[0]),
            code: fields[1],
            odds: parse_u32_field(fields[2]),
        }
    }

    proof fn lemma_arity(m: DriverV) {
    }

    proof fn lemma_round_trip(m: DriverV) {
        lemma_u32_dec_parses_back(m.number);
        lemma_u32_dec_parses_back(m.odds);
    }

    fn from_fields(fields: &Vec<String>) -> (r: Result<Driver, SettleError>) {
        if fields.len() != 3 {
            return Err(SettleError::MalformedRecord);
        }
        let d = Driver {
            number: parse_u32_or_zero(fields[0].as_str()),
            code: fields[1].clone(),
            odds: parse_u32_or_zero(fields[2].as_str()),
        };
        assert(d@ == Self::of_fields(fields.deep_view()));
        Ok(d)
    }

    fn to_fields(&self) -> (r: Vec<String>) {
        let mut r: Vec<String> = Vec::new();
        r.push(u32_to_string(self.number));
        r.push(self.code.clone());
        r.push(u32_to_string(self.odds));
        assert(r.deep_view() =~= Self::fields_of(self@));
        r
    }
}

} // verus!
