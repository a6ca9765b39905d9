use vstd::prelude::*;
use crate::entities::{Bet, RaceResult};
use crate::text::{eq_ignore_case, lower_of};

verus! {

/// Points for a pick in exactly the slot it was submitted for.
pub const CORRECT: u32 = 5;

/// Points for a pick on the podium, but in another slot.
pub const PODIUM: u32 = 3;

/// Points for naming the fastest-lap driver.
pub const FASTEST_LAP: u32 = 1;

/// Flat bonus for a perfect podium.
pub const BOOST: u32 = 10;

/// The points one podium pick earns: `CORRECT` in exactly its own slot,
/// `PODIUM` anywhere else on the podium, and nothing otherwise.  All
/// comparisons disregard letter case.
pub open spec fn slot_points(
    pick: Seq<char>,
    slot: Seq<char>,
    first: Seq<char>,
    second: Seq<char>,
    third: Seq<char>,
) -> int {
    if lower_of(pick) == lower_of(slot) {
        CORRECT as int
    } else if lower_of(pick) == lower_of(first) || lower_of(pick) == lower_of(second)
        || lower_of(pick) == lower_of(third) {
        PODIUM as int
    } else {
        0
    }
}

/// Whether the prediction and the result name the same event, up to case.
pub open spec fn event_matches(b: Bet, r: RaceResult) -> bool {
    lower_of(b.event@) == lower_of(r.event@)
}

/// The podium part of the score: the three slots judged independently.
pub open spec fn podium_points(b: Bet, r: RaceResult) -> int {
    slot_points(b.first@, r.first@, r.first@, r.second@, r.third@) + slot_points(
        b.second@,
        r.second@,
        r.first@,
        r.second@,
        r.third@,
    ) + slot_points(b.third@, r.third@, r.first@, r.second@, r.third@)
}

/// The full score of one prediction against one result: the podium slots,
/// the flat bonus where all three matched exactly, and the fastest-lap
/// point.  A prediction for another event scores nothing.
pub open spec fn spec_score(b: Bet, r: RaceResult) -> int {
    if !event_matches(b, r) {
        0
    } else {
        let base = podium_points(b, r);
        let boosted = if base == 3 * (CORRECT as int) {
            base + BOOST as int
        } else {
            base
        };
        boosted + (if lower_of(b.fourth@) == lower_of(r.fourth@) {
            FASTEST_LAP as int
        } else {
            0
        })
    }
}

/// A score is never negative and never above a perfect one.
pub proof fn lemma_score_bounds(b: Bet, r: RaceResult)
    ensures
        0 <= spec_score(b, r) <= 26,
{
}

/// The points one podium pick earns.
fn slot_score(pick: &String, slot: &String, result: &RaceResult) -> (r: u32)
    ensures
        r as int == slot_points(pick@, slot@, result.first@, result.second@, result.third@),
{
    if eq_ignore_case(pick.as_str(), slot.as_str()) {
        CORRECT
    } else if eq_ignore_case(pick.as_str(), result.first.as_str()) || eq_ignore_case(
        pick.as_str(),
        result.second.as_str(),
    ) || eq_ignore_case(pick.as_str(), result.third.as_str()) {
        PODIUM
    } else {
        0
    }
}

/// Grades one prediction against one result.  The score depends on the
/// two values alone, so grading is deterministic.
pub fn score(bet: &Bet, result: &RaceResult) -> (r: u32)
    ensures
        r as int == spec_score(*bet, *result),
{
    if !eq_ignore_case(bet.event.as_str(), result.event.as_str()) {
        return 0;
    }
    let mut s: u32 = slot_score(&bet.first, &result.first, result);
    s = s + slot_score(&bet.second, &result.second, result);
    s = s + slot_score(&bet.third, &result.third, result);
    if s == 3 * CORRECT {
        s = s + BOOST;
    }
    if eq_ignore_case(bet.fourth.as_str(), result.fourth.as_str()) {
        s = s + FASTEST_LAP;
    }
    s
}

/// Grading disregards letter case: predictions and results whose fields
/// agree up to case earn the same score.
pub proof fn lemma_score_case_insensitive(a: Bet, b: Bet, r: RaceResult, s: RaceResult)
    requires
        lower_of(a.event@) == lower_of(b.event@),
        lower_of(a.first@) == lower_of(b.first@),
        lower_of(a.second@) == lower_of(b.second@),
        lower_of(a.third@) == lower_of(b.third@),
        lower_of(a.fourth@) == lower_of(b.fourth@),
        lower_of(r.event@) == lower_of(s.event@),
        lower_of(r.first@) == lower_of(s.first@),
        lower_of(r.second@) == lower_of(s.second@),
        lower_of(r.third@) == lower_of(s.third@),
        lower_of(r.fourth@) == lower_of(s.fourth@),
    ensures
        spec_score(a, r) == spec_score(b, s),
{
}

/// A perfect podium earns `3 * CORRECT + BOOST`; the fastest-lap point
/// comes on top of it.
pub proof fn lemma_perfect_podium(b: Bet, r: RaceResult)
    requires
        event_matches(b, r),
        lower_of(b.first@) == lower_of(r.first@),
        lower_of(b.second@) == lower_of(r.second@),
        lower_of(b.third@) == lower_of(r.third@),
    ensures
        lower_of(b.fourth@) == lower_of(r.fourth@) ==> spec_score(b, r) == 26,
        lower_of(b.fourth@) != lower_of(r.fourth@) ==> spec_score(b, r) == 25,
{
}

/// A pick on the podium but in the wrong slot earns `PODIUM` for that
/// slot, never `CORRECT`.
pub proof fn lemma_wrong_slot_podium(
    pick: Seq<char>,
    slot: Seq<char>,
    first: Seq<char>,
    second: Seq<char>,
    third: Seq<char>,
)
    requires
        lower_of(pick) != lower_of(slot),
        lower_of(pick) == lower_of(first) || lower_of(pick) == lower_of(second) || lower_of(pick)
            == lower_of(third),
    ensures
        slot_points(pick, slot, first, second, third) == PODIUM,
{
}

/// A pick absent from the whole podium earns nothing for its slot.
pub proof fn lemma_absent_pick_zero(
    pick: Seq<char>,
    slot: Seq<char>,
    first: Seq<char>,
    second: Seq<char>,
    third: Seq<char>,
)
    requires
        lower_of(pick) != lower_of(first),
        lower_of(pick) != lower_of(second),
        lower_of(pick) != lower_of(third),
        lower_of(slot) == lower_of(first) || lower_of(slot) == lower_of(second) || lower_of(slot)
            == lower_of(third),
    ensures
        slot_points(pick, slot, first, second, third) == 0,
{
}

} // verus!
