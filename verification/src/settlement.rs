use vstd::prelude::*;
use crate::entities::{Bet, RaceResult, User};
use crate::errors::SettleError;
use crate::scoring::{event_matches, lemma_score_bounds, score, spec_score};
use crate::text::{eq_ignore_case, lower_of};

verus! {

/// The prediction as one settlement run leaves it: graded where its event
/// is the current one, untouched otherwise.
pub open spec fn settled_bet(b: Bet, r: RaceResult) -> Bet {
    if event_matches(b, r) {
        Bet { points: spec_score(b, r) as u32, ..b }
    } else {
        b
    }
}

/// What one prediction contributes to a nick's credit: its score where it
/// is for the current event and carries that nick, up to case.
pub open spec fn bet_credit(nick: Seq<char>, b: Bet, r: RaceResult) -> int {
    if event_matches(b, r) && lower_of(b.nick@) == lower_of(nick) {
        spec_score(b, r)
    } else {
        0
    }
}

/// The points one settlement run credits to a nick: the scores of all of
/// that nick's predictions for the current event.
pub open spec fn credit(nick: Seq<char>, bets: Seq<Bet>, r: RaceResult) -> int
    decreases bets.len(),
{
    if bets.len() == 0 {
        0
    } else {
        credit(nick, bets.drop_last(), r) + bet_credit(nick, bets.last(), r)
    }
}

/// The credited form of one user: its total raised by its credit.
pub open spec fn credited_user(u: User, bets: Seq<Bet>, r: RaceResult) -> User {
    User { points: (u.points + credit(u.nick@, bets, r)) as u32, ..u }
}

/// Whether one user's raised total still fits the points field.
pub open spec fn user_total_fits(u: User, bets: Seq<Bet>, r: RaceResult) -> bool {
    u.points + credit(u.nick@, bets, r) <= u32::MAX
}

/// Whether every user's raised total fits the points field.
pub open spec fn totals_fit(users: Seq<User>, bets: Seq<Bet>, r: RaceResult) -> bool {
    forall|j: int| 0 <= j < users.len() ==> user_total_fits(#[trigger] users[j], bets, r)
}

/// A credit is never negative.
pub proof fn lemma_credit_nonneg(nick: Seq<char>, bets: Seq<Bet>, r: RaceResult)
    ensures
        credit(nick, bets, r) >= 0,
    decreases bets.len(),
{
    if bets.len() > 0 {
        lemma_credit_nonneg(nick, bets.drop_last(), r);
        lemma_score_bounds(bets.last(), r);
    }
}

/// One more prediction raises a credit by exactly its contribution.
pub proof fn lemma_credit_take_step(nick: Seq<char>, bets: Seq<Bet>, r: RaceResult, k: int)
    requires
        0 <= k < bets.len(),
    ensures
        credit(nick, bets.take(k + 1), r) == credit(nick, bets.take(k), r) + bet_credit(
            nick,
            bets[k],
            r,
        ),
{
    assert(bets.take(k + 1).drop_last() =~= bets.take(k));
    assert(bets.take(k + 1).last() == bets[k]);
}

/// A prefix of the predictions credits no more than all of them.
pub proof fn lemma_credit_take_le(nick: Seq<char>, bets: Seq<Bet>, r: RaceResult, k: int)
    requires
        0 <= k <= bets.len(),
    ensures
        credit(nick, bets.take(k), r) <= credit(nick, bets, r),
    decreases bets.len() - k,
{
    if k < bets.len() {
        lemma_credit_take_step(nick, bets, r, k);
        lemma_score_bounds(bets[k], r);
        lemma_credit_take_le(nick, bets, r, k + 1);
    } else {
        assert(bets.take(k) =~= bets);
    }
}

/// Computes the points that settling `bets` against `result` credits to
/// `nick`; nothing where that credit alone would overflow the points
/// field.
fn credit_of(nick: &String, bets: &Vec<Bet>, result: &RaceResult) -> (r: Option<u32>)
    ensures
        r matches Some(c) ==> c as int == credit(nick@, bets@, *result),
        r is None ==> credit(nick@, bets@, *result) > u32::MAX,
{
    let mut acc: u32 = 0;
    let n = bets.len();
    proof {
        assert(bets@.take(0) =~= Seq::<Bet>::empty());
    }
    for i in 0..n
        invariant
            n == bets@.len(),
            acc as int == credit(nick@, bets@.take(i as int), *result),
    {
        let b = &bets[i];
        if eq_ignore_case(b.event.as_str(), result.event.as_str()) && eq_ignore_case(
            b.nick.as_str(),
            nick.as_str(),
        ) {
            let s = score(b, result);
            proof {
                lemma_credit_take_step(nick@, bets@, *result, i as int);
            }
            if acc > u32::MAX - s {
                proof {
                    lemma_credit_take_le(nick@, bets@, *result, i + 1);
                }
                return None;
            }
            acc = acc + s;
        } else {
            proof {
                lemma_credit_take_step(nick@, bets@, *result, i as int);
            }
        }
    }
    proof {
        assert(bets@.take(n as int) =~= bets@);
    }
    Some(acc)
}

/// A result whose marker is exactly its own event name counts as
/// processed.  A successful run sets exactly that marker, so the guard of
/// any further run for the same tables trips: settlement takes effect at
/// most once per event.
pub proof fn lemma_marked_result_is_processed(r: RaceResult)
    requires
        r.processed@ == r.event@,
    ensures
        r.spec_is_processed(),
{
}

/// Settles the current event: grades every prediction for it, credits the
/// scores to the matching users, and marks the result processed.
///
/// The run happens at most once per event: a result whose marker equals
/// its event name is refused, and a successful run sets exactly that
/// marker, so a second run against the same tables fails with
/// `AlreadyProcessed` and changes nothing.  Each error comes on exactly
/// the stated inputs, and any failing run leaves all three tables as they
/// were.
#[verifier::loop_isolation(false)]
pub fn process_bets(
    caller: &str,
    admin: &str,
    race_results: &mut Vec<RaceResult>,
    bets: &mut Vec<Bet>,
    users: &mut Vec<User>,
) -> (r: Result<(), SettleError>)
    ensures
        r is Ok <==> lower_of(caller@) == lower_of(admin@) && old(race_results)@.len() > 0 && !old(
            race_results,
        )@[0].spec_is_processed() && totals_fit(old(users)@, old(bets)@, old(race_results)@[0]),
        r matches Err(e) ==> {
            &&& *final(race_results) == *old(race_results)
            &&& *final(bets) == *old(bets)
            &&& *final(users) == *old(users)
            &&& (e == SettleError::Unauthorized <==> lower_of(caller@) != lower_of(admin@))
            &&& (e == SettleError::NoResult <==> lower_of(caller@) == lower_of(admin@) && old(
                race_results,
            )@.len() == 0)
            &&& (e == SettleError::AlreadyProcessed <==> lower_of(caller@) == lower_of(admin@)
                && old(race_results)@.len() > 0 && old(race_results)@[0].spec_is_processed())
            &&& (e == SettleError::PointsOverflow <==> lower_of(caller@) == lower_of(admin@)
                && old(race_results)@.len() > 0 && !old(race_results)@[0].spec_is_processed()
                && !totals_fit(old(users)@, old(bets)@, old(race_results)@[0]))
        },
        r is Ok ==> {
            &&& lower_of(caller@) == lower_of(admin@)
            &&& old(race_results)@.len() > 0
            &&& !old(race_results)@[0].spec_is_processed()
            &&& totals_fit(old(users)@, old(bets)@, old(race_results)@[0])
            &&& final(bets)@.len() == old(bets)@.len()
            &&& forall|i: int|
                0 <= i < old(bets)@.len() ==> final(bets)@[i] == settled_bet(
                    #[trigger] old(bets)@[i],
                    old(race_results)@[0],
                )
            &&& final(users)@.len() == old(users)@.len()
            &&& forall|j: int|
                0 <= j < old(users)@.len() ==> final(users)@[j] == credited_user(
                    #[trigger] old(users)@[j],
                    old(bets)@,
                    old(race_results)@[0],
                )
            &&& final(race_results)@.len() == old(race_results)@.len()
            &&& final(race_results)@[0] == (RaceResult {
                processed: old(race_results)@[0].event,
                ..old(race_results)@[0]
            })
            &&& forall|i: int|
                1 <= i < old(race_results)@.len() ==> final(race_results)@[i] == old(
                    race_results,
                )@[i]
            &&& final(race_results)@[0].spec_is_processed()
        },
{
    if !eq_ignore_case(caller, admin) {
        return Err(SettleError::Unauthorized);
    }
    if race_results.len() == 0 {
        return Err(SettleError::NoResult);
    }
    if race_results[0].is_processed() {
        return Err(SettleError::AlreadyProcessed);
    }
    // First pass: every raised total, before anything is written.
    let n_users = users.len();
    let mut new_points: Vec<u32> = Vec::new();
    for j in 0..n_users
        invariant
            n_users == users@.len(),
            race_results@.len() > 0,
            new_points@.len() == j,
            forall|k: int|
                0 <= k < j ==> user_total_fits(#[trigger] users@[k], bets@, race_results@[0]),
            forall|k: int|
                0 <= k < j ==> new_points@[k] as int == users@[k].points + credit(
                    users@[k].nick@,
                    bets@,
                    race_results@[0],
                ),
    {
        let c = credit_of(&users[j].nick, bets, &race_results[0]);
        match c {
            None => {
                proof {
                    lemma_credit_nonneg(users@[j as int].nick@, bets@, race_results@[0]);
                    assert(!user_total_fits(users@[j as int], bets@, race_results@[0]));
                }
                return Err(SettleError::PointsOverflow);
            },
            Some(c) => {
                if c > u32::MAX - users[j].points {
                    proof {
                        assert(!user_total_fits(users@[j as int], bets@, race_results@[0]));
                    }
                    return Err(SettleError::PointsOverflow);
                }
                new_points.push(users[j].points + c);
            },
        }
    }
    // Second pass: write the raised totals.
    for j in 0..n_users
        invariant
            n_users == users@.len(),
            n_users == old(users)@.len(),
            n_users == new_points@.len(),
            race_results@.len() > 0,
            race_results@ == old(race_results)@,
            bets@ == old(bets)@,
            forall|k: int|
                0 <= k < n_users ==> new_points@[k] as int == old(users)@[k].points + credit(
                    old(users)@[k].nick@,
                    old(bets)@,
                    old(race_results)@[0],
                ),
            forall|k: int|
                j <= k < n_users ==> #[trigger] users@[k] == old(users)@[k],
            forall|k: int|
                0 <= k < j ==> #[trigger] users@[k] == credited_user(
                    old(users)@[k],
                    old(bets)@,
                    old(race_results)@[0],
                ),
    {
        let nu = User {
            nick: users[j].nick.clone(),
            time_zone: users[j].time_zone.clone(),
            points: new_points[j],
            notifications: users[j].notifications.clone(),
        };
        users.set(j, nu);
    }
    // Third pass: grade the predictions for the current event.
    let n_bets = bets.len();
    for i in 0..n_bets
        invariant
            n_bets == bets@.len(),
            n_bets == old(bets)@.len(),
            race_results@.len() > 0,
            race_results@ == old(race_results)@,
            forall|k: int|
                i <= k < n_bets ==> #[trigger] bets@[k] == old(bets)@[k],
            forall|k: int|
                0 <= k < i ==> #[trigger] bets@[k] == settled_bet(
                    old(bets)@[k],
                    old(race_results)@[0],
                ),
    {
        if eq_ignore_case(bets[i].event.as_str(), race_results[0].event.as_str()) {
            let s = score(&bets[i], &race_results[0]);
            let nb = Bet {
                event: bets[i].event.clone(),
                nick: bets[i].nick.clone(),
                first: bets[i].first.clone(),
                second: bets[i].second.clone(),
                third: bets[i].third.clone(),
                fourth: bets[i].fourth.clone(),
                points: s,
            };
            proof {
                lemma_score_bounds(bets@[i as int], race_results@[0]);
            }
            bets.set(i, nb);
        }
    }
    // Commit point: mark the current result processed.
    let marked = RaceResult {
        event: race_results[0].event.clone(),
        first: race_results[0].first.clone(),
        second: race_results[0].second.clone(),
        third: race_results[0].third.clone(),
        fourth: race_results[0].fourth.clone(),
        processed: race_results[0].event.clone(),
    };
    race_results.set(0, marked);
    Ok(())
}

} // verus!
