use vstd::prelude::*;

use crate::game::{GameState, Outcome};

verus! {

/// Games won within a sequence of outcomes.
pub open spec fn count_won(outcomes: Seq<Outcome>) -> nat
    decreases outcomes.len(),
{
    if outcomes.len() == 0 {
        0
    } else {
        count_won(outcomes.drop_last()) + if outcomes.last() is Won {
            1nat
        } else {
            0nat
        }
    }
}

/// Games lost within a sequence of outcomes.
pub open spec fn count_lost(outcomes: Seq<Outcome>) -> nat
    decreases outcomes.len(),
{
    if outcomes.len() == 0 {
        0
    } else {
        count_lost(outcomes.drop_last()) + if outcomes.last() is Lost {
            1nat
        } else {
            0nat
        }
    }
}

/// Games won over a sequence of batches, batch by batch.
pub open spec fn batches_won(batches: Seq<Seq<Outcome>>) -> nat
    decreases batches.len(),
{
    if batches.len() == 0 {
        0
    } else {
        count_won(batches.first()) + batches_won(batches.drop_first())
    }
}

/// Games lost over a sequence of batches, batch by batch.
pub open spec fn batches_lost(batches: Seq<Seq<Outcome>>) -> nat
    decreases batches.len(),
{
    if batches.len() == 0 {
        0
    } else {
        count_lost(batches.first()) + batches_lost(batches.drop_first())
    }
}

/// Counts of games won and lost.
#[derive(Debug, Clone, Copy, PartialEq, Eq, Structural)]
pub struct Tally {
    pub won: u64,
    pub lost: u64,
}

/// Why no estimate could be made.
#[derive(Debug, Clone, Copy, PartialEq, Eq, Structural)]
pub enum EstimateError {
    /// An estimate needs at least one trial.
    NoTrials,
}

impl Tally {
    /// No games yet.
    pub fn new() -> (r: Tally)
        ensures
            r.won == 0,
            r.lost == 0,
    {
        Tally { won: 0, lost: 0 }
    }

    /// The tally of a single game.
    pub fn of(outcome: Outcome) -> (r: Tally)
        ensures
            r.won == (if outcome is Won {
                1int
            } else {
                0int
            }),
            r.lost == (if outcome is Lost {
                1int
            } else {
                0int
            }),
    {
        match outcome {
            Outcome::Won => Tally { won: 1, lost: 0 },
            Outcome::Lost => Tally { won: 0, lost: 1 },
        }
    }

    /// The tally of two disjoint sets of games together.
    pub fn merge(self, other: Tally) -> (r: Tally)
        requires
            self.won + other.won <= u64::MAX,
            self.lost + other.lost <= u64::MAX,
        ensures
            r.won == self.won + other.won,
            r.lost == self.lost + other.lost,
    {
        Tally { won: self.won + other.won, lost: self.lost + other.lost }
    }

    /// The tally of a sequence of outcomes, game by game.
    pub fn of_outcomes(outcomes: &[Outcome]) -> (r: Tally)
        ensures
            r.won == count_won(outcomes@),
            r.lost == count_lost(outcomes@),
    {
        let mut tally = Tally::new();
        let mut i: usize = 0;
        assert(outcomes@.take(0) =~= Seq::<Outcome>::empty());
        while i < outcomes.len()
            invariant
                i <= outcomes@.len(),
                tally.won == count_won(outcomes@.take(i as int)),
                tally.lost == count_lost(outcomes@.take(i as int)),
                tally.won + tally.lost == i,
            decreases outcomes@.len() - i,
        {
            proof {
                assert(outcomes@.take(i + 1).drop_last() =~= outcomes@.take(i as int));
                assert(outcomes@.take(i + 1).last() == outcomes@[i as int]);
            }
            tally = tally.merge(Tally::of(outcomes[i]));
            i = i + 1;
        }
        proof {
            assert(outcomes@.take(i as int) =~= outcomes@);
        }
        tally
    }
}

/// Tallying two runs of games one after the other gives the sum of their
/// tallies.
pub proof fn lemma_tally_concat(a: Seq<Outcome>, b: Seq<Outcome>)
    ensures
        count_won(a + b) == count_won(a) + count_won(b),
        count_lost(a + b) == count_lost(a) + count_lost(b),
    decreases b.len(),
{
    if b.len() == 0 {
        assert(a + b =~= a);
    } else {
        lemma_tally_concat(a, b.drop_last());
        assert((a + b).drop_last() =~= a + b.drop_last());
    }
}

/// However a run of games is cut into batches, summing the batches' tallies
/// gives the tally of the whole run.
pub proof fn lemma_tally_batches(batches: Seq<Seq<Outcome>>)
    ensures
        count_won(batches.flatten()) == batches_won(batches),
        count_lost(batches.flatten()) == batches_lost(batches),
    decreases batches.len(),
{
    if batches.len() > 0 {
        lemma_tally_batches(batches.drop_first());
        lemma_tally_concat(batches.first(), batches.drop_first().flatten());
    }
}

/// Plays one game from a bird `guard_position` steps away and full piles,
/// and returns how it ended.
pub fn run_trial(guard_position: u8, rng: &mut rand::rngs::ThreadRng) -> (r: Outcome)
    ensures
        guard_position == 0 ==> r == Outcome::Lost,
{
    let mut game = GameState::new(guard_position);
    let (outcome, _rolls) = game.play_out(rng);
    outcome
}

/// Plays `trial_count` games, each with a freshly drawn generator, and counts
/// wins and losses. The win rate is `won / (won + lost)`.
pub fn estimate_win_rate(guard_position: u8, trial_count: u64) -> (r: Result<Tally, EstimateError>)
    ensures
        r is Err <==> trial_count == 0,
        r is Err ==> r == Err::<Tally, EstimateError>(EstimateError::NoTrials),
        r matches Ok(t) ==> t.won + t.lost == trial_count,
        r matches Ok(t) ==> (guard_position == 0 ==> t.won == 0),
{
    if trial_count == 0 {
        return Err(EstimateError::NoTrials);
    }
    let mut tally = Tally::new();
    let mut done: u64 = 0;
    while done < trial_count
        invariant
            done <= trial_count,
            tally.won + tally.lost == done,
            guard_position == 0 ==> tally.won == 0,
        decreases trial_count - done,
    {
        let mut rng = rand::thread_rng();
        let outcome = run_trial(guard_position, &mut rng);
        tally = tally.merge(Tally::of(outcome));
        done = done + 1;
    }
    Ok(tally)
}

} // verus!
