use orchard_odds::estimator::{estimate_win_rate, run_trial, EstimateError, Tally};
use orchard_odds::game::Outcome;
use orchard_odds::game::Outcome::{Lost, Won};

fn percent(t: Tally) -> f64 {
    100.0 * t.won as f64 / (t.won + t.lost) as f64
}

#[test]
fn trial_with_bird_at_orchard_is_lost() {
    let mut rng = rand::thread_rng();
    for _ in 0..100 {
        assert_eq!(run_trial(0, &mut rng), Outcome::Lost);
    }
}

#[test]
fn trial_with_far_bird_is_won() {
    let mut rng = rand::thread_rng();
    assert_eq!(run_trial(200, &mut rng), Outcome::Won);
}

#[test]
fn tally_of_single_outcomes() {
    assert_eq!(Tally::of(Outcome::Won), Tally { won: 1, lost: 0 });
    assert_eq!(Tally::of(Outcome::Lost), Tally { won: 0, lost: 1 });
    assert_eq!(Tally::new(), Tally { won: 0, lost: 0 });
}

#[test]
fn merge_adds_counts() {
    let a = Tally { won: 3, lost: 7 };
    let b = Tally { won: 10, lost: 1 };
    assert_eq!(a.merge(b), Tally { won: 13, lost: 8 });
    assert_eq!(b.merge(a), Tally { won: 13, lost: 8 });
}

#[test]
fn tally_of_outcomes_counts_each() {
    let outcomes = [Won, Lost, Lost, Won, Won, Lost, Won];
    assert_eq!(Tally::of_outcomes(&outcomes), Tally { won: 4, lost: 3 });
    assert_eq!(Tally::of_outcomes(&[]), Tally { won: 0, lost: 0 });
}

#[test]
fn batches_sum_to_whole_run() {
    let outcomes = [Won, Lost, Lost, Won, Won, Lost, Won, Won, Lost, Won];
    let whole = Tally::of_outcomes(&outcomes);
    for cut in 0..=outcomes.len() {
        for cut2 in cut..=outcomes.len() {
            let a = Tally::of_outcomes(&outcomes[..cut]);
            let b = Tally::of_outcomes(&outcomes[cut..cut2]);
            let c = Tally::of_outcomes(&outcomes[cut2..]);
            assert_eq!(a.merge(b).merge(c), whole);
            assert_eq!(a.merge(b.merge(c)), whole);
        }
    }
}

#[test]
fn zero_trials_is_an_error() {
    assert_eq!(estimate_win_rate(5, 0), Err(EstimateError::NoTrials));
}

#[test]
fn estimate_counts_every_trial() {
    let t = estimate_win_rate(5, 1000).unwrap();
    assert_eq!(t.won + t.lost, 1000);
    let p = percent(t);
    assert!((0.0..=100.0).contains(&p));
}

#[test]
fn estimate_with_bird_at_orchard_never_wins() {
    let t = estimate_win_rate(0, 500).unwrap();
    assert_eq!(t, Tally { won: 0, lost: 500 });
    assert_eq!(percent(t), 0.0);
}

#[test]
fn estimate_with_far_bird_always_wins() {
    let t = estimate_win_rate(100, 200).unwrap();
    assert_eq!(t, Tally { won: 200, lost: 0 });
    assert_eq!(percent(t), 100.0);
}

#[test]
fn closer_bird_is_harder() {
    let n = 100_000;
    let easy = percent(estimate_win_rate(6, n).unwrap());
    let normal = percent(estimate_win_rate(5, n).unwrap());
    let hard = percent(estimate_win_rate(4, n).unwrap());
    assert!(easy > normal + 1.0, "easy {easy} normal {normal}");
    assert!(normal > hard + 1.0, "normal {normal} hard {hard}");
}
