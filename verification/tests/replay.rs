use konteksto_engine::config::OptimizerConfig;
use konteksto_engine::errors::KontekstoError;
use konteksto_engine::replay::{Replay, Round};
use konteksto_engine::restart::{run_restarts, solve, solve_with_restarts, LinearSolver};
use konteksto_engine::step::{Entry, Step};

fn settings(max_iters: usize, margin: u32) -> OptimizerConfig<f32> {
    OptimizerConfig { max_retries: 1, max_iters, beta: 0.5, margin }
}

/// A round with one neighbour per pair of word and answer, all at (1, 1),
/// whose move, if there is one, leads to `next`.
fn round(scored: &[(&str, Option<u32>)], next: [f32; 2]) -> Round<f32> {
    Round {
        neighbors: scored
            .iter()
            .map(|(w, _)| Entry { word: w.to_string(), embedding: vec![1.0, 1.0] })
            .collect(),
        ranks: scored.iter().map(|(_, r)| *r).collect(),
        momentum: vec![0.5, 0.5],
        next_query: next.to_vec(),
    }
}

#[test]
fn a_replay_starts_fresh_with_all_its_rounds() {
    let replay = Replay::new(settings(5, 200), vec![round(&[("a", Some(3))], [1.0, 1.0])]);
    assert_eq!(replay.rounds_left(), 1);
    assert_eq!(replay.solver().iterations(), 0);
    assert_eq!(replay.current_best().rank, u32::MAX);
}

#[test]
fn rounds_are_played_in_their_order() {
    let mut replay = Replay::new(
        settings(5, 200),
        vec![
            round(&[("a", Some(30))], [2.0, 2.0]),
            round(&[("b", Some(20))], [3.0, 3.0]),
            round(&[("c", Some(0))], [4.0, 4.0]),
        ],
    );
    match replay.next_step(vec![0.0, 0.0]).unwrap() {
        Step::Next(attempt, next) => {
            assert_eq!(attempt.word, "a");
            assert_eq!(next, vec![2.0, 2.0]);
        }
        other => panic!("unexpected step {:?}", other),
    }
    assert_eq!(replay.solver().momentum(), Some(&vec![0.5, 0.5]));
    match replay.next_step(vec![2.0, 2.0]).unwrap() {
        Step::Next(attempt, next) => {
            assert_eq!(attempt.word, "b");
            assert_eq!(next, vec![3.0, 3.0]);
        }
        other => panic!("unexpected step {:?}", other),
    }
    assert!(matches!(replay.next_step(vec![3.0, 3.0]).unwrap(), Step::Done));
    assert_eq!(replay.rounds_left(), 0);
    assert_eq!(replay.current_best().word, "c");
    assert_eq!(
        replay.solver().tabu(),
        &vec!["a".to_string(), "b".to_string(), "c".to_string()]
    );
}

#[test]
fn a_round_beyond_the_margin_keeps_the_query_and_commits_nothing() {
    let mut replay = Replay::new(settings(5, 5), vec![round(&[("a", Some(50))], [9.0, 9.0])]);
    match replay.next_step(vec![0.25, 0.75]).unwrap() {
        Step::Next(attempt, next) => {
            assert_eq!(attempt.rank, 50);
            assert_eq!(next, vec![0.25, 0.75]);
        }
        other => panic!("unexpected step {:?}", other),
    }
    assert!(replay.solver().momentum().is_none());
}

#[test]
fn without_a_round_left_the_step_fails_and_nothing_changes() {
    let mut replay = Replay::new(settings(5, 200), Vec::new());
    assert_eq!(replay.next_step(vec![0.0, 0.0]).unwrap_err(), KontekstoError::IndexError);
    assert_eq!(replay.solver().iterations(), 0);
    assert_eq!(replay.rounds_left(), 0);
}

#[test]
fn a_move_whose_lengths_differ_fails() {
    let mut bad = round(&[("a", Some(3))], [1.0, 1.0]);
    bad.momentum = vec![0.5];
    let mut replay = Replay::new(settings(5, 200), vec![bad]);
    assert_eq!(
        replay.next_step(vec![0.0, 0.0]).unwrap_err(),
        KontekstoError::DimensionMismatch
    );
    assert_eq!(replay.solver().iterations(), 1);
    assert!(replay.solver().momentum().is_none());
}

#[test]
fn out_of_steps_no_round_is_used_up() {
    let mut replay = Replay::new(settings(0, 200), vec![round(&[("a", Some(3))], [1.0, 1.0])]);
    assert!(matches!(replay.next_step(vec![0.0, 0.0]).unwrap(), Step::Bailed(_)));
    assert_eq!(replay.rounds_left(), 1);
}

#[test]
fn an_attempt_takes_at_most_one_step_more_than_it_has_steps() {
    let rounds: Vec<Round<f32>> = ["a", "b", "c", "d", "e"]
        .iter()
        .map(|w| round(&[(w, Some(40))], [1.0, 1.0]))
        .collect();
    let mut replay = Replay::new(settings(3, 200), rounds);
    match solve(vec![0.0, 0.0], &mut replay).unwrap() {
        Step::Bailed(best) => {
            assert_eq!(best.word, "a");
            assert_eq!(best.rank, 40);
        }
        other => panic!("unexpected step {:?}", other),
    }
    // three steps used a round each; the fourth gave up without one
    assert_eq!(replay.rounds_left(), 2);
    assert_eq!(replay.solver().iterations(), 3);
}

#[test]
fn with_no_step_allowed_an_attempt_gives_up_at_once() {
    let mut replay = Replay::new(settings(0, 200), vec![round(&[("a", Some(0))], [1.0, 1.0])]);
    match solve(vec![0.0, 0.0], &mut replay).unwrap() {
        Step::Bailed(best) => assert_eq!(best.rank, u32::MAX),
        other => panic!("unexpected step {:?}", other),
    }
    assert_eq!(replay.rounds_left(), 1);
}

#[test]
fn restarts_try_the_seeds_in_order_and_record_each_best() {
    // two steps to an attempt: seed 0 plays a, b; seed 1 plays c, d; seed 2 plays e, f
    let rounds = vec![
        round(&[("a", Some(70))], [1.0, 1.0]),
        round(&[("b", Some(30))], [1.0, 1.0]),
        round(&[("c", Some(12))], [1.0, 1.0]),
        round(&[("d", Some(90))], [1.0, 1.0]),
        round(&[("e", Some(12))], [1.0, 1.0]),
        round(&[("f", Some(25))], [1.0, 1.0]),
    ];
    let mut replay = Replay::new(settings(2, 200), rounds);
    let seeds = vec![vec![0.0, 0.0], vec![5.0, 5.0], vec![7.0, 7.0]];
    let tally = run_restarts(&mut replay, seeds).unwrap();
    let recorded: Vec<(String, u32)> =
        tally.bails.iter().map(|a| (a.word.clone(), a.rank)).collect();
    assert_eq!(
        recorded,
        vec![("b".to_string(), 30), ("c".to_string(), 12), ("e".to_string(), 12)]
    );
    assert!(tally.solved.is_none());
    // the earliest of the two attempts of rank 12 wins
    assert_eq!(tally.into_winner().unwrap().word, "c");
    // the solver was reset after the last attempt too
    assert_eq!(replay.solver().iterations(), 0);
    assert!(replay.solver().tabu().is_empty());
    assert!(replay.solver().momentum().is_none());
    assert_eq!(replay.rounds_left(), 0);
}

#[test]
fn every_attempt_after_the_first_starts_afresh() {
    // an attempt gives up after one step; were the tabu set or the count of
    // steps kept, the second attempt would not get its step
    let rounds = vec![
        round(&[("a", Some(70))], [1.0, 1.0]),
        round(&[("a", Some(60))], [1.0, 1.0]),
    ];
    let mut replay = Replay::new(settings(1, 200), rounds);
    let best =
        solve_with_restarts(&mut replay, vec![vec![0.0, 0.0], vec![5.0, 5.0]]).unwrap();
    assert_eq!(best.rank, 60);
    assert_eq!(replay.rounds_left(), 0);
}

#[test]
fn a_solution_ends_the_run_and_later_seeds_are_not_tried() {
    let rounds = vec![
        round(&[("a", Some(5))], [1.0, 1.0]),
        round(&[("b", Some(0))], [1.0, 1.0]),
        round(&[("c", Some(1))], [1.0, 1.0]),
    ];
    let mut replay = Replay::new(settings(1, 200), rounds);
    let seeds = vec![vec![0.0, 0.0], vec![5.0, 5.0], vec![7.0, 7.0]];
    let best = solve_with_restarts(&mut replay, seeds).unwrap();
    assert_eq!(best.word, "b");
    assert_eq!(best.rank, 0);
    // the third seed's round was never played, and the solver was not reset
    assert_eq!(replay.rounds_left(), 1);
    assert_eq!(replay.current_best().word, "b");
    assert_eq!(replay.solver().iterations(), 1);
}

#[test]
fn a_failed_step_ends_the_run_with_its_failure() {
    let rounds = vec![round(&[("a", Some(5))], [1.0, 1.0]), round(&[("b", None)], [1.0, 1.0])];
    let mut replay = Replay::new(settings(1, 200), rounds);
    let seeds = vec![vec![0.0, 0.0], vec![5.0, 5.0], vec![7.0, 7.0]];
    let failed = solve_with_restarts(&mut replay, seeds);
    assert_eq!(failed.unwrap_err(), KontekstoError::NoScorableNeighbors);
}
