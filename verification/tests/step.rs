use konteksto_engine::attempt::Attempt;
use konteksto_engine::config::OptimizerConfig;
use konteksto_engine::errors::KontekstoError;
use konteksto_engine::solver::Solver;
use konteksto_engine::step::{Entry, Step, Verdict};

fn settings(max_iters: usize, margin: u32) -> OptimizerConfig<f32> {
    OptimizerConfig { max_retries: 1, max_iters, beta: 0.5, margin }
}

fn entry(word: &str, x: f32, y: f32) -> Entry<f32> {
    Entry { word: word.to_string(), embedding: vec![x, y] }
}

#[test]
fn new_solver_starts_from_the_sentinel() {
    let solver = Solver::new(settings(5, 200));
    let best = solver.current_best();
    assert_eq!(best.word, "");
    assert_eq!(best.rank, u32::MAX);
    assert_eq!(solver.iterations(), 0);
    assert!(solver.tabu().is_empty());
    assert!(solver.momentum().is_none());
    assert!(solver.bail_check().is_none());
}

#[test]
fn chosen_neighbor_is_the_least_ranked() {
    let mut solver = Solver::new(settings(5, 200));
    let neighbors = vec![entry("a", 0.0, 0.0), entry("b", 1.0, 0.0), entry("c", 0.0, 1.0)];
    let ranks = vec![Some(100), Some(50), Some(10)];
    let verdict = solver.next_step(vec![0.5, 0.5], neighbors, ranks).unwrap();
    match verdict {
        Verdict::Advance(m) => {
            assert_eq!(m.attempt.word, "c");
            assert_eq!(m.attempt.rank, 10);
            assert_eq!(m.chosen_rank, 10);
            assert_eq!(m.previous_best_rank, u32::MAX);
            assert_eq!(m.origin, vec![0.5, 0.5]);
            assert_eq!(m.chosen, vec![0.0, 1.0]);
        }
        other => panic!("unexpected verdict {:?}", other),
    }
    let best = solver.current_best();
    assert_eq!(best.word, "c");
    assert_eq!(best.rank, 10);
    assert_eq!(solver.iterations(), 1);
    assert_eq!(solver.tabu(), &vec!["a".to_string(), "b".to_string(), "c".to_string()]);
}

#[test]
fn ties_go_to_the_neighbor_returned_first() {
    let mut solver = Solver::new(settings(5, 200));
    let neighbors = vec![entry("a", 0.0, 0.0), entry("b", 1.0, 0.0), entry("c", 0.0, 1.0)];
    let ranks = vec![Some(20), Some(7), Some(7)];
    match solver.next_step(vec![0.5, 0.5], neighbors, ranks).unwrap() {
        Verdict::Advance(m) => {
            assert_eq!(m.attempt.word, "b");
            assert_eq!(m.chosen, vec![1.0, 0.0]);
        }
        other => panic!("unexpected verdict {:?}", other),
    }
}

#[test]
fn rank_zero_ends_the_step_as_done() {
    let mut solver = Solver::new(settings(5, 200));
    let neighbors = vec![entry("d", 1.0, 1.0), entry("b", 1.0, 0.0), entry("c", 0.0, 1.0)];
    let ranks = vec![Some(0), Some(50), Some(10)];
    let verdict = solver.next_step(vec![0.5, 0.5], neighbors, ranks).unwrap();
    assert!(matches!(verdict, Verdict::Settled(Step::Done)));
    let best = solver.current_best();
    assert_eq!(best.word, "d");
    assert_eq!(best.rank, 0);
}

#[test]
fn rank_zero_is_done_even_with_margin_zero() {
    let mut solver = Solver::new(settings(5, 0));
    let verdict = solver
        .next_step(vec![0.5, 0.5], vec![entry("d", 1.0, 1.0)], vec![Some(0)])
        .unwrap();
    assert!(matches!(verdict, Verdict::Settled(Step::Done)));
}

#[test]
fn all_oracle_calls_failing_is_an_error_and_the_tabu_set_still_grows() {
    let mut solver = Solver::new(settings(5, 200));
    let neighbors = vec![entry("a", 0.0, 0.0), entry("b", 1.0, 0.0), entry("c", 0.0, 1.0)];
    let result = solver.next_step(vec![0.5, 0.5], neighbors, vec![None, None, None]);
    assert_eq!(result.unwrap_err(), KontekstoError::NoScorableNeighbors);
    assert_eq!(solver.tabu().len(), 3);
    assert_eq!(solver.iterations(), 1);
    assert_eq!(solver.current_best().rank, u32::MAX);
}

#[test]
fn no_neighbors_at_all_is_an_error() {
    let mut solver = Solver::new(settings(5, 200));
    let result = solver.next_step(vec![0.5, 0.5], Vec::new(), Vec::new());
    assert_eq!(result.unwrap_err(), KontekstoError::NoScorableNeighbors);
    assert_eq!(solver.tabu().len(), 0);
    assert_eq!(solver.iterations(), 1);
}

#[test]
fn failed_calls_are_passed_over() {
    let mut solver = Solver::new(settings(5, 200));
    let neighbors = vec![entry("a", 0.0, 0.0), entry("b", 1.0, 0.0), entry("c", 0.0, 1.0)];
    let ranks = vec![None, Some(90), Some(80)];
    match solver.next_step(vec![0.5, 0.5], neighbors, ranks).unwrap() {
        Verdict::Advance(m) => assert_eq!(m.attempt.word, "c"),
        other => panic!("unexpected verdict {:?}", other),
    }
}

#[test]
fn answers_beyond_the_neighbors_are_ignored() {
    let mut solver = Solver::new(settings(5, 200));
    let neighbors = vec![entry("a", 0.0, 0.0)];
    let ranks = vec![Some(90), Some(1)];
    match solver.next_step(vec![0.5, 0.5], neighbors, ranks).unwrap() {
        Verdict::Advance(m) => {
            assert_eq!(m.attempt.word, "a");
            assert_eq!(m.attempt.rank, 90);
        }
        other => panic!("unexpected verdict {:?}", other),
    }
}

#[test]
fn beyond_the_margin_the_query_stays() {
    let mut solver = Solver::new(settings(5, 5));
    let query = vec![0.25, 0.75];
    let neighbors = vec![entry("a", 0.0, 0.0), entry("b", 1.0, 0.0)];
    let ranks = vec![Some(50), Some(60)];
    match solver.next_step(query.clone(), neighbors, ranks).unwrap() {
        Verdict::Settled(Step::Next(attempt, next)) => {
            assert_eq!(attempt.word, "a");
            assert_eq!(attempt.rank, 50);
            assert_eq!(next, query);
        }
        other => panic!("unexpected verdict {:?}", other),
    }
    assert_eq!(solver.iterations(), 1);
    assert_eq!(solver.tabu().len(), 2);
    assert_eq!(solver.current_best().rank, 50);
    assert_eq!(solver.current_best().word, "a");
}

#[test]
fn a_rank_at_the_margin_moves() {
    let mut solver = Solver::new(settings(5, 50));
    let verdict = solver
        .next_step(vec![0.0, 0.0], vec![entry("a", 1.0, 1.0)], vec![Some(50)])
        .unwrap();
    assert!(matches!(verdict, Verdict::Advance(_)));
}

#[test]
fn out_of_steps_the_best_attempt_is_handed_back_and_nothing_changes() {
    let mut solver = Solver::new(settings(2, 200));
    for (word, rank) in [("a", 40), ("b", 30)] {
        let verdict = solver
            .next_step(vec![0.0, 0.0], vec![entry(word, 1.0, 1.0)], vec![Some(rank)])
            .unwrap();
        assert!(matches!(verdict, Verdict::Advance(_)));
    }
    let bailed = solver.bail_check().unwrap();
    assert_eq!(bailed.word, "b");
    assert_eq!(bailed.rank, 30);
    let verdict = solver
        .next_step(vec![0.0, 0.0], vec![entry("z", 1.0, 1.0)], vec![Some(1)])
        .unwrap();
    match verdict {
        Verdict::Settled(Step::Bailed(best)) => {
            assert_eq!(best.word, "b");
            assert_eq!(best.rank, 30);
        }
        other => panic!("unexpected verdict {:?}", other),
    }
    assert_eq!(solver.iterations(), 2);
    assert_eq!(solver.tabu().len(), 2);
    assert_eq!(solver.current_best().rank, 30);
}

#[test]
fn zero_steps_allowed_bails_at_once() {
    let mut solver = Solver::new(settings(0, 200));
    let verdict = solver
        .next_step(vec![0.0, 0.0], vec![entry("a", 1.0, 1.0)], vec![Some(0)])
        .unwrap();
    match verdict {
        Verdict::Settled(Step::Bailed(best)) => {
            assert_eq!(best.word, "");
            assert_eq!(best.rank, u32::MAX);
        }
        other => panic!("unexpected verdict {:?}", other),
    }
    assert_eq!(solver.tabu().len(), 0);
}

#[test]
fn best_rank_never_rises_and_tabu_grows_with_every_step() {
    let mut solver = Solver::new(settings(10, 1000));
    let rounds: Vec<Vec<(&str, Option<u32>)>> = vec![
        vec![("a", Some(300)), ("b", Some(200)), ("c", None)],
        vec![("d", Some(500))],
        vec![("e", Some(150)), ("f", Some(150))],
        vec![("g", None), ("h", Some(900)), ("i", Some(2000))],
    ];
    let mut best_before = solver.current_best().rank;
    let mut tabu_before = solver.tabu().len();
    let mut steps = 0;
    for round in rounds {
        let neighbors: Vec<Entry<f32>> = round.iter().map(|(w, _)| entry(w, 1.0, 2.0)).collect();
        let ranks: Vec<Option<u32>> = round.iter().map(|(_, r)| *r).collect();
        let count = neighbors.len();
        solver.next_step(vec![0.0, 0.0], neighbors, ranks).unwrap();
        steps += 1;
        let best = solver.current_best().rank;
        assert!(best <= best_before);
        assert_eq!(solver.tabu().len(), tabu_before + count);
        assert!(solver.tabu().len() >= steps);
        assert!(solver.tabu().len() <= steps * 3);
        best_before = best;
        tabu_before = solver.tabu().len();
    }
    assert_eq!(solver.current_best().rank, 150);
    assert_eq!(solver.current_best().word, "e");
}

#[test]
fn a_neighbor_of_another_length_cannot_be_moved_to() {
    let mut solver = Solver::new(settings(5, 200));
    let neighbors = vec![Entry { word: "a".to_string(), embedding: vec![1.0f32, 2.0, 3.0] }];
    let result = solver.next_step(vec![0.0, 0.0], neighbors, vec![Some(9)]);
    assert_eq!(result.unwrap_err(), KontekstoError::DimensionMismatch);
    assert_eq!(solver.current_best().rank, 9);
    assert_eq!(solver.tabu().len(), 1);
}

#[test]
fn commit_move_keeps_the_momentum_and_hands_on_the_query() {
    let mut solver = Solver::new(settings(5, 200));
    let step = solver
        .commit_move(Attempt::new("a".to_string(), 3), vec![0.5, 0.5], vec![1.5, 2.5])
        .unwrap();
    match step {
        Step::Next(attempt, query) => {
            assert_eq!(attempt.word, "a");
            assert_eq!(attempt.rank, 3);
            assert_eq!(query, vec![1.5, 2.5]);
        }
        other => panic!("unexpected step {:?}", other),
    }
    assert_eq!(solver.momentum(), Some(&vec![0.5, 0.5]));
}

#[test]
fn commit_move_refuses_lengths_that_differ() {
    let mut solver = Solver::new(settings(5, 200));
    let refused = solver.commit_move(Attempt::new("a".to_string(), 3), vec![0.5], vec![1.5, 2.5]);
    assert_eq!(refused.unwrap_err(), KontekstoError::DimensionMismatch);
    assert!(solver.momentum().is_none());

    solver
        .commit_move(Attempt::new("a".to_string(), 3), vec![0.5, 0.5], vec![1.5, 2.5])
        .unwrap();
    let refused = solver.commit_move(
        Attempt::new("b".to_string(), 2),
        vec![0.5, 0.5, 0.5],
        vec![1.5, 2.5, 3.5],
    );
    assert_eq!(refused.unwrap_err(), KontekstoError::DimensionMismatch);
    assert_eq!(solver.momentum(), Some(&vec![0.5, 0.5]));
}

#[test]
fn a_query_of_another_length_than_the_momentum_cannot_move() {
    let mut solver = Solver::new(settings(5, 200));
    solver
        .commit_move(Attempt::new("a".to_string(), 3), vec![0.5, 0.5], vec![1.5, 2.5])
        .unwrap();
    let neighbors = vec![Entry { word: "b".to_string(), embedding: vec![1.0f32, 2.0, 3.0] }];
    let result = solver.next_step(vec![0.0, 0.0, 0.0], neighbors, vec![Some(9)]);
    assert_eq!(result.unwrap_err(), KontekstoError::DimensionMismatch);
}

#[test]
fn reset_restores_the_start_whatever_came_before() {
    let mut solver = Solver::new(settings(3, 200));
    solver.ban_words(vec!["x".to_string()]);
    solver
        .next_step(vec![0.0, 0.0], vec![entry("a", 1.0, 1.0)], vec![Some(12)])
        .unwrap();
    solver
        .commit_move(Attempt::new("a".to_string(), 12), vec![0.5, 0.5], vec![0.5, 0.5])
        .unwrap();
    solver.reset();
    let best = solver.current_best();
    assert_eq!(best.word, "");
    assert_eq!(best.rank, u32::MAX);
    assert_eq!(solver.iterations(), 0);
    assert!(solver.tabu().is_empty());
    assert!(solver.momentum().is_none());
    assert_eq!(solver.settings().max_iters, 3);
    assert_eq!(solver.settings().margin, 200);
    assert_eq!(solver.settings().beta, 0.5);
}

#[test]
fn ban_words_appends_in_order() {
    let mut solver = Solver::new(settings(3, 200));
    solver.ban_words(vec!["x".to_string(), "y".to_string()]);
    solver.ban_words(vec!["x".to_string()]);
    assert_eq!(
        solver.tabu(),
        &vec!["x".to_string(), "y".to_string(), "x".to_string()]
    );
    assert_eq!(solver.iterations(), 0);
}
