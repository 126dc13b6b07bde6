use neuroevo::population::{cross_pairs, training_examples, Run};

#[test]
fn pairs_cover_the_selection_window() {
    assert_eq!(
        cross_pairs(10, 5, 5),
        vec![(0, 1), (0, 2), (0, 3), (0, 4), (1, 2), (1, 3), (1, 4), (2, 3), (2, 4), (3, 4)]
    );
    assert_eq!(cross_pairs(3, 5, 5), vec![(0, 1), (0, 2), (1, 2)]);
    assert_eq!(cross_pairs(10, 1, 4), vec![(0, 1), (0, 2), (0, 3)]);
    assert_eq!(cross_pairs(10, 3, 2), vec![(0, 1)]);
}

#[test]
fn empty_window_gives_no_pairs() {
    assert!(cross_pairs(0, 5, 5).is_empty());
    assert!(cross_pairs(10, 0, 5).is_empty());
    assert!(cross_pairs(10, 5, 1).is_empty());
}

#[test]
fn unreachable_threshold_runs_every_generation() {
    let children = 1 * cross_pairs(10, 5, 5).len();
    let mut run = Run::new(300, 10);
    let mut generations = 0;
    while !run.finished {
        run.record(children, false);
        generations += 1;
    }
    assert_eq!(generations, 300);
    assert_eq!(run.generation, 300);
    assert_eq!(run.population, 10 + 300 * 10);
}

#[test]
fn reached_threshold_stops_after_first_generation() {
    let mut run = Run::new(300, 10);
    assert!(!run.finished);
    run.record(10, true);
    assert!(run.finished);
    assert_eq!(run.generation, 1);
    assert_eq!(run.population, 20);
}

#[test]
fn zero_generations_do_nothing() {
    let run = Run::new(0, 4);
    assert!(run.finished);
    assert_eq!(run.population, 4);
}

#[test]
fn population_grows_by_each_generation_children() {
    let mut run = Run::new(5, 3);
    run.record(2, false);
    run.record(0, false);
    run.record(7, true);
    assert!(run.finished);
    assert_eq!(run.generation, 3);
    assert_eq!(run.population, 3 + 2 + 0 + 7);
}

#[test]
fn training_set_skips_held_out_bucket() {
    let buckets = vec![
        vec![vec![1.0, 2.0], vec![3.0, 4.0]],
        vec![vec![5.0, 6.0]],
        vec![vec![7.0, 8.0]],
    ];
    assert_eq!(training_examples(&buckets, 1), vec![vec![1.0, 2.0], vec![3.0, 4.0], vec![7.0, 8.0]]);
    assert_eq!(training_examples(&buckets, 0), vec![vec![5.0, 6.0], vec![7.0, 8.0]]);
    assert_eq!(training_examples(&buckets, 5).len(), 4);
}
