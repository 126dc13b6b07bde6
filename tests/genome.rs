use neuroevo::activation::{ACTIVATION_LINEAR, ACTIVATION_RELU, ACTIVATION_TANH};
use neuroevo::model::{Crossing, Model, Mutation};
use neuroevo::topology::{edge_permitted, ConfigError, Topology};
use neuroevo::utils::{inherit, layer_index, total_count};
use neuroevo::variety::Variety;

fn topology(variety: Variety, input: usize, layers: usize, hidden: usize, output: usize, functions: Vec<usize>) -> Topology {
    Topology {
        variety,
        input_count: input,
        layer_count: layers,
        hidden_count: hidden,
        output_count: output,
        function_list: functions,
        reset_flag: false,
    }
}

fn build(t: &Topology, base: f64) -> Model<f64> {
    let n = t.total_count();
    let mut weights = vec![];
    for i in 0..n {
        let mut row = vec![];
        for j in 0..n {
            row.push(base + (i * n + j) as f64);
        }
        weights.push(row);
    }
    let slopes: Vec<f64> = (0..n).map(|i| base + 100.0 + i as f64).collect();
    let biases: Vec<f64> = (0..n).map(|i| base + 200.0 + i as f64).collect();
    Model::new(t, &weights, slopes, biases, 0.0)
}

fn quiet(n: usize) -> Mutation<f64> {
    Mutation {
        core_flips: vec![false; n],
        weight_flag_flips: vec![vec![false; n]; n],
        weight_values: vec![vec![None; n]; n],
        slope_values: vec![None; n],
        bias_values: vec![None; n],
        function_picks: vec![None; n],
    }
}

#[test]
fn total_count_adds_layers() {
    assert_eq!(total_count(5, 5, 5, 1), 31);
    assert_eq!(total_count(1, 0, 0, 1), 2);
    assert_eq!(total_count(2, 3, 0, 4), 6);
}

#[test]
fn layer_index_partitions_nodes() {
    let n = total_count(2, 2, 3, 1);
    assert_eq!(n, 9);
    let layers: Vec<usize> = (0..n).map(|i| layer_index(i, 2, 2, 3, 1, n)).collect();
    assert_eq!(layers, vec![0, 0, 1, 1, 1, 2, 2, 2, 3]);
}

#[test]
fn layer_index_without_hidden_nodes() {
    let n = total_count(1, 0, 0, 1);
    assert_eq!(layer_index(0, 1, 0, 0, 1, n), 0);
    assert_eq!(layer_index(1, 1, 0, 0, 1, n), 1);
}

#[test]
fn edges_follow_the_variety() {
    assert!(edge_permitted(Variety::FEEDFORWARD, 2, 2, 3, 1, 2, 0));
    assert!(!edge_permitted(Variety::FEEDFORWARD, 2, 2, 3, 1, 2, 3));
    assert!(!edge_permitted(Variety::FEEDFORWARD, 2, 2, 3, 1, 8, 2));
    assert!(edge_permitted(Variety::FEEDFORWARD, 2, 2, 3, 1, 8, 5));
    assert!(!edge_permitted(Variety::FEEDFORWARD, 2, 2, 3, 1, 0, 4));
    assert!(edge_permitted(Variety::RECURRENT, 2, 2, 3, 1, 2, 8));
    assert!(edge_permitted(Variety::RECURRENT, 2, 2, 3, 1, 3, 3));
    assert!(!edge_permitted(Variety::RECURRENT, 2, 2, 3, 1, 1, 4));
}

#[test]
fn validate_names_each_fault() {
    let good = topology(Variety::FEEDFORWARD, 2, 1, 2, 1, vec![ACTIVATION_LINEAR]);
    assert_eq!(good.validate(), Ok(()));
    let t = topology(Variety::FEEDFORWARD, 0, 1, 2, 1, vec![ACTIVATION_LINEAR]);
    assert_eq!(t.validate(), Err(ConfigError::NoInputs));
    let t = topology(Variety::FEEDFORWARD, 2, 1, 2, 0, vec![ACTIVATION_LINEAR]);
    assert_eq!(t.validate(), Err(ConfigError::NoOutputs));
    let t = topology(Variety::FEEDFORWARD, 2, 1, 2, 1, vec![]);
    assert_eq!(t.validate(), Err(ConfigError::NoActivations));
    let t = topology(Variety::FEEDFORWARD, 2, 1, 2, 1, vec![ACTIVATION_LINEAR, 8]);
    assert_eq!(t.validate(), Err(ConfigError::UnknownActivation));
    let t = topology(Variety::FEEDFORWARD, 2, usize::MAX, 0, 1, vec![ACTIVATION_LINEAR]);
    assert_eq!(t.validate(), Err(ConfigError::TooLarge));
    let t = topology(Variety::FEEDFORWARD, 2, usize::MAX / 2, 4, 1, vec![ACTIVATION_LINEAR]);
    assert_eq!(t.validate(), Err(ConfigError::TooLarge));
    let t = topology(Variety::FEEDFORWARD, usize::MAX, 0, 0, 1, vec![ACTIVATION_LINEAR]);
    assert_eq!(t.validate(), Err(ConfigError::TooLarge));
}

#[test]
fn check_examples_rejects_wrong_width() {
    let t = topology(Variety::FEEDFORWARD, 2, 0, 0, 1, vec![ACTIVATION_LINEAR]);
    assert_eq!(t.check_examples(&vec![vec![1.0, 2.0, 3.0], vec![0.0, 0.0, 0.0]]), Ok(()));
    assert_eq!(t.check_examples(&vec![vec![1.0, 2.0, 3.0], vec![0.0, 0.0]]), Err(ConfigError::ExampleShape));
    assert_eq!(t.check_examples(&vec![Vec::<f64>::new()]), Err(ConfigError::ExampleShape));
}

#[test]
fn trivial_layered_genome_is_an_identity_edge() {
    let t = topology(Variety::FEEDFORWARD, 1, 0, 0, 1, vec![ACTIVATION_LINEAR]);
    let m = Model::new(&t, &vec![vec![1.0, 1.0], vec![1.0, 1.0]], vec![1.0, 1.0], vec![0.0, 0.0], 0.0);
    assert_eq!(m.weight_flags, vec![vec![false, false], vec![true, false]]);
    assert_eq!(m.weights, vec![vec![0.0, 0.0], vec![1.0, 0.0]]);
    assert_eq!(m.functions, vec![ACTIVATION_LINEAR, ACTIVATION_LINEAR]);
    assert_eq!(m.core_flags, vec![true, true]);
    assert_eq!(m.biases, vec![0.0, 0.0]);
    assert_eq!(m.axons, vec![0.0, 0.0]);
}

#[test]
fn construction_seals_forbidden_edges() {
    let t = topology(Variety::FEEDFORWARD, 2, 2, 2, 1, vec![ACTIVATION_LINEAR, ACTIVATION_TANH, ACTIVATION_RELU]);
    let m = build(&t, 1.0);
    let n = t.total_count();
    for i in 0..n {
        for j in 0..n {
            let allowed = t.layer_index(i) != 0 && t.layer_index(i) == t.layer_index(j) + 1;
            assert_eq!(m.weight_flags[i][j], allowed);
            if allowed {
                assert_eq!(m.weights[i][j], 1.0 + (i * n + j) as f64);
            } else {
                assert_eq!(m.weights[i][j], 0.0);
            }
        }
        assert!(t.function_list.contains(&m.functions[i]));
    }
    assert_eq!(m.slopes[3], 104.0);
    assert_eq!(m.error, 0.0);
    assert_eq!(m.validation, 0.0);
}

#[test]
fn recurrent_construction_enables_all_but_input_rows() {
    let t = topology(Variety::RECURRENT, 2, 1, 2, 1, vec![ACTIVATION_TANH]);
    let m = build(&t, 0.5);
    for i in 0..5 {
        for j in 0..5 {
            assert_eq!(m.weight_flags[i][j], i >= 2);
        }
    }
}

#[test]
fn cross_with_itself_is_identity() {
    let t = topology(Variety::RECURRENT, 2, 2, 2, 2, vec![ACTIVATION_LINEAR, ACTIVATION_TANH, ACTIVATION_RELU]);
    let a = build(&t, 3.0);
    let before = a.clone();
    let child = a.cross(&a);
    assert_eq!(child, a);
    assert_eq!(a, before);
}

#[test]
fn cross_takes_each_gene_from_a_parent() {
    let t = topology(Variety::FEEDFORWARD, 2, 2, 2, 1, vec![ACTIVATION_LINEAR, ACTIVATION_TANH]);
    let a = build(&t, 0.0);
    let mut b = build(&t, 1000.0);
    b.core_flags = vec![false; 7];
    b.weight_flags = b.weight_flags.iter().map(|row| row.iter().map(|_| false).collect()).collect();
    let b_before = b.clone();
    let child = a.cross(&b);
    assert_eq!(b, b_before);
    let mut from_b = 0;
    for i in 0..7 {
        if i < 2 {
            assert!(child.core_flags[i]);
            assert_eq!(child.slopes[i], a.slopes[i]);
            assert_eq!(child.biases[i], a.biases[i]);
        } else {
            assert!(child.slopes[i] == a.slopes[i] || child.slopes[i] == b.slopes[i]);
            assert!(child.biases[i] == a.biases[i] || child.biases[i] == b.biases[i]);
            if child.slopes[i] == b.slopes[i] {
                from_b += 1;
            }
        }
        for j in 0..7 {
            if a.weight_flags[i][j] {
                assert!(child.weights[i][j] == a.weights[i][j] || child.weights[i][j] == b.weights[i][j]);
            } else {
                assert!(!child.weight_flags[i][j]);
                assert_eq!(child.weights[i][j], a.weights[i][j]);
            }
        }
    }
    assert!(from_b <= 5);
    assert_eq!(child.axons, a.axons);
}

#[test]
fn crossover_mixes_parents_over_many_children() {
    let t = topology(Variety::RECURRENT, 1, 1, 4, 1, vec![ACTIVATION_LINEAR]);
    let a = build(&t, 0.0);
    let b = build(&t, 1000.0);
    let mut from_a = 0;
    let mut from_b = 0;
    for _ in 0..20 {
        let child = a.cross(&b);
        for i in 1..6 {
            if child.slopes[i] == a.slopes[i] {
                from_a += 1;
            } else {
                from_b += 1;
            }
        }
    }
    assert!(from_a > 0 && from_b > 0);
}

#[test]
fn quiet_mutation_changes_nothing() {
    let t = topology(Variety::FEEDFORWARD, 2, 2, 2, 1, vec![ACTIVATION_LINEAR, ACTIVATION_TANH]);
    let mut m = build(&t, 2.0);
    let before = m.clone();
    m.mutate(&quiet(7));
    assert_eq!(m, before);
}

#[test]
fn full_mutation_touches_only_permitted_genes() {
    let t = topology(Variety::FEEDFORWARD, 2, 1, 2, 1, vec![ACTIVATION_LINEAR, ACTIVATION_TANH]);
    let mut m = build(&t, 2.0);
    let before = m.clone();
    let n = 5;
    let mutation = Mutation {
        core_flips: vec![true; n],
        weight_flag_flips: vec![vec![true; n]; n],
        weight_values: vec![vec![Some(-7.0); n]; n],
        slope_values: vec![Some(9.0); n],
        bias_values: vec![Some(-9.0); n],
        function_picks: vec![Some(1); n],
    };
    m.mutate(&mutation);
    for i in 0..n {
        if i < 2 {
            assert_eq!(m.core_flags[i], before.core_flags[i]);
            assert_eq!(m.slopes[i], before.slopes[i]);
            assert_eq!(m.biases[i], before.biases[i]);
            assert_eq!(m.functions[i], before.functions[i]);
        } else {
            assert_eq!(m.core_flags[i], !before.core_flags[i]);
            assert_eq!(m.slopes[i], 9.0);
            assert_eq!(m.biases[i], -9.0);
            assert_eq!(m.functions[i], ACTIVATION_TANH);
        }
        for j in 0..n {
            if before.weight_flags[i][j] {
                assert!(!m.weight_flags[i][j]);
                assert_eq!(m.weights[i][j], -7.0);
            } else {
                assert!(!m.weight_flags[i][j]);
                assert_eq!(m.weights[i][j], 0.0);
            }
        }
    }
    assert_eq!(m.axons, before.axons);
}

#[test]
fn weight_perturbation_stays_within_delta() {
    let t = topology(Variety::RECURRENT, 1, 1, 2, 1, vec![ACTIVATION_LINEAR]);
    let mut m = build(&t, 0.0);
    let before = m.clone();
    let n = 4;
    let delta = 0.25;
    let mut mutation = quiet(n);
    for i in 0..n {
        for j in 0..n {
            let step = if (i + j) % 2 == 0 { delta } else { -delta };
            mutation.weight_values[i][j] = Some(before.weights[i][j] + step);
        }
    }
    m.mutate(&mutation);
    for i in 1..n {
        for j in 0..n {
            assert!((m.weights[i][j] - before.weights[i][j]).abs() <= delta);
            assert!(m.weights[i][j] != before.weights[i][j]);
        }
    }
    assert_eq!(m.weights[0], before.weights[0]);
}

#[test]
fn inherit_draws_both_outcomes() {
    let draws: Vec<bool> = (0..200).map(|_| inherit()).collect();
    assert!(draws.iter().any(|d| *d));
    assert!(draws.iter().any(|d| !*d));
}

#[test]
fn activations_are_drawn_from_the_list() {
    let t = topology(Variety::RECURRENT, 1, 4, 5, 1, vec![ACTIVATION_TANH, ACTIVATION_RELU]);
    let m = build(&t, 0.0);
    let mut seen_tanh = false;
    let mut seen_relu = false;
    for f in m.functions.iter() {
        assert!(*f == ACTIVATION_TANH || *f == ACTIVATION_RELU);
        seen_tanh |= *f == ACTIVATION_TANH;
        seen_relu |= *f == ACTIVATION_RELU;
    }
    assert!(seen_tanh && seen_relu);
}

fn coins(n: usize, value: bool) -> Crossing {
    Crossing {
        core: vec![value; n],
        edge_flags: vec![vec![value; n]; n],
        edge_weights: vec![vec![value; n]; n],
        slope: vec![value; n],
        bias: vec![value; n],
        function: vec![value; n],
    }
}

#[test]
fn cross_with_set_coins_takes_other_genes() {
    let t = topology(Variety::FEEDFORWARD, 2, 1, 2, 1, vec![ACTIVATION_LINEAR, ACTIVATION_TANH]);
    let a = build(&t, 0.0);
    let mut b = build(&t, 1000.0);
    b.core_flags = vec![false; 5];
    b.functions = vec![ACTIVATION_TANH; 5];
    let child = a.cross_with(&b, &coins(5, true));
    for i in 0..5 {
        let from = if i < 2 { &a } else { &b };
        assert_eq!(child.core_flags[i], from.core_flags[i]);
        assert_eq!(child.slopes[i], from.slopes[i]);
        assert_eq!(child.biases[i], from.biases[i]);
        assert_eq!(child.functions[i], from.functions[i]);
        for j in 0..5 {
            if a.weight_flags[i][j] {
                assert_eq!(child.weights[i][j], b.weights[i][j]);
            } else {
                assert_eq!(child.weights[i][j], a.weights[i][j]);
            }
        }
    }
    assert_eq!(child.axons, a.axons);
}

#[test]
fn cross_with_clear_coins_copies_self() {
    let t = topology(Variety::RECURRENT, 2, 1, 2, 1, vec![ACTIVATION_LINEAR]);
    let a = build(&t, 0.0);
    let b = build(&t, 1000.0);
    assert_eq!(a.cross_with(&b, &coins(5, false)), a);
}

#[test]
fn cross_with_mixed_coins_follows_each_coin() {
    let t = topology(Variety::RECURRENT, 1, 1, 1, 1, vec![ACTIVATION_LINEAR]);
    let a = build(&t, 0.0);
    let b = build(&t, 1000.0);
    let mut c = coins(3, false);
    c.slope[1] = true;
    c.edge_weights[2][0] = true;
    c.edge_flags[2][1] = true;
    let child = a.cross_with(&b, &c);
    assert_eq!(child.slopes, vec![a.slopes[0], b.slopes[1], a.slopes[2]]);
    assert_eq!(child.biases, a.biases);
    assert_eq!(child.weights[2], vec![b.weights[2][0], a.weights[2][1], a.weights[2][2]]);
    assert_eq!(child.weights[1], a.weights[1]);
}

#[test]
fn assemble_uses_drawn_activation_positions() {
    let t = topology(Variety::FEEDFORWARD, 1, 1, 1, 1, vec![ACTIVATION_TANH, ACTIVATION_RELU]);
    let w = vec![vec![1.0; 3]; 3];
    let m = Model::assemble(&t, &w, vec![1.0; 3], vec![0.0; 3], &vec![1, 0, 1], 0.0);
    assert_eq!(m.functions, vec![ACTIVATION_RELU, ACTIVATION_TANH, ACTIVATION_RELU]);
    assert_eq!(m.weight_flags, vec![vec![false; 3], vec![true, false, false], vec![false, true, false]]);
}
