use promethee::alternatives::Alternative;
use promethee::alternatives::AlternativeTable;
use promethee::generalized_criterion::GeneralizedCriterion;
use promethee::PrometheeProblem;

fn ratio_f64(num: i128, den: i128) -> f64 {
    num as f64 / den as f64
}

fn round3(x: f64) -> f64 {
    (x * 1000.0).round() / 1000.0
}

fn init_simple_problem() -> PrometheeProblem {
    let alt_table = AlternativeTable::new(vec![
        Alternative::new("A".to_string(), vec![3, 1]),
        Alternative::new("B".to_string(), vec![2, 4]),
        Alternative::new("C".to_string(), vec![2, 3]),
    ])
    .unwrap();
    let weights: Vec<u64> = vec![3, 7];
    let criteria: Vec<GeneralizedCriterion> = vec![
        GeneralizedCriterion::VShape { p: 3 },
        GeneralizedCriterion::Linear { q: 1, p: 3 },
    ];
    PrometheeProblem::new(alt_table, criteria, weights).unwrap()
}

#[test]
fn test_solve() {
    let problem = init_simple_problem();
    let solution = problem.solve();
    let final_net_flow: Vec<f64> = solution
        .net_flows()
        .iter()
        .map(|&num| round3(ratio_f64(num, solution.flow_den)))
        .collect();
    let real_solution = vec![-0.425, 0.3, 0.125];
    let mut equality = real_solution
        .iter()
        .enumerate()
        .map(|(i, &val)| val == final_net_flow[i]);
    assert!(equality.all(|x| x))
}

#[test]
fn test_solve_2() {
    let alt_table = AlternativeTable::new(vec![
        Alternative::new("A".to_string(), vec![3, 1]),
        Alternative::new("B".to_string(), vec![2, 4]),
        Alternative::new("C".to_string(), vec![0, 5]),
    ])
    .unwrap();
    let weights: Vec<u64> = vec![1, 1];
    let criteria: Vec<GeneralizedCriterion> = vec![
        GeneralizedCriterion::VShape { p: 2 },
        GeneralizedCriterion::VShape { p: 3 },
    ];
    let problem = PrometheeProblem::new(alt_table, criteria, weights).unwrap();
    let solution = problem.solve();
    let final_net_flow: Vec<f64> = solution
        .net_flows()
        .iter()
        .map(|&num| round3(ratio_f64(num, solution.flow_den)))
        .collect();
    let real_solution = vec![-0.125, 0.292, -0.167];
    let mut equality = real_solution
        .iter()
        .enumerate()
        .map(|(i, &val)| val == final_net_flow[i]);
    assert!(equality.all(|x| x))
}

#[test]
fn solve_fast_and_slow_equivalent() {
    let problem = init_simple_problem();
    for k in 0..problem.q() {
        let generalized_criterion = problem.pref_fun(k).unwrap();
        let n = problem.n();
        let mut dist_mat: Vec<Vec<i64>> = Vec::new();
        for i in 0..n {
            let mut row: Vec<i64> = Vec::new();
            for j in 0..n {
                row.push(problem.perf(k, i).unwrap() - problem.perf(k, j).unwrap());
            }
            dist_mat.push(row);
        }
        let (slow_pos_flow, slow_neg_flow) =
            problem.slow_unicriterion_flows(&dist_mat, &generalized_criterion);
        let (fast_pos_flow, fast_neg_flow) = problem.fast_unicriterion_flows(k).unwrap();

        assert!(slow_pos_flow
            .iter()
            .enumerate()
            .map(|(i, &val)| val == fast_pos_flow[i])
            .all(|x| x));

        assert!(slow_neg_flow
            .iter()
            .enumerate()
            .map(|(i, &val)| val == fast_neg_flow[i])
            .all(|x| x));
    }
}

#[test]
fn usual_all_equal_gives_zero_flows() {
    let alt_table = AlternativeTable::new(vec![
        Alternative::new("A".to_string(), vec![1]),
        Alternative::new("B".to_string(), vec![1]),
        Alternative::new("C".to_string(), vec![1]),
    ])
    .unwrap();
    let problem =
        PrometheeProblem::new(alt_table, vec![GeneralizedCriterion::Usual], vec![1]).unwrap();
    let solution = problem.solve();
    for i in 0..3 {
        assert_eq!(solution.positive_flows[i], 0);
        assert_eq!(solution.negative_flows[i], 0);
        assert_eq!(solution.net_flow(i).unwrap().num, 0);
    }
}

#[test]
fn degenerate_linear_matches_ushape_step() {
    // A Linear ramp with q == p must not divide by zero and must behave as
    // the UShape step at that threshold.
    let mk_table = || {
        AlternativeTable::new(vec![
            Alternative::new("A".to_string(), vec![5]),
            Alternative::new("B".to_string(), vec![3]),
            Alternative::new("C".to_string(), vec![3]),
            Alternative::new("D".to_string(), vec![0]),
        ])
        .unwrap()
    };
    let linear = PrometheeProblem::new(
        mk_table(),
        vec![GeneralizedCriterion::Linear { q: 2, p: 2 }],
        vec![1],
    )
    .unwrap();
    let ushape = PrometheeProblem::new(
        mk_table(),
        vec![GeneralizedCriterion::UShape { p: 2 }],
        vec![1],
    )
    .unwrap();
    let rl = linear.solve();
    let ru = ushape.solve();
    assert_eq!(rl.flow_den, ru.flow_den);
    for i in 0..4 {
        assert_eq!(rl.positive_flows[i], ru.positive_flows[i]);
        assert_eq!(rl.negative_flows[i], ru.negative_flows[i]);
    }
}

#[test]
fn direction_flip_swaps_unicriterion_flows() {
    let mk_alts = || {
        vec![
            Alternative::new("A".to_string(), vec![3, 1]),
            Alternative::new("B".to_string(), vec![2, 4]),
            Alternative::new("C".to_string(), vec![0, 5]),
        ]
    };
    let criteria = || {
        vec![
            GeneralizedCriterion::VShape { p: 2 },
            GeneralizedCriterion::VShape { p: 3 },
        ]
    };
    let table1 = AlternativeTable::new(mk_alts()).unwrap();
    let problem1 = PrometheeProblem::new(table1, criteria(), vec![1, 1]).unwrap();
    let r1 = problem1.solve();

    let mut table2 = AlternativeTable::new(mk_alts()).unwrap();
    table2.swap_criteria_direction(0);
    let problem2 = PrometheeProblem::new(table2, criteria(), vec![1, 1]).unwrap();
    let r2 = problem2.solve();

    // criterion 0 was negated: its flow vectors swap roles
    for i in 0..3 {
        assert_eq!(r2.unicrit_positive_flows[0][i], r1.unicrit_negative_flows[0][i]);
        assert_eq!(r2.unicrit_negative_flows[0][i], r1.unicrit_positive_flows[0][i]);
        // criterion 1 is untouched
        assert_eq!(r2.unicrit_positive_flows[1][i], r1.unicrit_positive_flows[1][i]);
        assert_eq!(r2.unicrit_negative_flows[1][i], r1.unicrit_negative_flows[1][i]);
    }
}

#[test]
fn ranked_alts_is_a_permutation_with_stable_ties() {
    // two identical alternatives tie exactly; ties keep ascending index order
    let alt_table = AlternativeTable::new(vec![
        Alternative::new("A".to_string(), vec![1]),
        Alternative::new("B".to_string(), vec![5]),
        Alternative::new("C".to_string(), vec![1]),
    ])
    .unwrap();
    let problem =
        PrometheeProblem::new(alt_table, vec![GeneralizedCriterion::VShape { p: 2 }], vec![2])
            .unwrap();
    let solution = problem.solve();
    let ranked = solution.ranked_alts();
    assert_eq!(ranked, vec![1, 0, 2]);
    let nets = solution.net_flows();
    // non-increasing in net flow
    for s in 1..ranked.len() {
        assert!(nets[ranked[s - 1]] >= nets[ranked[s]]);
    }
    // a permutation of 0..n
    let mut seen = vec![false; 3];
    for &x in &ranked {
        assert!(!seen[x]);
        seen[x] = true;
    }
    assert!(seen.iter().all(|&b| b));
}

#[test]
fn net_flow_identity_holds_exactly() {
    let problem = init_simple_problem();
    let solution = problem.solve();
    let nets = solution.net_flows();
    for i in 0..3 {
        assert_eq!(nets[i], solution.positive_flows[i] - solution.negative_flows[i]);
        let r = solution.net_flow(i).unwrap();
        assert_eq!(r.num, nets[i]);
        assert_eq!(r.den, solution.flow_den);
    }
    assert!(solution.net_flow(3).is_none());
}

#[test]
fn normalized_weights_sum_to_one() {
    let problem = init_simple_problem();
    let w0 = problem.w(0).unwrap();
    let w1 = problem.w(1).unwrap();
    assert_eq!(w0.den, w1.den);
    // 3/10 + 7/10 == 1
    assert_eq!(w0.num + w1.num, w0.den);
    assert!(problem.w(2).is_none());
}

#[test]
fn is_better_compares_net_flows_strictly() {
    let problem = init_simple_problem();
    let solution = problem.solve();
    // net flows are [-0.425, 0.300, 0.125]
    assert!(solution.is_better(1, 0));
    assert!(solution.is_better(1, 2));
    assert!(solution.is_better(2, 0));
    assert!(!solution.is_better(0, 1));
    assert!(!solution.is_better(1, 1));
}

#[test]
fn unicriterion_net_flows_subtract_pointwise() {
    let problem = init_simple_problem();
    let solution = problem.solve();
    for k in 0..2 {
        let nets = solution.unicriterion_net_flows(k);
        for i in 0..3 {
            assert_eq!(
                nets[i],
                solution.unicrit_positive_flows[k][i] - solution.unicrit_negative_flows[k][i]
            );
            let r = solution.unicriterion_net_flow(k, i).unwrap();
            assert_eq!(r.num, nets[i]);
            assert_eq!(r.den, solution.unicrit_dens[k]);
        }
        assert!(solution.unicriterion_net_flow(k, 9).is_none());
    }
}

#[test]
fn smallest_p_vshape_finds_min_positive_gap() {
    let alt_table = AlternativeTable::new(vec![
        Alternative::new("A".to_string(), vec![3, 1]),
        Alternative::new("B".to_string(), vec![2, 1]),
        Alternative::new("C".to_string(), vec![0, 1]),
    ])
    .unwrap();
    let problem = PrometheeProblem::new(
        alt_table,
        vec![
            GeneralizedCriterion::VShape { p: 5 },
            GeneralizedCriterion::VShape { p: 5 },
        ],
        vec![1, 1],
    )
    .unwrap();
    // sorted column 0 is [0, 2, 3]: gaps 2 and 1
    assert_eq!(problem.smallest_p_vshape(0), Some(1));
    // all equal: no positive gap
    assert_eq!(problem.smallest_p_vshape(1), None);
    // out of range
    assert_eq!(problem.smallest_p_vshape(2), None);
}

#[test]
fn sorted_evals_sorts_each_column() {
    let problem = init_simple_problem();
    assert_eq!(problem.sorted_evals(0), vec![2, 2, 3]);
    assert_eq!(problem.sorted_evals(1), vec![1, 3, 4]);
}

#[test]
fn shift_eval_moves_one_performance_and_resolves() {
    let mut problem = init_simple_problem();
    assert_eq!(problem.perf(0, 0), Some(3));
    problem.shift_eval(0, 0, -3).unwrap();
    assert_eq!(problem.perf(0, 0), Some(0));
    assert_eq!(problem.sorted_evals(0), vec![0, 2, 2]);
    // the model still solves consistently after the shift
    let solution = problem.solve();
    let nets = solution.net_flows();
    for i in 0..3 {
        assert_eq!(nets[i], solution.positive_flows[i] - solution.negative_flows[i]);
    }
}

#[test]
fn get_parameter_returns_vshape_threshold() {
    let problem = init_simple_problem();
    assert_eq!(problem.get_parameter(0), 3);
}

#[test]
fn solve_reports_unicriterion_denominators() {
    let problem = init_simple_problem();
    let solution = problem.solve();
    // ramp widths are 3 and 2; n - 1 == 2
    assert_eq!(solution.unicrit_dens[0], 6);
    assert_eq!(solution.unicrit_dens[1], 4);
    // weight sum 10, (n - 1) == 2, product of widths 6
    assert_eq!(solution.flow_den, 120);
}

#[test]
fn fast_flow_methods_accept_an_explicit_order() {
    let problem = init_simple_problem();
    // column 0 is [3, 2, 2]: ascending order of performances
    let order: Vec<usize> = vec![1, 2, 0];
    let pos = problem.fast_pos_unicriterion_flow(0, 0, 3, &order);
    let neg = problem.fast_neg_unicriterion_flow(0, 0, 3, &order);
    let (pos2, neg2) = problem.fast_unicriterion_flows(0).unwrap();
    assert_eq!(pos, pos2);
    assert_eq!(neg, neg2);
    // A is preferred to B and C by 1/3 each: numerator 2 over width 3
    assert_eq!(pos[0], 2);
    assert_eq!(neg[0], 0);
    assert_eq!(pos[1], 0);
    assert_eq!(neg[1], 1);
}
