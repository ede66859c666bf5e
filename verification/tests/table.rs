use promethee::alternatives::parse_direction;
use promethee::alternatives::Alternative;
use promethee::alternatives::AlternativeTable;
use promethee::alternatives::OptimizationDirection;
use promethee::generalized_criterion::from_params;
use promethee::generalized_criterion::normalize_linear;
use promethee::generalized_criterion::normalize_v_shape;
use promethee::generalized_criterion::GeneralizedCriterion;
use promethee::PrometheeError;
use promethee::PrometheeProblem;
use promethee::Ratio;
use promethee::VALUE_LIMIT;

fn ratio_f64(r: Ratio) -> f64 {
    r.num as f64 / r.den as f64
}

#[test]
fn test_linear_q0() {
    // thresholds and differences scaled by ten, so they stay integral
    let a = normalize_linear(0, 10, -10);
    let b = normalize_linear(0, 10, 5);
    let c = normalize_linear(0, 10, 11);

    assert_eq!(ratio_f64(a), 0.0);
    assert_eq!(ratio_f64(b), 0.5);
    assert_eq!(ratio_f64(c), 1.0);
}

#[test]
fn test_linear_q1() {
    let a = normalize_linear(10, 20, 0);
    let b = normalize_linear(10, 30, 15);
    let c = normalize_linear(10, 30, 20);

    assert_eq!(ratio_f64(a), 0.0);
    assert_eq!(ratio_f64(b), 0.25);
    assert_eq!(ratio_f64(c), 0.5);
}

#[test]
fn test_v_shape() {
    let a = normalize_v_shape(10, 0);
    let b = normalize_v_shape(10, 5);
    let c = normalize_v_shape(10, 12);

    assert_eq!(ratio_f64(a), 0.0);
    assert_eq!(ratio_f64(b), 0.5);
    assert_eq!(ratio_f64(c), 1.0);
}

#[test]
fn normalisation_covers_all_families() {
    let usual = GeneralizedCriterion::Usual;
    assert_eq!(usual.normalisation(1).num, 1);
    assert_eq!(usual.normalisation(0).num, 0);
    assert_eq!(usual.normalisation(-1).num, 0);

    let ushape = GeneralizedCriterion::UShape { p: 3 };
    assert_eq!(ushape.normalisation(3).num, 1);
    assert_eq!(ushape.normalisation(2).num, 0);

    let vshape = GeneralizedCriterion::VShape { p: 4 };
    let r = vshape.normalisation(3);
    assert_eq!(r.num, 3);
    assert_eq!(r.den, 4);

    let linear = GeneralizedCriterion::Linear { q: 1, p: 5 };
    let r = linear.normalisation(3);
    assert_eq!(r.num, 2);
    assert_eq!(r.den, 4);
    assert_eq!(linear.normalisation(0).num, 0);
    assert_eq!(linear.normalisation(7).num, 4);
}

#[test]
fn sym_normalisation_is_signed() {
    let vshape = GeneralizedCriterion::VShape { p: 4 };
    let plus = vshape.sym_normalisation(3);
    let minus = vshape.sym_normalisation(-3);
    let zero = vshape.sym_normalisation(0);
    assert_eq!(plus.num, 3);
    assert_eq!(minus.num, -3);
    assert_eq!(zero.num, 0);
    assert_eq!(plus.den, 4);
}

#[test]
fn from_params_builds_each_family() {
    assert_eq!(from_params("Usual", 0, 0), Ok(GeneralizedCriterion::Usual));
    assert_eq!(
        from_params("U-Shape", 0, 2),
        Ok(GeneralizedCriterion::UShape { p: 2 })
    );
    assert_eq!(
        from_params("V-Shape", 0, 2),
        Ok(GeneralizedCriterion::VShape { p: 2 })
    );
    assert_eq!(
        from_params("Linear", 1, 2),
        Ok(GeneralizedCriterion::Linear { q: 1, p: 2 })
    );
    assert_eq!(
        from_params("Linear", 3, 2),
        Err(PrometheeError::InvalidThresholds)
    );
    assert_eq!(
        from_params("Level", 1, 2),
        Err(PrometheeError::UnsupportedFunction)
    );
    assert_eq!(
        from_params("Gaussian", 1, 2),
        Err(PrometheeError::UnsupportedFunction)
    );
    assert_eq!(
        from_params("Quadratic", 1, 2),
        Err(PrometheeError::UnknownFunctionType)
    );
}

#[test]
fn parse_direction_accepts_three_spellings() {
    assert_eq!(parse_direction("min"), Ok(OptimizationDirection::Min));
    assert_eq!(parse_direction("Min"), Ok(OptimizationDirection::Min));
    assert_eq!(parse_direction("MIN"), Ok(OptimizationDirection::Min));
    assert_eq!(parse_direction("max"), Ok(OptimizationDirection::Max));
    assert_eq!(parse_direction("Max"), Ok(OptimizationDirection::Max));
    assert_eq!(parse_direction("MAX"), Ok(OptimizationDirection::Max));
    assert_eq!(
        parse_direction("sideways"),
        Err(PrometheeError::UnknownDirection)
    );
}

#[test]
fn table_construction_rejects_bad_shapes() {
    assert_eq!(
        AlternativeTable::new(vec![]).err(),
        Some(PrometheeError::EmptyTable)
    );
    assert_eq!(
        AlternativeTable::new(vec![
            Alternative::new("A".to_string(), vec![1, 2]),
            Alternative::new("B".to_string(), vec![1]),
        ])
        .err(),
        Some(PrometheeError::InconsistentRow)
    );
    assert_eq!(
        AlternativeTable::new(vec![Alternative::new("A".to_string(), vec![i64::MAX])]).err(),
        Some(PrometheeError::ValueOutOfRange)
    );
}

#[test]
fn from_matrix_names_alternatives_and_criteria() {
    let t = AlternativeTable::from_matrix(vec![vec![3, 2, 2], vec![1, 4, 3]]).unwrap();
    assert_eq!(t.n(), 2);
    assert_eq!(t.q(), 3);
    assert_eq!(t.alt_name(0), Some("a_1"));
    assert_eq!(t.alt_name(1), Some("a_2"));
    assert_eq!(t.alt_name(2), None);
    assert_eq!(t.criterion_name(0), Some("Criterion 1"));
    assert_eq!(t.criterion_name(2), Some("Criterion 3"));
    assert_eq!(t.criterion(0), Some(vec![3, 1]));
    assert_eq!(t.criterion(3), None);
    assert_eq!(t.criteria().len(), 3);
    assert_eq!(
        AlternativeTable::from_matrix(vec![]).err(),
        Some(PrometheeError::EmptyTable)
    );
}

#[test]
fn swap_direction_negates_the_column() {
    let mut t = AlternativeTable::from_matrix(vec![vec![3, 1], vec![-2, 4]]).unwrap();
    assert_eq!(t.criterion_direction(0), OptimizationDirection::Max);
    t.swap_criteria_direction(0);
    assert_eq!(t.criterion_direction(0), OptimizationDirection::Min);
    assert_eq!(t.criterion(0), Some(vec![-3, 2]));
    assert_eq!(t.criterion(1), Some(vec![1, 4]));
    t.swap_criteria_direction(0);
    assert_eq!(t.criterion_direction(0), OptimizationDirection::Max);
    assert_eq!(t.criterion(0), Some(vec![3, -2]));
}

#[test]
fn performance_accessors_and_updates() {
    let mut t = AlternativeTable::from_matrix(vec![vec![3, 1], vec![2, 4]]).unwrap();
    assert_eq!(t.performance(0, 1), Some(1));
    assert_eq!(t.performance(2, 0), None);
    t.set_performance(0, 1, 9).unwrap();
    assert_eq!(t.performance(0, 1), Some(9));
    assert_eq!(
        t.set_performance(5, 0, 1).err(),
        Some(PrometheeError::IndexOutOfRange)
    );
    assert_eq!(
        t.set_performance(0, 0, i64::MAX).err(),
        Some(PrometheeError::ValueOutOfRange)
    );
    t.shift_performance(1, 0, -2).unwrap();
    assert_eq!(t.performance(1, 0), Some(0));
    assert_eq!(
        t.shift_performance(1, 0, -VALUE_LIMIT - 1).err(),
        Some(PrometheeError::ValueOutOfRange)
    );
    let alt = t.alternative(0).unwrap();
    assert_eq!(alt.name(), "a_1");
    assert_eq!(alt.perf(1), Some(9));
    assert_eq!(alt.perf(7), None);
}

#[test]
fn model_construction_rejects_bad_inputs() {
    let mk = || AlternativeTable::from_matrix(vec![vec![1], vec![2]]).unwrap();
    let vshape = || vec![GeneralizedCriterion::VShape { p: 1 }];
    assert_eq!(
        PrometheeProblem::new(mk(), vec![], vec![1]).err(),
        Some(PrometheeError::WrongCriteriaCount)
    );
    assert_eq!(
        PrometheeProblem::new(mk(), vshape(), vec![]).err(),
        Some(PrometheeError::WrongWeightsCount)
    );
    let single = AlternativeTable::from_matrix(vec![vec![1]]).unwrap();
    assert_eq!(
        PrometheeProblem::new(single, vshape(), vec![1]).err(),
        Some(PrometheeError::TooFewAlternatives)
    );
    assert_eq!(
        PrometheeProblem::new(mk(), vshape(), vec![0]).err(),
        Some(PrometheeError::ZeroWeightSum)
    );
    assert_eq!(
        PrometheeProblem::new(
            mk(),
            vec![GeneralizedCriterion::Linear { q: 3, p: 2 }],
            vec![1]
        )
        .err(),
        Some(PrometheeError::InvalidThresholds)
    );
    let wide = AlternativeTable::from_matrix(vec![vec![1, 1, 1], vec![2, 2, 2]]).unwrap();
    assert_eq!(
        PrometheeProblem::new(
            wide,
            vec![
                GeneralizedCriterion::VShape { p: VALUE_LIMIT },
                GeneralizedCriterion::VShape { p: VALUE_LIMIT },
                GeneralizedCriterion::VShape { p: VALUE_LIMIT },
            ],
            vec![u64::MAX, u64::MAX, u64::MAX]
        )
        .err(),
        Some(PrometheeError::DenominatorTooLarge)
    );
}

#[test]
fn model_exposes_names_and_functions() {
    let table = AlternativeTable::new(vec![
        Alternative::new("north".to_string(), vec![1]),
        Alternative::new("south".to_string(), vec![2]),
    ])
    .unwrap()
    .with_criteria_names(vec!["price".to_string()])
    .unwrap();
    let problem = PrometheeProblem::new(
        table,
        vec![GeneralizedCriterion::UShape { p: 1 }],
        vec![4],
    )
    .unwrap();
    assert_eq!(problem.n(), 2);
    assert_eq!(problem.q(), 1);
    assert_eq!(problem.alt_name(0), Some("north"));
    assert_eq!(problem.alt_name(9), None);
    assert_eq!(problem.alt_names(), vec!["north".to_string(), "south".to_string()]);
    assert_eq!(problem.criterion_name(0), Some("price"));
    assert_eq!(
        problem.pref_fun(0),
        Some(GeneralizedCriterion::UShape { p: 1 })
    );
    assert_eq!(problem.pref_fun(1), None);
}

#[test]
fn directions_can_be_recorded_without_negating() {
    let t = AlternativeTable::from_matrix(vec![vec![1, 2], vec![3, 4]])
        .unwrap()
        .with_criteria_directions(vec![
            OptimizationDirection::Min,
            OptimizationDirection::Max,
        ])
        .unwrap();
    assert_eq!(t.criterion_direction(0), OptimizationDirection::Min);
    // recording a direction is only a label: the column is untouched
    assert_eq!(t.criterion(0), Some(vec![1, 3]));
    let mut t = t;
    t.set_criterion_direction(0, OptimizationDirection::Max);
    assert_eq!(t.criterion_direction(0), OptimizationDirection::Max);
    assert_eq!(
        t.criteria_directions(),
        &vec![OptimizationDirection::Max, OptimizationDirection::Max]
    );
}

#[test]
fn alternative_updates_in_place() {
    let mut a = Alternative::new("draft".to_string(), vec![1, 2]);
    assert_eq!(a.name(), "draft");
    assert_eq!(a.perfs(), &vec![1, 2]);
    a.change_name("kept".to_string());
    a.change_perf(0, 9);
    assert_eq!(a.name(), "kept");
    assert_eq!(a.perf(0), Some(9));
    assert_eq!(a.perfs(), &vec![9, 2]);
}
