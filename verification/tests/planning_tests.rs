use balance_engine::errors::SolverFailure;
use balance_engine::errors::ValidationError;
use balance_engine::errors::ReportingError;
use balance_engine::linear::LinTerm;
use balance_engine::linear::LinearExpression;
use balance_engine::linear::Objective;
use balance_engine::linear::Sense;
use balance_engine::planning::build_planning;
use balance_engine::planning::production_var;
use balance_engine::planning::DemandEntry;
use balance_engine::planning::PeriodPlan;
use balance_engine::planning::PlanningProblem;
use balance_engine::planning::ProductPlan;
use balance_engine::solution::accept_solution;
use balance_engine::solution::production_report;
use balance_engine::solution::utilization_report;
use balance_engine::solution::Assignment;

fn product(cost: i64, holding: i64, initial: i64, safety: i64, consumption: Vec<i64>) -> ProductPlan {
    ProductPlan {
        production_cost: cost,
        holding_cost: holding,
        initial_inventory: initial,
        safety_stock: safety,
        consumption,
    }
}

/// Two products sharing machine-hours and materials over one period.
fn product_mix_problem() -> PlanningProblem {
    PlanningProblem {
        products: vec![
            product(0, 0, 0, 0, vec![2, 3]),
            product(0, 0, 0, 0, vec![1, 4]),
        ],
        periods: vec![PeriodPlan { position: 0, capacities: vec![40, 90] }],
        n_resources: 2,
        demand: vec![],
    }
}

#[test]
fn single_period_planning_scenario() {
    let build = build_planning(product_mix_problem()).unwrap();
    // Profit per unit: 40 for the first product, 30 for the second.
    let profit = Objective {
        expr: LinearExpression {
            terms: vec![
                LinTerm { var: production_var(&build.model, 0, 0), coef: 40 },
                LinTerm { var: production_var(&build.model, 1, 0), coef: 30 },
            ],
        },
        sense: Sense::Maximize,
    };
    // The optimal vertex of 2a + b <= 40, 3a + 4b <= 90 is a = 14, b = 12.
    let solved = accept_solution(&build.registry, &build.constraints, vec![14, 12, 14, 12])
        .unwrap();
    assert_eq!(solved.evaluate(&profit.expr).unwrap(), 920);
    // Both resource constraints hold with zero slack at the optimum.
    let util = utilization_report(&build.model, &build.constraints, &solved);
    assert_eq!(util.len(), 1);
    assert_eq!(util[0].uses[0].consumed, 40);
    assert_eq!(util[0].uses[0].capacity, 40);
    assert_eq!(util[0].uses[1].consumed, 90);
    assert_eq!(util[0].uses[1].capacity, 90);
    // Producing 10 and 20 would earn 1000 but overdraws materials:
    // 3 * 10 + 4 * 20 = 110 > 90.
    let r = accept_solution(&build.registry, &build.constraints, vec![10, 20, 10, 20]);
    assert_eq!(r.unwrap_err(), SolverFailure::Infeasible);
}

#[test]
fn utilization_ties_go_to_first_resource() {
    let build = build_planning(product_mix_problem()).unwrap();
    let solved = accept_solution(&build.registry, &build.constraints, vec![14, 12, 14, 12])
        .unwrap();
    let util = utilization_report(&build.model, &build.constraints, &solved);
    // Both resources sit at 100.00%; the first declared one is the bottleneck.
    assert_eq!(util[0].uses[0].percent_bp, 10000);
    assert_eq!(util[0].uses[1].percent_bp, 10000);
    assert_eq!(util[0].bottleneck, Some(0));
}

#[test]
fn negative_capacity_is_rejected_before_any_variable_exists() {
    let mut problem = product_mix_problem();
    problem.periods[0].capacities[0] = -1;
    let r = build_planning(problem);
    assert!(matches!(r, Err(ValidationError::NegativeValue)));
}

/// One product over three periods whose rows arrive out of order.
fn three_period_problem() -> PlanningProblem {
    PlanningProblem {
        products: vec![product(3, 1, 5, 2, vec![1])],
        // The first row holds the LAST order position: validation must sort.
        periods: vec![
            PeriodPlan { position: 2, capacities: vec![10] },
            PeriodPlan { position: 0, capacities: vec![10] },
            PeriodPlan { position: 1, capacities: vec![10] },
        ],
        n_resources: 1,
        demand: vec![
            DemandEntry { product: 0, period: 1, amount: 4 },
            DemandEntry { product: 0, period: 2, amount: 6 },
            DemandEntry { product: 0, period: 0, amount: 3 },
        ],
    }
}

#[test]
fn inventory_recurrence_over_scrambled_periods() {
    let build = build_planning(three_period_problem()).unwrap();
    // Order positions: period row 1 first, then row 2, then row 0.
    assert_eq!(build.model.order, vec![1, 2, 0]);
    // Chosen production 4, 3, 3 along the order gives inventories
    // 5 + 4 - 4 = 5, then 5 + 3 - 6 = 2, then 2 + 3 - 3 = 2 >= safety 2.
    // Values are indexed by period row: production rows [3, 4, 3],
    // inventory rows [2, 5, 2].
    let solved = accept_solution(&build.registry, &build.constraints, vec![3, 4, 3, 2, 5, 2])
        .unwrap();
    let cells = production_report(&build.model, &solved).unwrap();
    assert_eq!(cells.len(), 3);
    // Recurrence along the order: inventory = prior + production - demand.
    let by_order: Vec<(i64, i64, i64)> = build
        .model
        .order
        .iter()
        .map(|&t| {
            let demand: i64 = build
                .model
                .problem
                .demand
                .iter()
                .filter(|d| d.period == t)
                .map(|d| d.amount)
                .sum();
            (cells[t].production, cells[t].inventory, demand)
        })
        .collect();
    let mut prior = 5;
    for (produced, inventory, demand) in by_order {
        assert_eq!(inventory, prior + produced - demand);
        prior = inventory;
    }
}

#[test]
fn objective_value_matches_recomputed_cost() {
    let build = build_planning(three_period_problem()).unwrap();
    let solved = accept_solution(&build.registry, &build.constraints, vec![3, 4, 3, 2, 5, 2])
        .unwrap();
    assert_eq!(build.objective.sense, Sense::Minimize);
    // 3 per unit produced (3 + 4 + 3 = 10), 1 per unit held (2 + 5 + 2 = 9).
    assert_eq!(solved.evaluate(&build.objective.expr).unwrap(), 39);
}

#[test]
fn safety_stock_shortfall_is_infeasible() {
    let build = build_planning(three_period_problem()).unwrap();
    // Producing only 2 in the last ordered period leaves inventory 1 < 2.
    let r = accept_solution(&build.registry, &build.constraints, vec![2, 4, 3, 1, 5, 2]);
    assert_eq!(r.unwrap_err(), SolverFailure::Infeasible);
}

#[test]
fn negative_quantity_is_infeasible() {
    let build = build_planning(product_mix_problem()).unwrap();
    let r = accept_solution(&build.registry, &build.constraints, vec![-1, 0, -1, 0]);
    assert_eq!(r.unwrap_err(), SolverFailure::Infeasible);
}

#[test]
fn wrong_value_count_is_an_engine_error() {
    let build = build_planning(product_mix_problem()).unwrap();
    let r = accept_solution(&build.registry, &build.constraints, vec![1, 2, 3]);
    assert!(matches!(r, Err(SolverFailure::EngineError { .. })));
}

#[test]
fn unknown_demand_key_is_rejected() {
    let mut problem = product_mix_problem();
    problem.demand.push(DemandEntry { product: 9, period: 0, amount: 1 });
    assert!(matches!(build_planning(problem), Err(ValidationError::MissingKey)));
}

#[test]
fn duplicate_period_position_is_rejected() {
    let mut problem = three_period_problem();
    problem.periods[2].position = 0;
    assert!(matches!(build_planning(problem), Err(ValidationError::BrokenPeriodOrder)));
}

#[test]
fn duplicate_demand_pair_is_rejected() {
    let mut problem = three_period_problem();
    problem.demand.push(DemandEntry { product: 0, period: 1, amount: 2 });
    assert!(matches!(build_planning(problem), Err(ValidationError::DuplicateDemand)));
}

#[test]
fn wrong_consumption_width_is_rejected() {
    let mut problem = product_mix_problem();
    problem.products[0].consumption = vec![2];
    assert!(matches!(build_planning(problem), Err(ValidationError::MalformedTable)));
}

#[test]
fn missing_demand_pair_means_zero_demand() {
    // No demand table at all: balance forces inventory == production.
    let build = build_planning(product_mix_problem()).unwrap();
    let solved = accept_solution(&build.registry, &build.constraints, vec![1, 2, 1, 2]).unwrap();
    let cells = production_report(&build.model, &solved).unwrap();
    assert_eq!(cells[0].inventory, 1);
    assert_eq!(cells[1].inventory, 2);
}

#[test]
fn short_assignment_fails_the_report() {
    let build = build_planning(product_mix_problem()).unwrap();
    let short = Assignment { values: vec![1, 2] };
    let r = production_report(&build.model, &short);
    assert_eq!(r.unwrap_err(), ReportingError::MissingValue);
}

#[test]
fn assignment_reads_values_and_reports_missing_ones() {
    let a = Assignment { values: vec![7, 8] };
    assert_eq!(a.value(1), Ok(8));
    assert_eq!(a.value(2), Err(ReportingError::MissingValue));
}

#[test]
fn expression_overflow_is_reported() {
    let a = Assignment { values: vec![i64::MAX] };
    let expr = LinearExpression { terms: vec![LinTerm { var: 0, coef: i64::MAX }] };
    assert_eq!(a.evaluate(&expr), Err(ReportingError::NumericOverflow));
}

#[test]
fn utilization_percentage_is_floored() {
    // One resource of capacity 3 used once: 33.33%.
    let problem = PlanningProblem {
        products: vec![product(0, 0, 0, 0, vec![1])],
        periods: vec![PeriodPlan { position: 0, capacities: vec![3] }],
        n_resources: 1,
        demand: vec![],
    };
    let build = build_planning(problem).unwrap();
    let solved = accept_solution(&build.registry, &build.constraints, vec![1, 1]).unwrap();
    let util = utilization_report(&build.model, &build.constraints, &solved);
    assert_eq!(util[0].uses[0].percent_bp, 3333);
}

#[test]
fn bottleneck_is_the_highest_ratio() {
    // One unit produced consumes both resources once: 1/10 versus 1/4.
    let problem = PlanningProblem {
        products: vec![product(0, 0, 0, 0, vec![1, 1])],
        periods: vec![PeriodPlan { position: 0, capacities: vec![10, 4] }],
        n_resources: 2,
        demand: vec![],
    };
    let build = build_planning(problem).unwrap();
    let solved = accept_solution(&build.registry, &build.constraints, vec![4, 4]).unwrap();
    let util = utilization_report(&build.model, &build.constraints, &solved);
    assert_eq!(util[0].uses[0].percent_bp, 4000);
    assert_eq!(util[0].uses[1].percent_bp, 10000);
    assert_eq!(util[0].bottleneck, Some(1));
}
