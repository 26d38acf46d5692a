use balance_engine::blending::build_blending;
use balance_engine::blending::BlendProduct;
use balance_engine::blending::BlendingProblem;
use balance_engine::blending::RawMaterial;
use balance_engine::errors::SolverFailure;
use balance_engine::errors::ValidationError;
use balance_engine::linear::Sense;
use balance_engine::solution::accept_solution;
use balance_engine::solution::composition_report;
use balance_engine::solution::Composition;

/// Two materials blended into two products; the second product's demand cap
/// is zero, so it cannot be produced.
fn two_blend_problem() -> BlendingProblem {
    BlendingProblem {
        materials: vec![
            RawMaterial { cost: 2, quality: 10, max_available: 100 },
            RawMaterial { cost: 1, quality: 5, max_available: 100 },
        ],
        products: vec![
            BlendProduct { selling_price: 20, min_quality: 7, demand_cap: 10 },
            BlendProduct { selling_price: 30, min_quality: 7, demand_cap: 0 },
        ],
    }
}

/// Output 10 of the first product from 6 and 4 units of the two materials;
/// nothing of the second. Values: outputs first, then blends material-major.
fn solved_values() -> Vec<i64> {
    vec![10, 0, 6, 0, 4, 0]
}

#[test]
fn zero_output_is_reported_as_not_produced() {
    let build = build_blending(two_blend_problem()).unwrap();
    let solved = accept_solution(&build.registry, &build.constraints, solved_values()).unwrap();
    let rep = composition_report(&build.problem, &build.constraints, &solved).unwrap();
    assert_eq!(rep.len(), 2);
    assert!(matches!(rep[1], Composition::NotProduced));
}

#[test]
fn composition_shares_and_quality() {
    let build = build_blending(two_blend_problem()).unwrap();
    let solved = accept_solution(&build.registry, &build.constraints, solved_values()).unwrap();
    let rep = composition_report(&build.problem, &build.constraints, &solved).unwrap();
    match &rep[0] {
        Composition::Produced { output, shares, weighted_sum, quality_met } => {
            assert_eq!(*output, 10);
            // Mass balance: the shares sum back to the output.
            assert_eq!(shares.iter().map(|s| s.amount).sum::<i64>(), *output);
            assert_eq!(shares[0].amount, 6);
            assert_eq!(shares[0].percent_bp, 6000);
            assert_eq!(shares[1].amount, 4);
            assert_eq!(shares[1].percent_bp, 4000);
            // Achieved quality 80 / 10 = 8 against a requirement of 7.
            assert_eq!(*weighted_sum, 80);
            assert!(*quality_met);
        },
        Composition::NotProduced => panic!("the first product is produced"),
    }
}

#[test]
fn blending_objective_is_profit() {
    let build = build_blending(two_blend_problem()).unwrap();
    let solved = accept_solution(&build.registry, &build.constraints, solved_values()).unwrap();
    assert_eq!(build.objective.sense, Sense::Maximize);
    // Revenue 20 * 10 minus material cost 2 * 6 + 1 * 4.
    assert_eq!(solved.evaluate(&build.objective.expr).unwrap(), 184);
}

#[test]
fn negative_blend_value_is_rejected() {
    let mut problem = two_blend_problem();
    problem.materials[0].cost = -2;
    assert!(matches!(build_blending(problem), Err(ValidationError::NegativeValue)));
}

#[test]
fn broken_mass_balance_is_infeasible() {
    let build = build_blending(two_blend_problem()).unwrap();
    // Blends sum to 9, output claims 10.
    let r = accept_solution(&build.registry, &build.constraints, vec![10, 0, 5, 0, 4, 0]);
    assert_eq!(r.unwrap_err(), SolverFailure::Infeasible);
}

#[test]
fn demand_cap_bounds_the_output() {
    let build = build_blending(two_blend_problem()).unwrap();
    // Output 11 exceeds the cap of 10.
    let r = accept_solution(&build.registry, &build.constraints, vec![11, 0, 7, 0, 4, 0]);
    assert_eq!(r.unwrap_err(), SolverFailure::Infeasible);
}

#[test]
fn missed_quality_threshold_is_infeasible() {
    let build = build_blending(two_blend_problem()).unwrap();
    // 3 and 7 units give weighted quality 65 < 7 * 10.
    let r = accept_solution(&build.registry, &build.constraints, vec![10, 0, 3, 0, 7, 0]);
    assert_eq!(r.unwrap_err(), SolverFailure::Infeasible);
}

#[test]
fn material_availability_is_enforced() {
    let mut problem = two_blend_problem();
    problem.materials[0].max_available = 5;
    let build = build_blending(problem).unwrap();
    let r = accept_solution(&build.registry, &build.constraints, solved_values());
    assert_eq!(r.unwrap_err(), SolverFailure::Infeasible);
}

#[test]
fn accepted_blend_values_are_nonnegative() {
    let build = build_blending(two_blend_problem()).unwrap();
    let solved = accept_solution(&build.registry, &build.constraints, solved_values()).unwrap();
    assert!(solved.values.iter().all(|&v| v >= 0));
    // A negative blend amount is rejected outright.
    let r = accept_solution(&build.registry, &build.constraints, vec![0, 0, 1, 0, -1, 0]);
    assert_eq!(r.unwrap_err(), SolverFailure::Infeasible);
}
