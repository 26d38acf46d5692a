use balance_engine::errors::RegistryError;
use balance_engine::planning::build_planning;
use balance_engine::planning::inventory_var;
use balance_engine::planning::production_var;
use balance_engine::planning::PeriodPlan;
use balance_engine::planning::PlanningProblem;
use balance_engine::planning::ProductPlan;
use balance_engine::registry::Registry;
use balance_engine::registry::VarKey;

#[test]
fn register_is_idempotent() {
    let mut reg = Registry::new();
    let key = VarKey::Production { product: 0, period: 0 };
    let first = reg.register(key, 0, None, false).unwrap();
    let other = reg
        .register(VarKey::Inventory { product: 0, period: 0 }, 0, None, false)
        .unwrap();
    assert_ne!(first, other);
    let len_before = reg.vars.len();
    let again = reg.register(key, 0, None, false).unwrap();
    assert_eq!(first, again);
    assert_eq!(reg.vars.len(), len_before);
}

#[test]
fn lookup_finds_registered() {
    let mut reg = Registry::new();
    let key = VarKey::Blend { material: 3, product: 1 };
    let id = reg.register(key, 0, Some(50), false).unwrap();
    assert_eq!(reg.lookup(key).unwrap(), id);
    assert_eq!(reg.vars[id].upper, Some(50));
}

#[test]
fn lookup_unknown_fails() {
    let reg = Registry::new();
    let r = reg.lookup(VarKey::Production { product: 0, period: 0 });
    assert_eq!(r, Err(RegistryError::UnknownVariable));
}

#[test]
fn negative_lower_bound_rejected() {
    let mut reg = Registry::new();
    let r = reg.register(VarKey::Production { product: 0, period: 0 }, -1, None, false);
    assert_eq!(r, Err(RegistryError::InvalidBounds));
    assert_eq!(reg.vars.len(), 0);
}

#[test]
fn upper_below_lower_rejected() {
    let mut reg = Registry::new();
    let r = reg.register(VarKey::Production { product: 0, period: 0 }, 5, Some(4), false);
    assert_eq!(r, Err(RegistryError::InvalidBounds));
}

#[test]
fn integral_flag_limited_to_production() {
    let mut reg = Registry::new();
    let r = reg.register(VarKey::Inventory { product: 0, period: 0 }, 0, None, true);
    assert_eq!(r, Err(RegistryError::InvalidBounds));
    let ok = reg.register(VarKey::Production { product: 0, period: 0 }, 0, None, true);
    assert!(ok.is_ok());
}

#[test]
fn pipeline_registry_answers_lookups() {
    let problem = PlanningProblem {
        products: vec![ProductPlan {
            production_cost: 1,
            holding_cost: 1,
            initial_inventory: 0,
            safety_stock: 0,
            consumption: vec![1],
        }],
        periods: vec![
            PeriodPlan { position: 0, capacities: vec![5] },
            PeriodPlan { position: 1, capacities: vec![5] },
        ],
        n_resources: 1,
        demand: vec![],
    };
    let build = build_planning(problem).unwrap();
    let reg = &build.registry;
    let m = &build.model;
    for t in 0..2 {
        let p_id = reg.lookup(VarKey::Production { product: 0, period: t }).unwrap();
        assert_eq!(p_id, production_var(m, 0, t));
        let i_id = reg.lookup(VarKey::Inventory { product: 0, period: t }).unwrap();
        assert_eq!(i_id, inventory_var(m, 0, t));
    }
}
