//! Multi-period production-and-inventory planning: the planning data model,
//! its validation, the decision-variable layout, the constraint builders
//! (inventory balance, capacity, terminal safety stock) and the cost
//! objective.

use vstd::prelude::*;

use crate::errors::ValidationError;
use crate::linear::all_sat;
use crate::linear::constraint_sat;
use crate::linear::eval_prefix;
use crate::linear::eval_terms;
use crate::linear::Constraint;
use crate::linear::ConstraintTag;
use crate::linear::LinTerm;
use crate::linear::LinearExpression;
use crate::linear::Objective;
use crate::linear::Relation;
use crate::linear::Sense;
use crate::registry::Registry;
use crate::registry::VarKey;
use crate::registry::VariableDef;

verus! {

/// One product row of the planning input.
#[derive(Clone, Debug)]
pub struct ProductPlan {
    /// Cost of producing one unit.
    pub production_cost: i64,
    /// Cost of carrying one unit in stock for one period.
    pub holding_cost: i64,
    /// Stock on hand before the first period.
    pub initial_inventory: i64,
    /// Minimum stock required at the end of the horizon.
    pub safety_stock: i64,
    /// Units of each resource consumed per unit produced; one entry per
    /// resource.
    pub consumption: Vec<i64>,
}

/// One period row of the planning input.
#[derive(Clone, Debug)]
pub struct PeriodPlan {
    /// Order position of the period within the horizon.
    pub position: usize,
    /// Capacity of each resource in this period; one entry per resource.
    pub capacities: Vec<i64>,
}

/// Demand of one product in one period. A pair absent from the demand table
/// has zero demand.
#[derive(Clone, Copy, PartialEq, Eq, Structural, Debug)]
pub struct DemandEntry {
    pub product: usize,
    pub period: usize,
    pub amount: i64,
}

/// The raw planning input tables.
#[derive(Clone, Debug)]
pub struct PlanningProblem {
    pub products: Vec<ProductPlan>,
    pub periods: Vec<PeriodPlan>,
    /// Number of resources; every per-resource row has this many columns.
    pub n_resources: usize,
    pub demand: Vec<DemandEntry>,
}

/// Demand amount of the first row matching `(p, t)`, or zero if none does.
pub open spec fn demand_rows(rows: Seq<DemandEntry>, p: int, t: int) -> int
    decreases rows.len(),
{
    if rows.len() == 0 {
        0
    } else if rows[0].product == p && rows[0].period == t {
        rows[0].amount as int
    } else {
        demand_rows(rows.drop_first(), p, t)
    }
}

impl PlanningProblem {
    /// Number of products.
    pub open spec fn p_count(self) -> int {
        self.products@.len() as int
    }

    /// Number of periods.
    pub open spec fn t_count(self) -> int {
        self.periods@.len() as int
    }

    /// Number of resources.
    pub open spec fn r_count(self) -> int {
        self.n_resources as int
    }

    /// Demand of product `p` in period `t`; zero for a pair not in the table.
    pub open spec fn demand_of(self, p: int, t: int) -> int {
        demand_rows(self.demand@, p, t)
    }

    /// Every per-resource row has one column per resource.
    pub open spec fn tables_well_shaped(self) -> bool {
        &&& forall|p: int|
            0 <= p < self.p_count() ==> (#[trigger] self.products@[p]).consumption@.len()
                == self.n_resources
        &&& forall|t: int|
            0 <= t < self.t_count() ==> (#[trigger] self.periods@[t]).capacities@.len()
                == self.n_resources
    }

    /// Every cost, stock, rate, capacity and demand value is non-negative.
    pub open spec fn values_nonneg(self) -> bool {
        &&& forall|p: int|
            0 <= p < self.p_count() ==> {
                let pr = #[trigger] self.products@[p];
                &&& pr.production_cost >= 0
                &&& pr.holding_cost >= 0
                &&& pr.initial_inventory >= 0
                &&& pr.safety_stock >= 0
                &&& forall|r: int|
                    0 <= r < pr.consumption@.len() ==> #[trigger] pr.consumption@[r] >= 0
            }
        &&& forall|t: int|
            0 <= t < self.t_count() ==> {
                let pe = #[trigger] self.periods@[t];
                forall|r: int| 0 <= r < pe.capacities@.len() ==> #[trigger] pe.capacities@[r] >= 0
            }
        &&& forall|d: int|
            0 <= d < self.demand@.len() ==> (#[trigger] self.demand@[d]).amount >= 0
    }

    /// Every demand row names a product and a period of the declaring tables.
    pub open spec fn refs_ok(self) -> bool {
        forall|d: int|
            0 <= d < self.demand@.len() ==> (#[trigger] self.demand@[d]).product < self.p_count()
                && self.demand@[d].period < self.t_count()
    }

    /// Some period holds order position `pos`.
    pub open spec fn position_occupied(self, pos: int) -> bool {
        exists|t: int| 0 <= t < self.t_count() && (#[trigger] self.periods@[t]).position == pos
    }

    /// The period positions are a total order on the horizon: in range,
    /// without duplicates, and with no position missing.
    pub open spec fn order_total(self) -> bool {
        &&& forall|t: int|
            0 <= t < self.t_count() ==> (#[trigger] self.periods@[t]).position < self.t_count()
        &&& forall|i: int, j: int|
            0 <= i < j < self.t_count() ==> (#[trigger] self.periods@[i]).position != (
            #[trigger] self.periods@[j]).position
        &&& forall|pos: int| 0 <= pos < self.t_count() ==> #[trigger] self.position_occupied(pos)
    }

    /// No two demand rows name the same (product, period) pair.
    pub open spec fn no_duplicate_demand(self) -> bool {
        forall|i: int, j: int|
            0 <= i < j < self.demand@.len() ==> !((#[trigger] self.demand@[i]).product == (
            #[trigger] self.demand@[j]).product && self.demand@[i].period
                == self.demand@[j].period)
    }

    /// A valid planning input.
    pub open spec fn wf(self) -> bool {
        &&& self.tables_well_shaped()
        &&& self.values_nonneg()
        &&& self.refs_ok()
        &&& self.order_total()
        &&& self.no_duplicate_demand()
    }
}

/// Every demand amount of `rows` is non-negative, so the looked-up demand is.
pub proof fn lemma_demand_rows_nonneg(rows: Seq<DemandEntry>, p: int, t: int)
    requires
        forall|d: int| 0 <= d < rows.len() ==> (#[trigger] rows[d]).amount >= 0,
    ensures
        demand_rows(rows, p, t) >= 0,
    decreases rows.len(),
{
    if rows.len() > 0 && !(rows[0].product == p && rows[0].period == t) {
        lemma_demand_rows_nonneg(rows.drop_first(), p, t);
    }
}

/// Demand of product `p` in period `t`, read from the demand table; zero for
/// a pair the table does not hold.
pub fn demand_value(problem: &PlanningProblem, p: usize, t: usize) -> (r: i64)
    ensures
        r as int == problem.demand_of(p as int, t as int),
{
    let rows = &problem.demand;
    let n = rows.len();
    let mut i: usize = 0;
    proof {
        assert(rows@.skip(0) =~= rows@);
    }
    while i < n
        invariant
            i <= n,
            n == rows@.len(),
            rows@ == problem.demand@,
            demand_rows(rows@, p as int, t as int) == demand_rows(
                rows@.skip(i as int),
                p as int,
                t as int,
            ),
        decreases n - i,
    {
        let row = rows[i];
        proof {
            assert(rows@.skip(i as int)[0] == rows@[i as int]);
        }
        if row.product == p && row.period == t {
            proof {
                let tail = rows@.skip(i as int);
                assert(demand_rows(tail, p as int, t as int) == tail[0].amount as int);
            }
            return row.amount;
        }
        proof {
            assert(rows@.skip(i as int).drop_first() =~= rows@.skip(i as int + 1));
        }
        i = i + 1;
    }
    proof {
        assert(rows@.skip(n as int).len() == 0);
    }
    0
}

/// A validated planning problem together with its period order:
/// `order[pos]` is the index of the period holding order position `pos`.
#[derive(Clone, Debug)]
pub struct PlanModel {
    pub problem: PlanningProblem,
    pub order: Vec<usize>,
}

impl PlanModel {
    /// The problem is valid and `order` inverts the period positions.
    pub open spec fn wf(self) -> bool {
        &&& self.problem.wf()
        &&& self.order@.len() == self.problem.t_count()
        &&& forall|pos: int|
            0 <= pos < self.order@.len() ==> (#[trigger] self.order@[pos]) < self.problem.t_count()
                && self.problem.periods@[self.order@[pos] as int].position == pos
    }
}

fn planning_shapes_ok(problem: &PlanningProblem) -> (b: bool)
    ensures
        b == problem.tables_well_shaped(),
{
    let np = problem.products.len();
    let mut p: usize = 0;
    while p < np
        invariant
            p <= np,
            np == problem.products@.len(),
            forall|j: int|
                0 <= j < p ==> (#[trigger] problem.products@[j]).consumption@.len()
                    == problem.n_resources,
        decreases np - p,
    {
        if problem.products[p].consumption.len() != problem.n_resources {
            return false;
        }
        p = p + 1;
    }
    let nt = problem.periods.len();
    let mut t: usize = 0;
    while t < nt
        invariant
            t <= nt,
            nt == problem.periods@.len(),
            np == problem.products@.len(),
            forall|j: int|
                0 <= j < np ==> (#[trigger] problem.products@[j]).consumption@.len()
                    == problem.n_resources,
            forall|j: int|
                0 <= j < t ==> (#[trigger] problem.periods@[j]).capacities@.len()
                    == problem.n_resources,
        decreases nt - t,
    {
        if problem.periods[t].capacities.len() != problem.n_resources {
            return false;
        }
        t = t + 1;
    }
    true
}

fn slice_nonneg(v: &Vec<i64>) -> (b: bool)
    ensures
        b == (forall|r: int| 0 <= r < v@.len() ==> #[trigger] v@[r] >= 0),
{
    let n = v.len();
    let mut i: usize = 0;
    while i < n
        invariant
            i <= n,
            n == v@.len(),
            forall|r: int| 0 <= r < i ==> #[trigger] v@[r] >= 0,
        decreases n - i,
    {
        if v[i] < 0 {
            return false;
        }
        i = i + 1;
    }
    true
}

fn planning_values_ok(problem: &PlanningProblem) -> (b: bool)
    ensures
        b == problem.values_nonneg(),
{
    let np = problem.products.len();
    let mut p: usize = 0;
    while p < np
        invariant
            p <= np,
            np == problem.products@.len(),
            forall|j: int|
                0 <= j < p ==> {
                    let pr = #[trigger] problem.products@[j];
                    &&& pr.production_cost >= 0
                    &&& pr.holding_cost >= 0
                    &&& pr.initial_inventory >= 0
                    &&& pr.safety_stock >= 0
                    &&& forall|r: int|
                        0 <= r < pr.consumption@.len() ==> #[trigger] pr.consumption@[r] >= 0
                },
        decreases np - p,
    {
        let pr = &problem.products[p];
        if pr.production_cost < 0 || pr.holding_cost < 0 || pr.initial_inventory < 0
            || pr.safety_stock < 0 {
            return false;
        }
        if !slice_nonneg(&pr.consumption) {
            return false;
        }
        p = p + 1;
    }
    let nt = problem.periods.len();
    let mut t: usize = 0;
    while t < nt
        invariant
            t <= nt,
            nt == problem.periods@.len(),
            np == problem.products@.len(),
            forall|j: int|
                0 <= j < np ==> {
                    let pr = #[trigger] problem.products@[j];
                    &&& pr.production_cost >= 0
                    &&& pr.holding_cost >= 0
                    &&& pr.initial_inventory >= 0
                    &&& pr.safety_stock >= 0
                    &&& forall|r: int|
                        0 <= r < pr.consumption@.len() ==> #[trigger] pr.consumption@[r] >= 0
                },
            forall|j: int|
                0 <= j < t ==> {
                    let pe = #[trigger] problem.periods@[j];
                    forall|r: int|
                        0 <= r < pe.capacities@.len() ==> #[trigger] pe.capacities@[r] >= 0
                },
        decreases nt - t,
    {
        if !slice_nonneg(&problem.periods[t].capacities) {
            return false;
        }
        t = t + 1;
    }
    let nd = problem.demand.len();
    let mut d: usize = 0;
    while d < nd
        invariant
            d <= nd,
            nd == problem.demand@.len(),
            np == problem.products@.len(),
            nt == problem.periods@.len(),
            forall|j: int|
                0 <= j < np ==> {
                    let pr = #[trigger] problem.products@[j];
                    &&& pr.production_cost >= 0
                    &&& pr.holding_cost >= 0
                    &&& pr.initial_inventory >= 0
                    &&& pr.safety_stock >= 0
                    &&& forall|r: int|
                        0 <= r < pr.consumption@.len() ==> #[trigger] pr.consumption@[r] >= 0
                },
            forall|j: int|
                0 <= j < nt ==> {
                    let pe = #[trigger] problem.periods@[j];
                    forall|r: int|
                        0 <= r < pe.capacities@.len() ==> #[trigger] pe.capacities@[r] >= 0
                },
            forall|j: int| 0 <= j < d ==> (#[trigger] problem.demand@[j]).amount >= 0,
        decreases nd - d,
    {
        if problem.demand[d].amount < 0 {
            return false;
        }
        d = d + 1;
    }
    true
}

fn planning_refs_ok(problem: &PlanningProblem) -> (b: bool)
    ensures
        b == problem.refs_ok(),
{
    let nd = problem.demand.len();
    let mut d: usize = 0;
    while d < nd
        invariant
            d <= nd,
            nd == problem.demand@.len(),
            forall|j: int|
                0 <= j < d ==> (#[trigger] problem.demand@[j]).product < problem.products@.len()
                    && problem.demand@[j].period < problem.periods@.len(),
        decreases nd - d,
    {
        let row = problem.demand[d];
        if row.product >= problem.products.len() || row.period >= problem.periods.len() {
            return false;
        }
        d = d + 1;
    }
    true
}

fn planning_demand_unique(problem: &PlanningProblem) -> (b: bool)
    ensures
        b == problem.no_duplicate_demand(),
{
    let nd = problem.demand.len();
    let mut j: usize = 0;
    while j < nd
        invariant
            j <= nd,
            nd == problem.demand@.len(),
            forall|a: int, b2: int|
                0 <= a < b2 < j ==> !((#[trigger] problem.demand@[a]).product == (
                #[trigger] problem.demand@[b2]).product && problem.demand@[a].period
                    == problem.demand@[b2].period),
        decreases nd - j,
    {
        let row = problem.demand[j];
        let mut a: usize = 0;
        while a < j
            invariant
                a <= j,
                j < nd,
                nd == problem.demand@.len(),
                row == problem.demand@[j as int],
                forall|k: int|
                    0 <= k < a ==> !((#[trigger] problem.demand@[k]).product == row.product
                        && problem.demand@[k].period == row.period),
            decreases j - a,
        {
            let prior = problem.demand[a];
            if prior.product == row.product && prior.period == row.period {
                return false;
            }
            a = a + 1;
        }
        j = j + 1;
    }
    true
}

/// Invert the period positions into an order table, or report that the
/// positions are not a total order.
fn build_period_order(problem: &PlanningProblem) -> (r: Option<Vec<usize>>)
    ensures
        r is Some <==> problem.order_total(),
        r is Some ==> {
            let order = r->0@;
            &&& order.len() == problem.t_count()
            &&& forall|pos: int|
                0 <= pos < order.len() ==> (#[trigger] order[pos]) < problem.t_count()
                    && problem.periods@[order[pos] as int].position == pos
        },
{
    let nt = problem.periods.len();
    let mut slot: Vec<Option<usize>> = Vec::new();
    let mut k: usize = 0;
    while k < nt
        invariant
            k <= nt,
            slot@.len() == k,
            forall|pos: int| 0 <= pos < k ==> (#[trigger] slot@[pos]) is None,
        decreases nt - k,
    {
        slot.push(None);
        k = k + 1;
    }
    let mut t: usize = 0;
    while t < nt
        invariant
            t <= nt,
            nt == problem.periods@.len(),
            slot@.len() == nt,
            forall|pos: int|
                0 <= pos < nt ==> ((#[trigger] slot@[pos]) is Some ==> {
                    let t2 = slot@[pos]->0;
                    &&& t2 < t
                    &&& problem.periods@[t2 as int].position == pos
                }),
            forall|t2: int|
                0 <= t2 < t ==> (#[trigger] problem.periods@[t2]).position < nt && slot@[problem.periods@[
                t2].position as int] == Some(t2 as usize),
        decreases nt - t,
    {
        let pos = problem.periods[t].position;
        if pos >= nt {
            return None;
        }
        match slot[pos] {
            Some(_t2) => {
                return None;
            },
            None => {},
        }
        slot[pos] = Some(t);
        t = t + 1;
    }
    let mut order: Vec<usize> = Vec::new();
    let mut pos: usize = 0;
    while pos < nt
        invariant
            pos <= nt,
            nt == problem.periods@.len(),
            slot@.len() == nt,
            order@.len() == pos,
            forall|q: int|
                0 <= q < nt ==> ((#[trigger] slot@[q]) is Some ==> {
                    let t2 = slot@[q]->0;
                    &&& t2 < nt
                    &&& problem.periods@[t2 as int].position == q
                }),
            forall|t2: int|
                0 <= t2 < nt ==> (#[trigger] problem.periods@[t2]).position < nt && slot@[problem.periods@[
                t2].position as int] == Some(t2 as usize),
            forall|q: int|
                0 <= q < pos ==> (#[trigger] order@[q]) < nt && problem.periods@[order@[q] as int].position
                    == q,
        decreases nt - pos,
    {
        match slot[pos] {
            Some(t2) => {
                order.push(t2);
            },
            None => {
                proof {
                    assert(!problem.position_occupied(pos as int)) by {
                        if problem.position_occupied(pos as int) {
                            let t2 = choose|t2: int|
                                0 <= t2 < problem.t_count() && (#[trigger] problem.periods@[t2]).position
                                    == pos;
                            assert(slot@[problem.periods@[t2].position as int] == Some(
                                t2 as usize,
                            ));
                        }
                    }
                }
                return None;
            },
        }
        pos = pos + 1;
    }
    proof {
        assert forall|i: int, j: int|
            0 <= i < j < nt implies (#[trigger] problem.periods@[i]).position != (
        #[trigger] problem.periods@[j]).position by {
            if problem.periods@[i].position == problem.periods@[j].position {
                assert(slot@[problem.periods@[i].position as int] == Some(i as usize));
                assert(slot@[problem.periods@[j].position as int] == Some(j as usize));
            }
        }
        assert forall|q: int| 0 <= q < nt implies #[trigger] problem.position_occupied(q) by {
            let t2 = order@[q];
            assert(0 <= t2 < problem.t_count() && problem.periods@[t2 as int].position == q);
        }
    }
    Some(order)
}

/// Validate the planning input.
///
/// Succeeds exactly on well-formed input and then also returns the period
/// order. Each failure names its cause, checked in this order: a malformed
/// per-resource row, a negative value, a demand row naming an unknown key, a
/// broken period order, a duplicated demand pair.
pub fn validate_planning(problem: PlanningProblem) -> (r: Result<PlanModel, ValidationError>)
    ensures
        r is Ok <==> problem.wf(),
        r is Ok ==> r->Ok_0.problem == problem && r->Ok_0.wf(),
        r == Err::<PlanModel, ValidationError>(ValidationError::MalformedTable)
            <==> !problem.tables_well_shaped(),
        r == Err::<PlanModel, ValidationError>(ValidationError::NegativeValue)
            <==> problem.tables_well_shaped() && !problem.values_nonneg(),
        r == Err::<PlanModel, ValidationError>(ValidationError::MissingKey)
            <==> problem.tables_well_shaped() && problem.values_nonneg() && !problem.refs_ok(),
        r == Err::<PlanModel, ValidationError>(ValidationError::BrokenPeriodOrder)
            <==> problem.tables_well_shaped() && problem.values_nonneg() && problem.refs_ok()
            && !problem.order_total(),
        r == Err::<PlanModel, ValidationError>(ValidationError::DuplicateDemand)
            <==> problem.tables_well_shaped() && problem.values_nonneg() && problem.refs_ok()
            && problem.order_total() && !problem.no_duplicate_demand(),
{
    if !planning_shapes_ok(&problem) {
        return Err(ValidationError::MalformedTable);
    }
    if !planning_values_ok(&problem) {
        return Err(ValidationError::NegativeValue);
    }
    if !planning_refs_ok(&problem) {
        return Err(ValidationError::MissingKey);
    }
    let order = match build_period_order(&problem) {
        Some(order) => order,
        None => {
            return Err(ValidationError::BrokenPeriodOrder);
        },
    };
    if !planning_demand_unique(&problem) {
        return Err(ValidationError::DuplicateDemand);
    }
    Ok(PlanModel { problem, order })
}

impl PlanModel {
    /// Identifier of the production variable of product `p` in period `t`.
    pub open spec fn prod_id(self, p: int, t: int) -> int {
        p * self.problem.t_count() + t
    }

    /// Identifier of the inventory variable of product `p` in period `t`.
    pub open spec fn inv_id(self, p: int, t: int) -> int {
        self.problem.p_count() * self.problem.t_count() + p * self.problem.t_count() + t
    }

    /// Number of decision variables of the planning model.
    pub open spec fn n_vars(self) -> int {
        2 * self.problem.p_count() * self.problem.t_count()
    }

    /// The variable table fits the machine.
    pub open spec fn sizes_ok(self) -> bool {
        self.n_vars() <= usize::MAX
    }
}

/// Distinct (row, column) pairs map to distinct flat indices.
pub(crate) proof fn lemma_pair_index_injective(p1: int, t1: int, p2: int, t2: int, cols: int)
    requires
        0 <= t1 < cols,
        0 <= t2 < cols,
        p1 >= 0,
        p2 >= 0,
        p1 * cols + t1 == p2 * cols + t2,
    ensures
        p1 == p2 && t1 == t2,
{
    assert(p1 == p2 && t1 == t2) by (nonlinear_arith)
        requires
            0 <= t1 < cols,
            0 <= t2 < cols,
            p1 >= 0,
            p2 >= 0,
            p1 * cols + t1 == p2 * cols + t2,
    ;
}

/// A flat index stays below the table size.
pub(crate) proof fn lemma_pair_index_bound(p: int, t: int, rows: int, cols: int)
    requires
        0 <= p < rows,
        0 <= t < cols,
    ensures
        0 <= p * cols + t < rows * cols,
{
    assert(0 <= p * cols + t < rows * cols) by (nonlinear_arith)
        requires
            0 <= p < rows,
            0 <= t < cols,
    ;
}

/// Identifier of the production variable of product `p` in period `t` under
/// the planning layout.
pub fn production_var(m: &PlanModel, p: usize, t: usize) -> (id: usize)
    requires
        m.sizes_ok(),
        p < m.problem.p_count(),
        t < m.problem.t_count(),
    ensures
        id as int == m.prod_id(p as int, t as int),
        id < m.n_vars(),
{
    proof {
        lemma_pair_index_bound(p as int, t as int, m.problem.p_count(), m.problem.t_count());
        assert(m.problem.p_count() * m.problem.t_count() <= m.n_vars()) by (nonlinear_arith)
            requires
                m.problem.p_count() >= 0 && m.problem.t_count() >= 0,
        ;
    }
    p * m.problem.periods.len() + t
}

/// Identifier of the inventory variable of product `p` in period `t` under
/// the planning layout.
pub fn inventory_var(m: &PlanModel, p: usize, t: usize) -> (id: usize)
    requires
        m.sizes_ok(),
        p < m.problem.p_count(),
        t < m.problem.t_count(),
    ensures
        id as int == m.inv_id(p as int, t as int),
        id < m.n_vars(),
{
    proof {
        lemma_pair_index_bound(p as int, t as int, m.problem.p_count(), m.problem.t_count());
        assert(m.problem.p_count() * m.problem.t_count() + m.problem.p_count()
            * m.problem.t_count() == m.n_vars()) by (nonlinear_arith)
            requires
                true,
        ;
    }
    m.problem.products.len() * m.problem.periods.len() + p * m.problem.periods.len() + t
}

/// The registry holds exactly the planning layout: first every production
/// variable in product-major, period-minor order, then every inventory
/// variable in the same order, all with a zero lower bound, no upper bound
/// and no integrality flag.
pub open spec fn planning_registry(m: PlanModel, reg: Registry) -> bool {
    &&& reg.vars@.len() == m.n_vars()
    &&& forall|p: int, t: int|
        0 <= p < m.problem.p_count() && 0 <= t < m.problem.t_count()
            ==> #[trigger] reg.vars@[m.prod_id(p, t)] == (VariableDef {
            key: VarKey::Production { product: p as usize, period: t as usize },
            lower: 0,
            upper: None,
            integral: false,
        })
    &&& forall|p: int, t: int|
        0 <= p < m.problem.p_count() && 0 <= t < m.problem.t_count()
            ==> #[trigger] reg.vars@[m.inv_id(p, t)] == (VariableDef {
            key: VarKey::Inventory { product: p as usize, period: t as usize },
            lower: 0,
            upper: None,
            integral: false,
        })
}

/// Register every production and inventory variable of the planning model,
/// each keyed by its (product, period) pair, all with a zero lower bound.
pub fn register_planning_vars(m: &PlanModel) -> (reg: Registry)
    requires
        m.sizes_ok(),
    ensures
        reg.wf(),
        planning_registry(*m, reg),
{
    let np = m.problem.products.len();
    let nt = m.problem.periods.len();
    let mut reg = Registry::new();
    let mut p: usize = 0;
    while p < np
        invariant
            p <= np,
            np == m.problem.products@.len(),
            nt == m.problem.periods@.len(),
            m.sizes_ok(),
            reg.wf(),
            reg.vars@.len() == p * nt,
            forall|k: int|
                0 <= k < reg.vars@.len() ==> {
                    let def = #[trigger] reg.vars@[k];
                    &&& def.key is Production
                    &&& (def.key->Production_product as int) * nt + def.key->Production_period
                        == k
                    &&& def.key->Production_period < nt
                    &&& def.key->Production_product < np
                    &&& def == (VariableDef {
                        key: def.key,
                        lower: 0,
                        upper: None,
                        integral: false,
                    })
                },
        decreases np - p,
    {
        let mut t: usize = 0;
        while t < nt
            invariant
                t <= nt,
                p < np,
                np == m.problem.products@.len(),
                nt == m.problem.periods@.len(),
                m.sizes_ok(),
                reg.wf(),
                reg.vars@.len() == p * nt + t,
                forall|k: int|
                    0 <= k < reg.vars@.len() ==> {
                        let def = #[trigger] reg.vars@[k];
                        &&& def.key is Production
                        &&& (def.key->Production_product as int) * nt + def.key->Production_period
                            == k
                        &&& def.key->Production_period < nt
                        &&& def.key->Production_product < np
                        &&& def == (VariableDef {
                            key: def.key,
                            lower: 0,
                            upper: None,
                            integral: false,
                        })
                    },
            decreases nt - t,
        {
            let key = VarKey::Production { product: p, period: t };
            proof {
                lemma_pair_index_bound(p as int, t as int, np as int, nt as int);
                assert(np * nt <= m.n_vars()) by (nonlinear_arith)
                    requires
                        np >= 0 && nt >= 0 && m.n_vars() == 2 * np * nt,
                ;
                assert(!reg.contains_key(key)) by {
                    if reg.contains_key(key) {
                        let k = choose|k: int|
                            0 <= k < reg.vars@.len() && (#[trigger] reg.vars@[k]).key == key;
                        assert((p as int) * nt + t == k);
                    }
                }
            }
            let r = reg.register(key, 0, None, false);
            match r {
                Ok(_id) => {},
                Err(_e) => {
                    proof {
                        assert(false);
                    }
                },
            }
            t = t + 1;
        }
        proof {
            assert((p + 1) * nt == p * nt + nt) by (nonlinear_arith);
        }
        p = p + 1;
    }
    proof {
        assert((np as int) * (nt as int) <= m.n_vars() <= usize::MAX) by (nonlinear_arith)
            requires
                np >= 0 && nt >= 0 && m.n_vars() == 2 * (np as int) * (nt as int) && m.n_vars()
                    <= usize::MAX,
        ;
    }
    let base = np * nt;
    let mut p: usize = 0;
    while p < np
        invariant
            p <= np,
            np == m.problem.products@.len(),
            nt == m.problem.periods@.len(),
            m.sizes_ok(),
            base == np * nt,
            reg.wf(),
            reg.vars@.len() == base + p * nt,
            forall|k: int|
                0 <= k < base ==> {
                    let def = #[trigger] reg.vars@[k];
                    &&& def.key is Production
                    &&& (def.key->Production_product as int) * nt + def.key->Production_period
                        == k
                    &&& def.key->Production_period < nt
                    &&& def.key->Production_product < np
                    &&& def == (VariableDef {
                        key: def.key,
                        lower: 0,
                        upper: None,
                        integral: false,
                    })
                },
            forall|k: int|
                base <= k < reg.vars@.len() ==> {
                    let def = #[trigger] reg.vars@[k];
                    &&& def.key is Inventory
                    &&& (def.key->Inventory_product as int) * nt + def.key->Inventory_period == k
                        - base
                    &&& def.key->Inventory_period < nt
                    &&& def.key->Inventory_product < np
                    &&& def == (VariableDef {
                        key: def.key,
                        lower: 0,
                        upper: None,
                        integral: false,
                    })
                },
        decreases np - p,
    {
        let mut t: usize = 0;
        while t < nt
            invariant
                t <= nt,
                p < np,
                np == m.problem.products@.len(),
                nt == m.problem.periods@.len(),
                m.sizes_ok(),
                base == np * nt,
                reg.wf(),
                reg.vars@.len() == base + p * nt + t,
                forall|k: int|
                    0 <= k < base ==> {
                        let def = #[trigger] reg.vars@[k];
                        &&& def.key is Production
                        &&& (def.key->Production_product as int) * nt + def.key->Production_period
                            == k
                        &&& def.key->Production_period < nt
                        &&& def.key->Production_product < np
                        &&& def == (VariableDef {
                            key: def.key,
                            lower: 0,
                            upper: None,
                            integral: false,
                        })
                    },
                forall|k: int|
                    base <= k < reg.vars@.len() ==> {
                        let def = #[trigger] reg.vars@[k];
                        &&& def.key is Inventory
                        &&& (def.key->Inventory_product as int) * nt + def.key->Inventory_period
                            == k - base
                        &&& def.key->Inventory_period < nt
                        &&& def.key->Inventory_product < np
                        &&& def == (VariableDef {
                            key: def.key,
                            lower: 0,
                            upper: None,
                            integral: false,
                        })
                    },
            decreases nt - t,
        {
            let key = VarKey::Inventory { product: p, period: t };
            proof {
                lemma_pair_index_bound(p as int, t as int, np as int, nt as int);
                assert(base + np * nt == m.n_vars()) by (nonlinear_arith)
                    requires
                        base == np * nt && m.n_vars() == 2 * np * nt,
                ;
                assert(!reg.contains_key(key)) by {
                    if reg.contains_key(key) {
                        let k = choose|k: int|
                            0 <= k < reg.vars@.len() && (#[trigger] reg.vars@[k]).key == key;
                        assert((p as int) * nt + t == k - base);
                    }
                }
            }
            let r = reg.register(key, 0, None, false);
            match r {
                Ok(_id) => {},
                Err(_e) => {
                    proof {
                        assert(false);
                    }
                },
            }
            t = t + 1;
        }
        proof {
            assert((p + 1) * nt == p * nt + nt) by (nonlinear_arith);
        }
        p = p + 1;
    }
    proof {
        assert(reg.vars@.len() == m.n_vars()) by (nonlinear_arith)
            requires
                reg.vars@.len() == (np as int) * (nt as int) + (np as int) * (nt as int)
                    && m.n_vars() == 2 * (np as int) * (nt as int),
        ;
        assert forall|p2: int, t2: int|
            0 <= p2 < np && 0 <= t2 < nt implies #[trigger] reg.vars@[m.prod_id(p2, t2)] == (
        VariableDef {
            key: VarKey::Production { product: p2 as usize, period: t2 as usize },
            lower: 0,
            upper: None,
            integral: false,
        }) by {
            lemma_pair_index_bound(p2, t2, np as int, nt as int);
            let k = p2 * nt + t2;
            let def = reg.vars@[k];
            lemma_pair_index_injective(
                def.key->Production_product as int,
                def.key->Production_period as int,
                p2,
                t2,
                nt as int,
            );
        }
        assert forall|p2: int, t2: int|
            0 <= p2 < np && 0 <= t2 < nt implies #[trigger] reg.vars@[m.inv_id(p2, t2)] == (
        VariableDef {
            key: VarKey::Inventory { product: p2 as usize, period: t2 as usize },
            lower: 0,
            upper: None,
            integral: false,
        }) by {
            lemma_pair_index_bound(p2, t2, np as int, nt as int);
            let k = base + p2 * nt + t2;
            let def = reg.vars@[k];
            lemma_pair_index_injective(
                def.key->Inventory_product as int,
                def.key->Inventory_period as int,
                p2,
                t2,
                nt as int,
            );
        }
    }
    reg
}

/// The inventory-balance constraint of product `p` at order position `pos`:
/// for the first position, inventory equals initial stock plus production
/// minus demand; later, inventory equals the prior position's inventory plus
/// production minus demand. The recurrence is expressed as an equality
/// constraint over the variables, never computed outside the model.
pub open spec fn is_balance_constraint(m: PlanModel, p: int, pos: int, c: Constraint) -> bool {
    let t = m.order@[pos] as int;
    &&& c.op == Relation::Eq
    &&& c.tag == ConstraintTag::Balance
    &&& if pos == 0 {
        &&& c.expr.terms@.len() == 2
        &&& c.expr.terms@[0].var as int == m.inv_id(p, t)
        &&& c.expr.terms@[0].coef == 1
        &&& c.expr.terms@[1].var as int == m.prod_id(p, t)
        &&& c.expr.terms@[1].coef == -1
        &&& c.rhs as int == m.problem.products@[p].initial_inventory - m.problem.demand_of(p, t)
    } else {
        let tp = m.order@[pos - 1] as int;
        &&& c.expr.terms@.len() == 3
        &&& c.expr.terms@[0].var as int == m.inv_id(p, t)
        &&& c.expr.terms@[0].coef == 1
        &&& c.expr.terms@[1].var as int == m.inv_id(p, tp)
        &&& c.expr.terms@[1].coef == -1
        &&& c.expr.terms@[2].var as int == m.prod_id(p, t)
        &&& c.expr.terms@[2].coef == -1
        &&& c.rhs as int == -m.problem.demand_of(p, t)
    }
}

/// `cs` holds the balance constraints of the model starting at `off`, one
/// per (product, order position) in product-major order.
pub open spec fn balance_section(m: PlanModel, cs: Seq<Constraint>, off: int) -> bool {
    &&& 0 <= off
    &&& off + m.problem.p_count() * m.problem.t_count() <= cs.len()
    &&& forall|p: int, pos: int|
        0 <= p < m.problem.p_count() && 0 <= pos < m.problem.t_count()
            ==> is_balance_constraint(
            m,
            p,
            pos,
            #[trigger] cs[off + p * m.problem.t_count() + pos],
        )
}

/// Build the inventory-balance constraints, appended to `out` in
/// product-major, position-minor order.
pub fn build_inventory_balance(m: &PlanModel, out: &mut Vec<Constraint>)
    requires
        m.wf(),
        m.sizes_ok(),
    ensures
        final(out)@.len() == old(out)@.len() + m.problem.p_count() * m.problem.t_count(),
        forall|i: int| 0 <= i < old(out)@.len() ==> final(out)@[i] == old(out)@[i],
        balance_section(*m, final(out)@, old(out)@.len() as int),
{
    let np = m.problem.products.len();
    let nt = m.problem.periods.len();
    let base = out.len();
    let mut p: usize = 0;
    while p < np
        invariant
            p <= np,
            np == m.problem.products@.len(),
            nt == m.problem.periods@.len(),
            m.wf(),
            m.sizes_ok(),
            out@.len() == base + p * nt,
            forall|i: int| 0 <= i < base ==> out@[i] == old(out)@[i],
            forall|p2: int, pos2: int|
                0 <= p2 < p && 0 <= pos2 < nt ==> is_balance_constraint(
                    *m,
                    p2,
                    pos2,
                    #[trigger] out@[base + p2 * nt + pos2],
                ),
        decreases np - p,
    {
        let mut pos: usize = 0;
        while pos < nt
            invariant
                pos <= nt,
                p < np,
                np == m.problem.products@.len(),
                nt == m.problem.periods@.len(),
                m.wf(),
                m.sizes_ok(),
                out@.len() == base + p * nt + pos,
                forall|i: int| 0 <= i < base ==> out@[i] == old(out)@[i],
                forall|p2: int, pos2: int|
                    0 <= p2 < p && 0 <= pos2 < nt ==> is_balance_constraint(
                        *m,
                        p2,
                        pos2,
                        #[trigger] out@[base + p2 * nt + pos2],
                    ),
                forall|pos2: int|
                    0 <= pos2 < pos ==> is_balance_constraint(
                        *m,
                        p as int,
                        pos2,
                        #[trigger] out@[base + (p as int) * nt + pos2],
                    ),
            decreases nt - pos,
        {
            let t = m.order[pos];
            let demand = demand_value(&m.problem, p, t);
            proof {
                lemma_demand_rows_nonneg(m.problem.demand@, p as int, t as int);
                lemma_pair_index_bound(p as int, pos as int, np as int, nt as int);
                assert(np * nt <= m.n_vars()) by (nonlinear_arith)
                    requires
                        np >= 0 && nt >= 0 && m.n_vars() == 2 * np * nt,
                ;
            }
            let mut terms: Vec<LinTerm> = Vec::new();
            terms.push(LinTerm { var: inventory_var(m, p, t), coef: 1 });
            let rhs: i64;
            if pos == 0 {
                terms.push(LinTerm { var: production_var(m, p, t), coef: -1 });
                rhs = m.problem.products[p].initial_inventory - demand;
            } else {
                let tp = m.order[pos - 1];
                terms.push(LinTerm { var: inventory_var(m, p, tp), coef: -1 });
                terms.push(LinTerm { var: production_var(m, p, t), coef: -1 });
                rhs = -demand;
            }
            out.push(
                Constraint {
                    expr: LinearExpression { terms },
                    op: Relation::Eq,
                    rhs,
                    tag: ConstraintTag::Balance,
                },
            );
            proof {
                assert forall|p2: int, pos2: int|
                    0 <= p2 < p && 0 <= pos2 < nt implies is_balance_constraint(
                        *m,
                        p2,
                        pos2,
                        #[trigger] out@[base + p2 * nt + pos2],
                    ) by {
                    lemma_pair_index_bound(p2, pos2, p as int, nt as int);
                }
            }
            pos = pos + 1;
        }
        proof {
            assert((p + 1) * nt == p * nt + nt) by (nonlinear_arith);
        }
        p = p + 1;
    }
}

/// Value of a two- or three-term balance constraint, unfolded.
proof fn lemma_balance_eval(m: PlanModel, p: int, pos: int, c: Constraint, vals: Seq<i64>)
    requires
        0 <= pos < m.order@.len(),
        is_balance_constraint(m, p, pos, c),
    ensures
        pos == 0 ==> eval_terms(c.expr.terms@, vals) == vals[m.inv_id(
            p,
            m.order@[pos] as int,
        )] as int - vals[m.prod_id(p, m.order@[pos] as int)] as int,
        pos > 0 ==> eval_terms(c.expr.terms@, vals) == vals[m.inv_id(
            p,
            m.order@[pos] as int,
        )] as int - vals[m.inv_id(p, m.order@[pos - 1] as int)] as int - vals[m.prod_id(
            p,
            m.order@[pos] as int,
        )] as int,
{
    let s = c.expr.terms@;
    let v0 = vals[s[0].var as int] as int;
    let v1 = vals[s[1].var as int] as int;
    let v2 = vals[s[2].var as int] as int;
    assert(eval_prefix(s, vals, 0) == 0);
    assert(eval_prefix(s, vals, 1) == eval_prefix(s, vals, 0) + s[0].coef * vals[s[0].var as int]);
    assert(eval_prefix(s, vals, 2) == eval_prefix(s, vals, 1) + s[1].coef * vals[s[1].var as int]);
    if pos > 0 {
        assert(eval_prefix(s, vals, 3) == eval_prefix(s, vals, 2) + s[2].coef * vals[s[2].var as int]);
        assert(eval_terms(s, vals) == v0 - v1 - v2) by (nonlinear_arith)
            requires
                eval_terms(s, vals) == eval_prefix(s, vals, 3),
                eval_prefix(s, vals, 3) == eval_prefix(s, vals, 2) + s[2].coef * (v2 as i64),
                eval_prefix(s, vals, 2) == eval_prefix(s, vals, 1) + s[1].coef * (v1 as i64),
                eval_prefix(s, vals, 1) == eval_prefix(s, vals, 0) + s[0].coef * (v0 as i64),
                eval_prefix(s, vals, 0) == 0,
                s[0].coef == 1,
                s[1].coef == -1,
                s[2].coef == -1,
                i64::MIN <= v0 <= i64::MAX,
                i64::MIN <= v1 <= i64::MAX,
                i64::MIN <= v2 <= i64::MAX,
        ;
    } else {
        assert(eval_terms(s, vals) == v0 - v1) by (nonlinear_arith)
            requires
                eval_terms(s, vals) == eval_prefix(s, vals, 2),
                eval_prefix(s, vals, 2) == eval_prefix(s, vals, 1) + s[1].coef * (v1 as i64),
                eval_prefix(s, vals, 1) == eval_prefix(s, vals, 0) + s[0].coef * (v0 as i64),
                eval_prefix(s, vals, 0) == 0,
                s[0].coef == 1,
                s[1].coef == -1,
                i64::MIN <= v0 <= i64::MAX,
                i64::MIN <= v1 <= i64::MAX,
        ;
    }
}

/// First-period balance: in any assignment satisfying the balance
/// constraints, the inventory of the first period equals the given initial
/// inventory plus that period's production minus that period's demand.
pub proof fn lemma_first_period_balance(
    m: PlanModel,
    cs: Seq<Constraint>,
    off: int,
    vals: Seq<i64>,
    p: int,
)
    requires
        m.wf(),
        m.sizes_ok(),
        balance_section(m, cs, off),
        all_sat(cs, vals),
        0 <= p < m.problem.p_count(),
        m.problem.t_count() > 0,
    ensures
        vals[m.inv_id(p, m.order@[0] as int)] as int == m.problem.products@[p].initial_inventory
            + vals[m.prod_id(p, m.order@[0] as int)] - m.problem.demand_of(
            p,
            m.order@[0] as int,
        ),
{
    let np = m.problem.p_count();
    let nt = m.problem.t_count();
    lemma_pair_index_bound(p, 0, np, nt);
    let c = cs[off + p * nt + 0];
    assert(constraint_sat(c, vals));
    lemma_balance_eval(m, p, 0, c, vals);
}

/// Inventory recurrence: in any assignment satisfying the balance
/// constraints, for every product and every order position after the first,
/// inventory equals the prior position's inventory plus production minus
/// demand.
pub proof fn lemma_inventory_recurrence(
    m: PlanModel,
    cs: Seq<Constraint>,
    off: int,
    vals: Seq<i64>,
    p: int,
    pos: int,
)
    requires
        m.wf(),
        m.sizes_ok(),
        balance_section(m, cs, off),
        all_sat(cs, vals),
        0 <= p < m.problem.p_count(),
        1 <= pos < m.problem.t_count(),
    ensures
        vals[m.inv_id(p, m.order@[pos] as int)] as int == vals[m.inv_id(
            p,
            m.order@[pos - 1] as int,
        )] + vals[m.prod_id(p, m.order@[pos] as int)] - m.problem.demand_of(
            p,
            m.order@[pos] as int,
        ),
{
    let np = m.problem.p_count();
    let nt = m.problem.t_count();
    lemma_pair_index_bound(p, pos, np, nt);
    let c = cs[off + p * nt + pos];
    assert(constraint_sat(c, vals));
    lemma_balance_eval(m, p, pos, c, vals);
}

/// Consumption of resource `r` in period `t` by the first `n` products.
pub open spec fn consumed_prefix(m: PlanModel, vals: Seq<i64>, t: int, r: int, n: int) -> int
    decreases n,
{
    if n <= 0 {
        0
    } else {
        consumed_prefix(m, vals, t, r, n - 1) + m.problem.products@[n - 1].consumption@[r] * vals[m.prod_id(
            n - 1,
            t,
        )]
    }
}

/// Total consumption of resource `r` in period `t` under `vals`.
pub open spec fn consumed(m: PlanModel, vals: Seq<i64>, t: int, r: int) -> int {
    consumed_prefix(m, vals, t, r, m.problem.p_count())
}

/// The capacity constraint of resource `r` in period `t`: the consumption of
/// the resource, aggregated over all products, stays within the period's
/// stated capacity.
pub open spec fn is_capacity_constraint(m: PlanModel, t: int, r: int, c: Constraint) -> bool {
    &&& c.op == Relation::Le
    &&& c.tag == ConstraintTag::Capacity
    &&& c.rhs == m.problem.periods@[t].capacities@[r]
    &&& c.expr.terms@.len() == m.problem.p_count()
    &&& forall|p: int|
        0 <= p < c.expr.terms@.len() ==> (#[trigger] c.expr.terms@[p]).var as int == m.prod_id(
            p,
            t,
        ) && c.expr.terms@[p].coef == m.problem.products@[p].consumption@[r]
}

/// `cs` holds the capacity constraints of the model starting at `off`, one
/// per (period, resource) in period-major order.
pub open spec fn capacity_section(m: PlanModel, cs: Seq<Constraint>, off: int) -> bool {
    &&& 0 <= off
    &&& off + m.problem.t_count() * m.problem.r_count() <= cs.len()
    &&& forall|t: int, r: int|
        0 <= t < m.problem.t_count() && 0 <= r < m.problem.r_count() ==> is_capacity_constraint(
            m,
            t,
            r,
            #[trigger] cs[off + t * m.problem.r_count() + r],
        )
}

/// The terms of the capacity constraint of resource `r` in period `t`: the
/// per-unit consumption rate of each product on its production variable.
pub fn capacity_terms(m: &PlanModel, t: usize, r: usize) -> (v: Vec<LinTerm>)
    requires
        m.wf(),
        m.sizes_ok(),
        t < m.problem.t_count(),
        r < m.problem.r_count(),
    ensures
        v@.len() == m.problem.p_count(),
        forall|p: int|
            0 <= p < v@.len() ==> (#[trigger] v@[p]).var as int == m.prod_id(p, t as int)
                && v@[p].coef == m.problem.products@[p].consumption@[r as int],
{
    let np = m.problem.products.len();
    let mut v: Vec<LinTerm> = Vec::new();
    let mut p: usize = 0;
    while p < np
        invariant
            p <= np,
            np == m.problem.products@.len(),
            m.wf(),
            m.sizes_ok(),
            t < m.problem.t_count(),
            r < m.problem.r_count(),
            v@.len() == p,
            forall|p2: int|
                0 <= p2 < p ==> (#[trigger] v@[p2]).var as int == m.prod_id(p2, t as int)
                    && v@[p2].coef == m.problem.products@[p2].consumption@[r as int],
        decreases np - p,
    {
        v.push(LinTerm { var: production_var(m, p, t), coef: m.problem.products[p].consumption[r] });
        p = p + 1;
    }
    v
}

/// Build the capacity constraints, appended to `out` in period-major,
/// resource-minor order.
pub fn build_capacity(m: &PlanModel, out: &mut Vec<Constraint>)
    requires
        m.wf(),
        m.sizes_ok(),
    ensures
        final(out)@.len() == old(out)@.len() + m.problem.t_count() * m.problem.r_count(),
        forall|i: int| 0 <= i < old(out)@.len() ==> final(out)@[i] == old(out)@[i],
        capacity_section(*m, final(out)@, old(out)@.len() as int),
{
    let nt = m.problem.periods.len();
    let nr = m.problem.n_resources;
    let base = out.len();
    let mut t: usize = 0;
    while t < nt
        invariant
            t <= nt,
            nt == m.problem.periods@.len(),
            nr == m.problem.n_resources,
            m.wf(),
            m.sizes_ok(),
            out@.len() == base + t * nr,
            forall|i: int| 0 <= i < base ==> out@[i] == old(out)@[i],
            forall|t2: int, r2: int|
                0 <= t2 < t && 0 <= r2 < nr ==> is_capacity_constraint(
                    *m,
                    t2,
                    r2,
                    #[trigger] out@[base + t2 * nr + r2],
                ),
        decreases nt - t,
    {
        let mut r: usize = 0;
        while r < nr
            invariant
                r <= nr,
                t < nt,
                nt == m.problem.periods@.len(),
                nr == m.problem.n_resources,
                m.wf(),
                m.sizes_ok(),
                out@.len() == base + t * nr + r,
                forall|i: int| 0 <= i < base ==> out@[i] == old(out)@[i],
                forall|t2: int, r2: int|
                    0 <= t2 < t && 0 <= r2 < nr ==> is_capacity_constraint(
                        *m,
                        t2,
                        r2,
                        #[trigger] out@[base + t2 * nr + r2],
                    ),
                forall|r2: int|
                    0 <= r2 < r ==> is_capacity_constraint(
                        *m,
                        t as int,
                        r2,
                        #[trigger] out@[base + (t as int) * nr + r2],
                    ),
            decreases nr - r,
        {
            let terms = capacity_terms(m, t, r);
            out.push(
                Constraint {
                    expr: LinearExpression { terms },
                    op: Relation::Le,
                    rhs: m.problem.periods[t].capacities[r],
                    tag: ConstraintTag::Capacity,
                },
            );
            proof {
                assert forall|t2: int, r2: int|
                    0 <= t2 < t && 0 <= r2 < nr implies is_capacity_constraint(
                        *m,
                        t2,
                        r2,
                        #[trigger] out@[base + t2 * nr + r2],
                    ) by {
                    lemma_pair_index_bound(t2, r2, t as int, nr as int);
                }
            }
            r = r + 1;
        }
        proof {
            assert((t + 1) * nr == t * nr + nr) by (nonlinear_arith);
        }
        t = t + 1;
    }
}

/// The value of capacity-constraint terms is the aggregated consumption.
proof fn lemma_consumed_eval(
    m: PlanModel,
    terms: Seq<LinTerm>,
    vals: Seq<i64>,
    t: int,
    r: int,
    n: int,
)
    requires
        terms.len() == m.problem.p_count(),
        forall|p: int|
            0 <= p < terms.len() ==> (#[trigger] terms[p]).var as int == m.prod_id(p, t)
                && terms[p].coef == m.problem.products@[p].consumption@[r],
        0 <= n <= terms.len(),
    ensures
        eval_prefix(terms, vals, n) == consumed_prefix(m, vals, t, r, n),
    decreases n,
{
    if n > 0 {
        lemma_consumed_eval(m, terms, vals, t, r, n - 1);
    }
}

/// Capacity respected: in any assignment satisfying the capacity
/// constraints, the consumption of each resource in each period stays within
/// the period's stated capacity.
pub proof fn lemma_capacity_respected(
    m: PlanModel,
    cs: Seq<Constraint>,
    off: int,
    vals: Seq<i64>,
    t: int,
    r: int,
)
    requires
        m.wf(),
        m.sizes_ok(),
        capacity_section(m, cs, off),
        all_sat(cs, vals),
        0 <= t < m.problem.t_count(),
        0 <= r < m.problem.r_count(),
    ensures
        consumed(m, vals, t, r) <= m.problem.periods@[t].capacities@[r],
{
    lemma_pair_index_bound(t, r, m.problem.t_count(), m.problem.r_count());
    let c = cs[off + t * m.problem.r_count() + r];
    assert(constraint_sat(c, vals));
    lemma_consumed_eval(m, c.expr.terms@, vals, t, r, m.problem.p_count());
}

/// Number of safety-stock constraints: one per product, none on an empty
/// horizon.
pub open spec fn safety_count(m: PlanModel) -> int {
    if m.problem.t_count() > 0 {
        m.problem.p_count()
    } else {
        0
    }
}

/// The safety-stock constraint of product `p`: the inventory at the last
/// order position is at least the product's safety stock.
pub open spec fn is_safety_constraint(m: PlanModel, p: int, c: Constraint) -> bool {
    let tlast = m.order@[m.problem.t_count() - 1] as int;
    &&& c.op == Relation::Ge
    &&& c.tag == ConstraintTag::SafetyStock
    &&& c.expr.terms@.len() == 1
    &&& c.expr.terms@[0].var as int == m.inv_id(p, tlast)
    &&& c.expr.terms@[0].coef == 1
    &&& c.rhs == m.problem.products@[p].safety_stock
}

/// `cs` holds the safety-stock constraints of the model starting at `off`,
/// one per product.
pub open spec fn safety_section(m: PlanModel, cs: Seq<Constraint>, off: int) -> bool {
    &&& 0 <= off
    &&& off + safety_count(m) <= cs.len()
    &&& forall|p: int|
        0 <= p < safety_count(m) ==> is_safety_constraint(m, p, #[trigger] cs[off + p])
}

/// Build the safety-stock constraints, appended to `out`, one per product,
/// on the final order position only.
pub fn build_safety_stock(m: &PlanModel, out: &mut Vec<Constraint>)
    requires
        m.wf(),
        m.sizes_ok(),
    ensures
        final(out)@.len() == old(out)@.len() + safety_count(*m),
        forall|i: int| 0 <= i < old(out)@.len() ==> final(out)@[i] == old(out)@[i],
        safety_section(*m, final(out)@, old(out)@.len() as int),
{
    let nt = m.problem.periods.len();
    if nt == 0 {
        return ;
    }
    let tlast = m.order[nt - 1];
    let np = m.problem.products.len();
    let base = out.len();
    let mut p: usize = 0;
    while p < np
        invariant
            p <= np,
            np == m.problem.products@.len(),
            nt == m.problem.periods@.len(),
            nt > 0,
            tlast == m.order@[nt - 1],
            m.wf(),
            m.sizes_ok(),
            out@.len() == base + p,
            forall|i: int| 0 <= i < base ==> out@[i] == old(out)@[i],
            forall|p2: int|
                0 <= p2 < p ==> is_safety_constraint(*m, p2, #[trigger] out@[base + p2]),
        decreases np - p,
    {
        let mut terms: Vec<LinTerm> = Vec::new();
        terms.push(LinTerm { var: inventory_var(m, p, tlast), coef: 1 });
        out.push(
            Constraint {
                expr: LinearExpression { terms },
                op: Relation::Ge,
                rhs: m.problem.products[p].safety_stock,
                tag: ConstraintTag::SafetyStock,
            },
        );
        p = p + 1;
    }
}

/// Terminal safety stock respected: in any assignment satisfying the
/// safety-stock constraints, the inventory of each product at the last order
/// position is at least the product's safety stock.
pub proof fn lemma_safety_respected(
    m: PlanModel,
    cs: Seq<Constraint>,
    off: int,
    vals: Seq<i64>,
    p: int,
)
    requires
        m.wf(),
        m.sizes_ok(),
        safety_section(m, cs, off),
        all_sat(cs, vals),
        0 <= p < m.problem.p_count(),
        m.problem.t_count() > 0,
    ensures
        vals[m.inv_id(p, m.order@[m.problem.t_count() - 1] as int)]
            >= m.problem.products@[p].safety_stock,
{
    let c = cs[off + p];
    assert(constraint_sat(c, vals));
    let s = c.expr.terms@;
    assert(eval_prefix(s, vals, 0) == 0);
    assert(eval_prefix(s, vals, 1) == s[0].coef * vals[s[0].var as int]);
}

/// Cost contribution of product `p` in period `t`: production cost on the
/// production variable plus holding cost on the inventory variable.
pub open spec fn product_period_cost(m: PlanModel, vals: Seq<i64>, p: int, t: int) -> int {
    m.problem.products@[p].production_cost * vals[m.prod_id(p, t)]
        + m.problem.products@[p].holding_cost * vals[m.inv_id(p, t)]
}

/// Cost of product `p` over its first `n` periods.
pub open spec fn cost_periods(m: PlanModel, vals: Seq<i64>, p: int, n: int) -> int
    decreases n,
{
    if n <= 0 {
        0
    } else {
        cost_periods(m, vals, p, n - 1) + product_period_cost(m, vals, p, n - 1)
    }
}

/// Cost of the first `n` products over all periods.
pub open spec fn cost_products(m: PlanModel, vals: Seq<i64>, n: int) -> int
    decreases n,
{
    if n <= 0 {
        0
    } else {
        cost_products(m, vals, n - 1) + cost_periods(m, vals, n - 1, m.problem.t_count())
    }
}

/// Total plan cost of `vals`: production plus holding cost summed over every
/// product and period.
pub open spec fn plan_cost(m: PlanModel, vals: Seq<i64>) -> int {
    cost_products(m, vals, m.problem.p_count())
}

/// The planning objective: minimize total production plus holding cost, with
/// the per-(product, period) cost pair laid out product-major.
pub open spec fn is_planning_objective(m: PlanModel, o: Objective) -> bool {
    &&& o.sense == Sense::Minimize
    &&& o.expr.terms@.len() == m.n_vars()
    &&& forall|p: int, t: int|
        0 <= p < m.problem.p_count() && 0 <= t < m.problem.t_count() ==> {
            &&& (#[trigger] o.expr.terms@[2 * (p * m.problem.t_count() + t)]).var as int
                == m.prod_id(p, t)
            &&& o.expr.terms@[2 * (p * m.problem.t_count() + t)].coef
                == m.problem.products@[p].production_cost
            &&& o.expr.terms@[2 * (p * m.problem.t_count() + t) + 1].var as int == m.inv_id(p, t)
            &&& o.expr.terms@[2 * (p * m.problem.t_count() + t) + 1].coef
                == m.problem.products@[p].holding_cost
        }
}

/// Build the planning objective: minimize the sum of production and holding
/// costs over every product and period.
pub fn build_planning_objective(m: &PlanModel) -> (o: Objective)
    requires
        m.wf(),
        m.sizes_ok(),
    ensures
        is_planning_objective(*m, o),
{
    let np = m.problem.products.len();
    let nt = m.problem.periods.len();
    let mut terms: Vec<LinTerm> = Vec::new();
    let mut p: usize = 0;
    while p < np
        invariant
            p <= np,
            np == m.problem.products@.len(),
            nt == m.problem.periods@.len(),
            m.wf(),
            m.sizes_ok(),
            terms@.len() == 2 * (p * nt),
            forall|p2: int, t2: int|
                0 <= p2 < p && 0 <= t2 < nt ==> {
                    &&& (#[trigger] terms@[2 * (p2 * nt + t2)]).var as int == m.prod_id(p2, t2)
                    &&& terms@[2 * (p2 * nt + t2)].coef
                        == m.problem.products@[p2].production_cost
                    &&& terms@[2 * (p2 * nt + t2) + 1].var as int == m.inv_id(p2, t2)
                    &&& terms@[2 * (p2 * nt + t2) + 1].coef
                        == m.problem.products@[p2].holding_cost
                },
        decreases np - p,
    {
        let mut t: usize = 0;
        while t < nt
            invariant
                t <= nt,
                p < np,
                np == m.problem.products@.len(),
                nt == m.problem.periods@.len(),
                m.wf(),
                m.sizes_ok(),
                terms@.len() == 2 * (p * nt + t),
                forall|p2: int, t2: int|
                    0 <= p2 < p && 0 <= t2 < nt ==> {
                        &&& (#[trigger] terms@[2 * (p2 * nt + t2)]).var as int == m.prod_id(
                            p2,
                            t2,
                        )
                        &&& terms@[2 * (p2 * nt + t2)].coef
                            == m.problem.products@[p2].production_cost
                        &&& terms@[2 * (p2 * nt + t2) + 1].var as int == m.inv_id(p2, t2)
                        &&& terms@[2 * (p2 * nt + t2) + 1].coef
                            == m.problem.products@[p2].holding_cost
                    },
                forall|t2: int|
                    0 <= t2 < t ==> {
                        &&& (#[trigger] terms@[2 * ((p as int) * nt + t2)]).var as int
                            == m.prod_id(p as int, t2)
                        &&& terms@[2 * ((p as int) * nt + t2)].coef
                            == m.problem.products@[p as int].production_cost
                        &&& terms@[2 * ((p as int) * nt + t2) + 1].var as int == m.inv_id(
                            p as int,
                            t2,
                        )
                        &&& terms@[2 * ((p as int) * nt + t2) + 1].coef
                            == m.problem.products@[p as int].holding_cost
                    },
            decreases nt - t,
        {
            let ghost pre = terms@;
            let pv = production_var(m, p, t);
            let iv = inventory_var(m, p, t);
            terms.push(LinTerm { var: pv, coef: m.problem.products[p].production_cost });
            terms.push(LinTerm { var: iv, coef: m.problem.products[p].holding_cost });
            proof {
                assert(terms@[pre.len() as int].var == pv);
                assert(terms@[pre.len() as int + 1].var == iv);
                assert forall|p2: int, t2: int|
                    0 <= p2 < p && 0 <= t2 < nt implies {
                        &&& (#[trigger] terms@[2 * (p2 * nt + t2)]).var as int == m.prod_id(
                            p2,
                            t2,
                        )
                        &&& terms@[2 * (p2 * nt + t2)].coef
                            == m.problem.products@[p2].production_cost
                        &&& terms@[2 * (p2 * nt + t2) + 1].var as int == m.inv_id(p2, t2)
                        &&& terms@[2 * (p2 * nt + t2) + 1].coef
                            == m.problem.products@[p2].holding_cost
                    } by {
                    lemma_pair_index_bound(p2, t2, p as int, nt as int);
                    assert(2 * (p2 * nt + t2) + 1 < pre.len());
                    assert(terms@[2 * (p2 * nt + t2)] == pre[2 * (p2 * nt + t2)]);
                    assert(terms@[2 * (p2 * nt + t2) + 1] == pre[2 * (p2 * nt + t2) + 1]);
                }
                assert forall|t2: int|
                    0 <= t2 < t + 1 implies {
                        &&& (#[trigger] terms@[2 * ((p as int) * nt + t2)]).var as int
                            == m.prod_id(p as int, t2)
                        &&& terms@[2 * ((p as int) * nt + t2)].coef
                            == m.problem.products@[p as int].production_cost
                        &&& terms@[2 * ((p as int) * nt + t2) + 1].var as int == m.inv_id(
                            p as int,
                            t2,
                        )
                        &&& terms@[2 * ((p as int) * nt + t2) + 1].coef
                            == m.problem.products@[p as int].holding_cost
                    } by {
                    if t2 < t {
                        assert(2 * ((p as int) * nt + t2) + 1 < pre.len());
                        assert(terms@[2 * ((p as int) * nt + t2)] == pre[2 * ((p as int) * nt
                            + t2)]);
                        assert(terms@[2 * ((p as int) * nt + t2) + 1] == pre[2 * ((p as int) * nt
                            + t2) + 1]);
                    } else {
                        assert(2 * ((p as int) * nt + t2) == pre.len());
                    }
                }
            }
            t = t + 1;
        }
        proof {
            assert(2 * ((p + 1) * nt) == 2 * (p * nt + nt)) by (nonlinear_arith);
        }
        p = p + 1;
    }
    proof {
        assert(2 * ((np as int) * nt) == m.n_vars()) by (nonlinear_arith)
            requires
                m.n_vars() == 2 * (np as int) * (nt as int),
        ;
    }
    Objective { expr: LinearExpression { terms }, sense: Sense::Minimize }
}

/// The value of an objective prefix covering the first `p` whole products and
/// `t` further periods equals the corresponding partial plan cost.
proof fn lemma_obj_prefix(m: PlanModel, terms: Seq<LinTerm>, vals: Seq<i64>, p: int, t: int)
    requires
        terms.len() == m.n_vars(),
        forall|p2: int, t2: int|
            0 <= p2 < m.problem.p_count() && 0 <= t2 < m.problem.t_count() ==> {
                &&& (#[trigger] terms[2 * (p2 * m.problem.t_count() + t2)]).var as int
                    == m.prod_id(p2, t2)
                &&& terms[2 * (p2 * m.problem.t_count() + t2)].coef
                    == m.problem.products@[p2].production_cost
                &&& terms[2 * (p2 * m.problem.t_count() + t2) + 1].var as int == m.inv_id(p2, t2)
                &&& terms[2 * (p2 * m.problem.t_count() + t2) + 1].coef
                    == m.problem.products@[p2].holding_cost
            },
        0 <= p <= m.problem.p_count(),
        0 <= t <= m.problem.t_count(),
        p == m.problem.p_count() ==> t == 0,
    ensures
        eval_prefix(terms, vals, 2 * (p * m.problem.t_count() + t)) == cost_products(m, vals, p)
            + cost_periods(m, vals, p, t),
    decreases p, t,
{
    let nt = m.problem.t_count();
    if t > 0 {
        lemma_obj_prefix(m, terms, vals, p, t - 1);
        let k = 2 * (p * nt + (t - 1));
        assert(terms[k].var as int == m.prod_id(p, t - 1));
        assert(eval_prefix(terms, vals, k + 1) == eval_prefix(terms, vals, k) + terms[k].coef
            * vals[terms[k].var as int]);
        assert(eval_prefix(terms, vals, k + 2) == eval_prefix(terms, vals, k + 1) + terms[k
            + 1].coef * vals[terms[k + 1].var as int]);
        assert(2 * (p * nt + t) == k + 2);
        assert(terms[k].coef == m.problem.products@[p].production_cost);
        assert(terms[k + 1].var as int == m.inv_id(p, t - 1));
        assert(terms[k + 1].coef == m.problem.products@[p].holding_cost);
        assert(vals[terms[k].var as int] == vals[m.prod_id(p, t - 1)]);
        assert(vals[terms[k + 1].var as int] == vals[m.inv_id(p, t - 1)]);
        assert(terms[k].coef * vals[terms[k].var as int] == m.problem.products@[p].production_cost
            * vals[m.prod_id(p, t - 1)]);
        assert(terms[k + 1].coef * vals[terms[k + 1].var as int]
            == m.problem.products@[p].holding_cost * vals[m.inv_id(p, t - 1)]);
        assert(cost_periods(m, vals, p, t) == cost_periods(m, vals, p, t - 1)
            + product_period_cost(m, vals, p, t - 1));
        assert(eval_prefix(terms, vals, 2 * (p * nt + t)) == cost_products(m, vals, p)
            + cost_periods(m, vals, p, t));
    } else if p > 0 {
        lemma_obj_prefix(m, terms, vals, p - 1, nt);
        assert(2 * ((p - 1) * nt + nt) == 2 * (p * nt + 0)) by (nonlinear_arith);
        assert(cost_products(m, vals, p) == cost_products(m, vals, p - 1) + cost_periods(
            m,
            vals,
            p - 1,
            nt,
        ));
        assert(eval_prefix(terms, vals, 2 * (p * nt + 0)) == cost_products(m, vals, p)
            + cost_periods(m, vals, p, 0));
    } else {
        assert(2 * (p * nt + t) == 0) by (nonlinear_arith)
            requires
                p == 0 && t == 0,
        ;
        assert(eval_prefix(terms, vals, 0) == 0);
    }
}

/// Objective consistency: the value of the planning objective expression
/// under an assignment equals the plan cost independently recomputed from
/// the per-unit costs and the same assignment's variable values.
pub proof fn lemma_planning_objective_value(m: PlanModel, o: Objective, vals: Seq<i64>)
    requires
        is_planning_objective(m, o),
    ensures
        eval_terms(o.expr.terms@, vals) == plan_cost(m, vals),
{
    lemma_obj_prefix(m, o.expr.terms@, vals, m.problem.p_count(), 0);
    assert(2 * (m.problem.p_count() * m.problem.t_count() + 0) == m.n_vars())
        by (nonlinear_arith)
        requires
            m.n_vars() == 2 * m.problem.p_count() * m.problem.t_count(),
    ;
}

/// `cs` is exactly the constraint set of the planning model: the balance
/// constraints, then the capacity constraints, then the safety-stock
/// constraints.
pub open spec fn planning_constraints(m: PlanModel, cs: Seq<Constraint>) -> bool {
    let np = m.problem.p_count();
    let nt = m.problem.t_count();
    let nr = m.problem.r_count();
    &&& cs.len() == np * nt + nt * nr + safety_count(m)
    &&& balance_section(m, cs, 0)
    &&& capacity_section(m, cs, np * nt)
    &&& safety_section(m, cs, np * nt + nt * nr)
}

/// Everything the planning pipeline builds for one problem.
#[derive(Clone, Debug)]
pub struct PlanningBuild {
    pub model: PlanModel,
    pub registry: Registry,
    pub constraints: Vec<Constraint>,
    pub objective: Objective,
}

impl PlanningBuild {
    /// The build is consistent with its own model: the registry holds the
    /// planning layout, the constraints are the balance, capacity and
    /// safety-stock sets, and the objective minimizes the plan cost.
    pub open spec fn wf(self) -> bool {
        &&& self.model.wf()
        &&& self.model.sizes_ok()
        &&& self.registry.wf()
        &&& planning_registry(self.model, self.registry)
        &&& planning_constraints(self.model, self.constraints@)
        &&& is_planning_objective(self.model, self.objective)
    }
}

/// Validate the planning input and build the whole model: decision
/// variables, balance, capacity and safety-stock constraints, and the cost
/// objective. Succeeds exactly on well-formed input; each validation failure
/// is reported as `validate_planning` reports it, before any variable is
/// registered.
pub fn build_planning(problem: PlanningProblem) -> (r: Result<PlanningBuild, ValidationError>)
    requires
        2 * problem.p_count() * problem.t_count() <= usize::MAX,
    ensures
        r is Ok <==> problem.wf(),
        r is Ok ==> r->Ok_0.wf() && r->Ok_0.model.problem == problem,
        r == Err::<PlanningBuild, ValidationError>(ValidationError::MalformedTable)
            <==> !problem.tables_well_shaped(),
        r == Err::<PlanningBuild, ValidationError>(ValidationError::NegativeValue)
            <==> problem.tables_well_shaped() && !problem.values_nonneg(),
        r == Err::<PlanningBuild, ValidationError>(ValidationError::MissingKey)
            <==> problem.tables_well_shaped() && problem.values_nonneg() && !problem.refs_ok(),
        r == Err::<PlanningBuild, ValidationError>(ValidationError::BrokenPeriodOrder)
            <==> problem.tables_well_shaped() && problem.values_nonneg() && problem.refs_ok()
            && !problem.order_total(),
        r == Err::<PlanningBuild, ValidationError>(ValidationError::DuplicateDemand)
            <==> problem.tables_well_shaped() && problem.values_nonneg() && problem.refs_ok()
            && problem.order_total() && !problem.no_duplicate_demand(),
{
    let model = match validate_planning(problem) {
        Ok(model) => model,
        Err(e) => {
            return Err(e);
        },
    };
    let registry = register_planning_vars(&model);
    let mut constraints: Vec<Constraint> = Vec::new();
    build_inventory_balance(&model, &mut constraints);
    let ghost c_bal = constraints@;
    build_capacity(&model, &mut constraints);
    let ghost c_cap = constraints@;
    build_safety_stock(&model, &mut constraints);
    let objective = build_planning_objective(&model);
    proof {
        let np = model.problem.p_count();
        let nt = model.problem.t_count();
        let nr = model.problem.r_count();
        assert(balance_section(model, constraints@, 0)) by {
            assert forall|p2: int, pos2: int|
                0 <= p2 < np && 0 <= pos2 < nt implies is_balance_constraint(
                    model,
                    p2,
                    pos2,
                    #[trigger] constraints@[p2 * nt + pos2],
                ) by {
                lemma_pair_index_bound(p2, pos2, np, nt);
                assert(is_balance_constraint(model, p2, pos2, c_bal[0 + p2 * nt + pos2]));
                assert(c_bal[0 + p2 * nt + pos2] == c_bal[p2 * nt + pos2]);
                assert(c_cap[p2 * nt + pos2] == c_bal[p2 * nt + pos2]);
                assert(constraints@[p2 * nt + pos2] == c_cap[p2 * nt + pos2]);
            }
        }
        assert(capacity_section(model, constraints@, np * nt)) by {
            assert forall|t2: int, r2: int|
                0 <= t2 < nt && 0 <= r2 < nr implies is_capacity_constraint(
                    model,
                    t2,
                    r2,
                    #[trigger] constraints@[np * nt + t2 * nr + r2],
                ) by {
                lemma_pair_index_bound(t2, r2, nt, nr);
                assert(is_capacity_constraint(model, t2, r2, c_cap[np * nt + t2 * nr + r2]));
                assert(constraints@[np * nt + t2 * nr + r2] == c_cap[np * nt + t2 * nr + r2]);
            }
        }
    }
    Ok(PlanningBuild { model, registry, constraints, objective })
}

} // verus!
