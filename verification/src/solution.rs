//! Solution interpretation: holding a candidate assignment against the
//! model, and reading a solved assignment back into domain reports —
//! production and inventory tables, resource utilization with bottleneck
//! detection, and blend composition with achieved quality.

use vstd::prelude::*;

use crate::blending::blend_total;
use crate::blending::blending_constraints;
use crate::blending::lemma_blend_component_bounded;
use crate::blending::lemma_mass_balance;
use crate::blending::lemma_weighted_eval;
use crate::blending::quality_term_seq;
use crate::blending::weighted_quality;
use crate::blending::BlendingProblem;
use crate::blending::blend_var;
use crate::blending::output_var;
use crate::errors::ReportingError;
use crate::errors::SolverFailure;
use crate::linear::all_eval_ok;
use crate::linear::all_sat;
use crate::linear::eval_expression;
use crate::linear::eval_ok;
use crate::linear::eval_terms;
use crate::linear::lemma_i64_product_bounds;
use crate::linear::nonneg_values;
use crate::linear::vars_in_range;
use crate::linear::Constraint;
use crate::linear::LinTerm;
use crate::linear::LinearExpression;
use crate::linear::VarId;
use crate::linear::constraints_satisfied;
use crate::planning::consumed;
use crate::planning::consumed_prefix;
use crate::planning::inventory_var;
use crate::planning::lemma_capacity_respected;
use crate::planning::lemma_pair_index_bound;
use crate::planning::planning_constraints;
use crate::planning::production_var;
use crate::planning::PlanModel;
use crate::registry::Registry;

verus! {

/// A solved assignment: one value per registered decision variable.
#[derive(Clone, Debug)]
pub struct Assignment {
    pub values: Vec<i64>,
}

impl Assignment {
    /// Value of one decision variable; fails with `MissingValue` exactly
    /// when the assignment holds no value for the identifier.
    pub fn value(&self, id: VarId) -> (r: Result<i64, ReportingError>)
        ensures
            r is Ok <==> id < self.values@.len(),
            r is Ok ==> r->Ok_0 == self.values@[id as int],
            r is Err ==> r == Err::<i64, ReportingError>(ReportingError::MissingValue),
    {
        if id < self.values.len() {
            Ok(self.values[id])
        } else {
            Err(ReportingError::MissingValue)
        }
    }

    /// Value of a linear expression under this assignment, consistent with
    /// the per-variable values.
    pub fn evaluate(&self, expr: &LinearExpression) -> (r: Result<i64, ReportingError>)
        ensures
            r is Ok <==> eval_ok(expr.terms@, self.values@),
            r is Ok ==> r->Ok_0 as int == eval_terms(expr.terms@, self.values@),
            r == Err::<i64, ReportingError>(ReportingError::MissingValue) ==> !vars_in_range(
                expr.terms@,
                self.values@,
            ),
    {
        eval_expression(expr, &self.values)
    }
}

/// Hold a candidate assignment against the model. It is accepted exactly
/// when it has one value per registered variable, every constraint can be
/// evaluated on it, and it respects every bound and every constraint;
/// a violation is `Infeasible`, a malformed candidate is an engine error.
pub fn accept_solution(reg: &Registry, cs: &Vec<Constraint>, raw: Vec<i64>) -> (r: Result<
    Assignment,
    SolverFailure,
>)
    ensures
        r is Ok <==> raw@.len() == reg.vars@.len() && all_eval_ok(cs@, raw@) && reg.bounds_ok(raw@)
            && all_sat(cs@, raw@),
        r is Ok ==> r->Ok_0.values@ == raw@,
        (raw@.len() == reg.vars@.len() && all_eval_ok(cs@, raw@) && !(reg.bounds_ok(raw@)
            && all_sat(cs@, raw@))) ==> r == Err::<Assignment, SolverFailure>(
            SolverFailure::Infeasible,
        ),
        r is Err && !(raw@.len() == reg.vars@.len() && all_eval_ok(cs@, raw@)) ==> r->Err_0 is EngineError,
{
    if raw.len() != reg.vars.len() {
        return Err(
            SolverFailure::EngineError {
                detail: "the assignment does not hold one value per registered variable".to_owned(),
            },
        );
    }
    match constraints_satisfied(cs, &raw) {
        Err(_e) => Err(
            SolverFailure::EngineError {
                detail: "a constraint could not be evaluated on the assignment".to_owned(),
            },
        ),
        Ok(sat) => {
            let bounds = reg.check_bounds(&raw);
            if sat && bounds {
                Ok(Assignment { values: raw })
            } else {
                Err(SolverFailure::Infeasible)
            }
        },
    }
}

/// Non-negativity: every value of an assignment that respects the bounds of
/// a well-formed registry is at or above zero, because every lower bound is.
pub proof fn lemma_assignment_nonneg(reg: Registry, vals: Seq<i64>)
    requires
        reg.wf(),
        reg.bounds_ok(vals),
    ensures
        nonneg_values(vals),
{
    assert forall|i: int| 0 <= i < vals.len() implies #[trigger] vals[i] >= 0 by {
        assert(reg.vars@[i].lower >= 0);
        assert(reg.vars@[i].lower <= vals[i]);
    }
}

/// One row of the production/inventory table.
#[derive(Clone, Copy, PartialEq, Eq, Structural, Debug)]
pub struct PlanCell {
    pub product: usize,
    pub period: usize,
    pub production: i64,
    pub inventory: i64,
}

/// The production/inventory table of a solved planning model, one cell per
/// (product, period) in product-major order. Fails with `MissingValue`
/// exactly when the assignment is shorter than the model's variable table.
pub fn production_report(m: &PlanModel, a: &Assignment) -> (r: Result<Vec<PlanCell>, ReportingError>)
    requires
        m.wf(),
        m.sizes_ok(),
    ensures
        r is Ok <==> a.values@.len() >= m.n_vars(),
        r is Err ==> r == Err::<Vec<PlanCell>, ReportingError>(ReportingError::MissingValue),
        r is Ok ==> {
            let rep = r->Ok_0@;
            &&& rep.len() == m.problem.p_count() * m.problem.t_count()
            &&& forall|p: int, t: int|
                0 <= p < m.problem.p_count() && 0 <= t < m.problem.t_count()
                    ==> #[trigger] rep[p * m.problem.t_count() + t] == (PlanCell {
                    product: p as usize,
                    period: t as usize,
                    production: a.values@[m.prod_id(p, t)],
                    inventory: a.values@[m.inv_id(p, t)],
                })
        },
{
    let np = m.problem.products.len();
    let nt = m.problem.periods.len();
    proof {
        assert((np as int) * nt + (np as int) * nt == m.n_vars()) by (nonlinear_arith)
            requires
                m.n_vars() == 2 * (np as int) * (nt as int),
        ;
    }
    let half = np * nt;
    if a.values.len() < half + half {
        return Err(ReportingError::MissingValue);
    }
    let mut rep: Vec<PlanCell> = Vec::new();
    let mut p: usize = 0;
    while p < np
        invariant
            p <= np,
            np == m.problem.products@.len(),
            nt == m.problem.periods@.len(),
            m.wf(),
            m.sizes_ok(),
            a.values@.len() >= m.n_vars(),
            rep@.len() == p * nt,
            forall|p2: int, t2: int|
                0 <= p2 < p && 0 <= t2 < nt ==> #[trigger] rep@[p2 * nt + t2] == (PlanCell {
                    product: p2 as usize,
                    period: t2 as usize,
                    production: a.values@[m.prod_id(p2, t2)],
                    inventory: a.values@[m.inv_id(p2, t2)],
                }),
        decreases np - p,
    {
        let mut t: usize = 0;
        while t < nt
            invariant
                t <= nt,
                p < np,
                np == m.problem.products@.len(),
                nt == m.problem.periods@.len(),
                m.wf(),
                m.sizes_ok(),
                a.values@.len() >= m.n_vars(),
                rep@.len() == p * nt + t,
                forall|p2: int, t2: int|
                    0 <= p2 < p && 0 <= t2 < nt ==> #[trigger] rep@[p2 * nt + t2] == (PlanCell {
                        product: p2 as usize,
                        period: t2 as usize,
                        production: a.values@[m.prod_id(p2, t2)],
                        inventory: a.values@[m.inv_id(p2, t2)],
                    }),
                forall|t2: int|
                    0 <= t2 < t ==> #[trigger] rep@[(p as int) * nt + t2] == (PlanCell {
                        product: p,
                        period: t2 as usize,
                        production: a.values@[m.prod_id(p as int, t2)],
                        inventory: a.values@[m.inv_id(p as int, t2)],
                    }),
            decreases nt - t,
        {
            let pv = production_var(m, p, t);
            let iv = inventory_var(m, p, t);
            rep.push(
                PlanCell {
                    product: p,
                    period: t,
                    production: a.values[pv],
                    inventory: a.values[iv],
                },
            );
            proof {
                assert forall|p2: int, t2: int|
                    0 <= p2 < p && 0 <= t2 < nt implies #[trigger] rep@[p2 * nt + t2] == (PlanCell {
                    product: p2 as usize,
                    period: t2 as usize,
                    production: a.values@[m.prod_id(p2, t2)],
                    inventory: a.values@[m.inv_id(p2, t2)],
                }) by {
                    lemma_pair_index_bound(p2, t2, p as int, nt as int);
                }
            }
            t = t + 1;
        }
        proof {
            assert((p + 1) * nt == p * nt + nt) by (nonlinear_arith);
        }
        p = p + 1;
    }
    Ok(rep)
}

/// Utilization of the resource in basis points of its capacity:
/// `consumed * 10000 / capacity`, floored, and zero for non-positive
/// consumption or capacity.
pub open spec fn spec_percent_bp(consumed: int, capacity: int) -> int {
    if consumed <= 0 || capacity <= 0 {
        0
    } else {
        consumed * 10000 / capacity
    }
}

/// Basis points of utilization for a consumption within capacity.
fn percent_bp(consumed: i64, capacity: i64) -> (r: i64)
    requires
        0 <= consumed <= capacity,
    ensures
        r as int == spec_percent_bp(consumed as int, capacity as int),
        0 <= r <= 10000,
{
    if consumed <= 0 {
        0
    } else {
        let q: u128 = (consumed as u128) * 10000 / (capacity as u128);
        proof {
            vstd::arithmetic::div_mod::lemma_div_is_ordered(
                (consumed as int) * 10000,
                (capacity as int) * 10000,
                capacity as int,
            );
            vstd::arithmetic::div_mod::lemma_div_multiples_vanish(10000, capacity as int);
            assert((capacity as int) * 10000 == (capacity as int) * 10000);
            vstd::arithmetic::div_mod::lemma_div_is_ordered(
                0,
                (consumed as int) * 10000,
                capacity as int,
            );
            vstd::arithmetic::div_mod::lemma_div_multiples_vanish(0, capacity as int);
        }
        q as i64
    }
}

/// Utilization of one resource in one period.
#[derive(Clone, Copy, PartialEq, Eq, Structural, Debug)]
pub struct ResourceUse {
    pub resource: usize,
    pub consumed: i64,
    pub capacity: i64,
    pub percent_bp: i64,
}

/// Utilization of every resource in one period, with the bottleneck flagged.
#[derive(Clone, Debug)]
pub struct PeriodUtilization {
    pub period: usize,
    pub uses: Vec<ResourceUse>,
    /// The resource with the highest utilization ratio among those with
    /// positive capacity; ties go to the first resource in declared order.
    /// `None` when no resource of the period has positive capacity.
    pub bottleneck: Option<usize>,
}

/// Cross-multiplied ratio comparison: `c1 / k1 > c2 / k2` for positive
/// capacities `k1`, `k2`.
pub open spec fn util_gt(c1: int, k1: int, c2: int, k2: int) -> bool {
    c1 * k2 > c2 * k1
}

/// `r` is the bottleneck of period `t`: a positive-capacity resource whose
/// utilization ratio no positive-capacity resource exceeds, and which
/// strictly exceeds every earlier positive-capacity resource (first wins).
pub open spec fn is_bottleneck(m: PlanModel, vals: Seq<i64>, t: int, r: int) -> bool {
    let caps = m.problem.periods@[t].capacities@;
    &&& 0 <= r < m.problem.r_count()
    &&& caps[r] > 0
    &&& forall|s: int|
        0 <= s < m.problem.r_count() && (#[trigger] caps[s]) > 0 ==> !util_gt(
            consumed(m, vals, t, s),
            caps[s] as int,
            consumed(m, vals, t, r),
            caps[r] as int,
        )
    &&& forall|s: int|
        0 <= s < r && (#[trigger] caps[s]) > 0 ==> util_gt(
            consumed(m, vals, t, r),
            caps[r] as int,
            consumed(m, vals, t, s),
            caps[s] as int,
        )
}

/// Everything the utilization report says about one period.
pub open spec fn period_utilization_ok(
    m: PlanModel,
    vals: Seq<i64>,
    t: int,
    pu: PeriodUtilization,
) -> bool {
    let caps = m.problem.periods@[t].capacities@;
    &&& pu.period == t
    &&& pu.uses@.len() == m.problem.r_count()
    &&& forall|r: int|
        0 <= r < m.problem.r_count() ==> #[trigger] pu.uses@[r] == (ResourceUse {
            resource: r as usize,
            consumed: consumed(m, vals, t, r) as i64,
            capacity: caps[r],
            percent_bp: spec_percent_bp(consumed(m, vals, t, r), caps[r] as int) as i64,
        })
    &&& match pu.bottleneck {
        Some(r) => is_bottleneck(m, vals, t, r as int),
        None => forall|s: int| 0 <= s < m.problem.r_count() ==> (#[trigger] caps[s]) <= 0,
    }
}

/// With non-negative values, the partial consumptions grow with `n`.
proof fn lemma_consumed_prefix_mono(
    m: PlanModel,
    vals: Seq<i64>,
    t: int,
    r: int,
    n1: int,
    n2: int,
)
    requires
        m.wf(),
        m.sizes_ok(),
        vals.len() >= m.n_vars(),
        nonneg_values(vals),
        0 <= t < m.problem.t_count(),
        0 <= r < m.problem.r_count(),
        0 <= n1 <= n2 <= m.problem.p_count(),
    ensures
        consumed_prefix(m, vals, t, r, n1) <= consumed_prefix(m, vals, t, r, n2),
    decreases n2,
{
    if n2 > n1 {
        lemma_consumed_prefix_mono(m, vals, t, r, n1, n2 - 1);
        lemma_pair_index_bound(n2 - 1, t, m.problem.p_count(), m.problem.t_count());
        assert(m.problem.p_count() * m.problem.t_count() <= m.n_vars()) by (nonlinear_arith)
            requires
                m.n_vars() == 2 * m.problem.p_count() * m.problem.t_count()
                    && m.problem.p_count() >= 0 && m.problem.t_count() >= 0,
        ;
        assert(vals[m.prod_id(n2 - 1, t)] >= 0);
        vstd::arithmetic::mul::lemma_mul_nonnegative(
            m.problem.products@[n2 - 1].consumption@[r] as int,
            vals[m.prod_id(n2 - 1, t)] as int,
        );
    }
}

/// Ratios over positive capacities: at most the old best and strictly below
/// the new best means strictly below the new best.
proof fn lemma_util_gt_through(
    cs2: int,
    ks2: int,
    cb: int,
    kb: int,
    ci: int,
    ki: int,
)
    requires
        ks2 > 0,
        kb > 0,
        ki > 0,
        cs2 * kb <= cb * ks2,
        ci * kb > cb * ki,
    ensures
        ci * ks2 > cs2 * ki,
{
    assert(ci * ks2 > cs2 * ki) by (nonlinear_arith)
        requires
            ks2 > 0,
            kb > 0,
            ki > 0,
            cs2 * kb <= cb * ks2,
            ci * kb > cb * ki,
    ;
}

/// Ratios over positive capacities: strictly below the old best and the old
/// best strictly below the new best means strictly below the new best.
proof fn lemma_util_gt_chain(cs2: int, ks2: int, cb: int, kb: int, ci: int, ki: int)
    requires
        ks2 > 0,
        kb > 0,
        ki > 0,
        cb * ks2 > cs2 * kb,
        ci * kb > cb * ki,
    ensures
        ci * ks2 > cs2 * ki,
{
    assert(ci * ks2 > cs2 * ki) by (nonlinear_arith)
        requires
            ks2 > 0,
            kb > 0,
            ki > 0,
            cb * ks2 > cs2 * kb,
            ci * kb > cb * ki,
    ;
}

/// The resource-utilization report of a solved planning model: per period,
/// the consumption, capacity and utilization of every resource, and the
/// bottleneck — the resource with the highest utilization ratio, first one
/// winning ties. A zero-capacity resource is idle in every feasible
/// assignment and takes no part in bottleneck selection.
pub fn utilization_report(m: &PlanModel, cs: &Vec<Constraint>, a: &Assignment) -> (rep: Vec<
    PeriodUtilization,
>)
    requires
        m.wf(),
        m.sizes_ok(),
        planning_constraints(*m, cs@),
        all_sat(cs@, a.values@),
        a.values@.len() >= m.n_vars(),
        nonneg_values(a.values@),
    ensures
        rep@.len() == m.problem.t_count(),
        forall|t: int|
            0 <= t < m.problem.t_count() ==> period_utilization_ok(
                *m,
                a.values@,
                t,
                #[trigger] rep@[t],
            ),
{
    let np = m.problem.products.len();
    let nt = m.problem.periods.len();
    let nr = m.problem.n_resources;
    let mut rep: Vec<PeriodUtilization> = Vec::new();
    let mut t: usize = 0;
    while t < nt
        invariant
            t <= nt,
            np == m.problem.products@.len(),
            nt == m.problem.periods@.len(),
            nr == m.problem.n_resources,
            m.wf(),
            m.sizes_ok(),
            planning_constraints(*m, cs@),
            all_sat(cs@, a.values@),
            a.values@.len() >= m.n_vars(),
            nonneg_values(a.values@),
            rep@.len() == t,
            forall|t2: int|
                0 <= t2 < t ==> period_utilization_ok(*m, a.values@, t2, #[trigger] rep@[t2]),
        decreases nt - t,
    {
        let mut uses: Vec<ResourceUse> = Vec::new();
        let mut r: usize = 0;
        while r < nr
            invariant
                r <= nr,
                t < nt,
                np == m.problem.products@.len(),
                nt == m.problem.periods@.len(),
                nr == m.problem.n_resources,
                m.wf(),
                m.sizes_ok(),
                planning_constraints(*m, cs@),
                all_sat(cs@, a.values@),
                a.values@.len() >= m.n_vars(),
                nonneg_values(a.values@),
                uses@.len() == r,
                forall|r2: int|
                    0 <= r2 < r ==> #[trigger] uses@[r2] == (ResourceUse {
                        resource: r2 as usize,
                        consumed: consumed(*m, a.values@, t as int, r2) as i64,
                        capacity: m.problem.periods@[t as int].capacities@[r2],
                        percent_bp: spec_percent_bp(
                            consumed(*m, a.values@, t as int, r2),
                            m.problem.periods@[t as int].capacities@[r2] as int,
                        ) as i64,
                    }),
            decreases nr - r,
        {
            let cap = m.problem.periods[t].capacities[r];
            proof {
                lemma_capacity_respected(
                    *m,
                    cs@,
                    m.problem.p_count() * m.problem.t_count(),
                    a.values@,
                    t as int,
                    r as int,
                );
                lemma_consumed_prefix_mono(*m, a.values@, t as int, r as int, 0, np as int);
            }
            let mut acc: i64 = 0;
            let mut p: usize = 0;
            while p < np
                invariant
                    p <= np,
                    t < nt,
                    r < nr,
                    np == m.problem.products@.len(),
                    nt == m.problem.periods@.len(),
                    nr == m.problem.n_resources,
                    m.wf(),
                    m.sizes_ok(),
                    a.values@.len() >= m.n_vars(),
                    nonneg_values(a.values@),
                    cap == m.problem.periods@[t as int].capacities@[r as int],
                    consumed(*m, a.values@, t as int, r as int) <= cap,
                    acc as int == consumed_prefix(*m, a.values@, t as int, r as int, p as int),
                    0 <= acc,
                decreases np - p,
            {
                let rate = m.problem.products[p].consumption[r];
                let pv = production_var(m, p, t);
                let v = a.values[pv];
                proof {
                    lemma_i64_product_bounds(rate as int, v as int);
                    lemma_consumed_prefix_mono(
                        *m,
                        a.values@,
                        t as int,
                        r as int,
                        p as int + 1,
                        np as int,
                    );
                    lemma_consumed_prefix_mono(*m, a.values@, t as int, r as int, 0, p as int + 1);
                }
                let prod: i128 = (rate as i128) * (v as i128);
                let s: i128 = (acc as i128) + prod;
                acc = s as i64;
                p = p + 1;
            }
            let bp = percent_bp(acc, cap);
            uses.push(ResourceUse { resource: r, consumed: acc, capacity: cap, percent_bp: bp });
            r = r + 1;
        }
        let mut best: Option<usize> = None;
        let mut s: usize = 0;
        while s < nr
            invariant
                s <= nr,
                t < nt,
                nt == m.problem.periods@.len(),
                nr == m.problem.n_resources,
                m.wf(),
                m.sizes_ok(),
                planning_constraints(*m, cs@),
                all_sat(cs@, a.values@),
                nonneg_values(a.values@),
                a.values@.len() >= m.n_vars(),
                uses@.len() == nr,
                forall|r2: int|
                    0 <= r2 < nr ==> #[trigger] uses@[r2] == (ResourceUse {
                        resource: r2 as usize,
                        consumed: consumed(*m, a.values@, t as int, r2) as i64,
                        capacity: m.problem.periods@[t as int].capacities@[r2],
                        percent_bp: spec_percent_bp(
                            consumed(*m, a.values@, t as int, r2),
                            m.problem.periods@[t as int].capacities@[r2] as int,
                        ) as i64,
                    }),
                match best {
                    None => forall|s2: int|
                        0 <= s2 < s ==> (#[trigger] m.problem.periods@[t as int].capacities@[s2])
                            <= 0,
                    Some(bi) => {
                        let caps = m.problem.periods@[t as int].capacities@;
                        &&& (bi as int) < s
                        &&& caps[bi as int] > 0
                        &&& forall|s2: int|
                            0 <= s2 < s && (#[trigger] caps[s2]) > 0 ==> !util_gt(
                                consumed(*m, a.values@, t as int, s2),
                                caps[s2] as int,
                                consumed(*m, a.values@, t as int, bi as int),
                                caps[bi as int] as int,
                            )
                        &&& forall|s2: int|
                            0 <= s2 < bi && (#[trigger] caps[s2]) > 0 ==> util_gt(
                                consumed(*m, a.values@, t as int, bi as int),
                                caps[bi as int] as int,
                                consumed(*m, a.values@, t as int, s2),
                                caps[s2] as int,
                            )
                    },
                },
            decreases nr - s,
        {
            let u = uses[s];
            if u.capacity > 0 {
                match best {
                    None => {
                        best = Some(s);
                    },
                    Some(bi) => {
                        let ub = uses[bi];
                        proof {
                            lemma_i64_product_bounds(u.consumed as int, ub.capacity as int);
                            lemma_i64_product_bounds(ub.consumed as int, u.capacity as int);
                            let off = m.problem.p_count() * m.problem.t_count();
                            lemma_capacity_respected(*m, cs@, off, a.values@, t as int, s as int);
                            lemma_consumed_prefix_mono(
                                *m,
                                a.values@,
                                t as int,
                                s as int,
                                0,
                                m.problem.p_count(),
                            );
                            lemma_capacity_respected(*m, cs@, off, a.values@, t as int, bi as int);
                            lemma_consumed_prefix_mono(
                                *m,
                                a.values@,
                                t as int,
                                bi as int,
                                0,
                                m.problem.p_count(),
                            );
                            assert(u.consumed as int == consumed(*m, a.values@, t as int, s as int));
                            assert(ub.consumed as int == consumed(
                                *m,
                                a.values@,
                                t as int,
                                bi as int,
                            ));
                        }
                        let lhs: i128 = (u.consumed as i128) * (ub.capacity as i128);
                        let rhs: i128 = (ub.consumed as i128) * (u.capacity as i128);
                        if lhs > rhs {
                            proof {
                                let caps = m.problem.periods@[t as int].capacities@;
                                let vals = a.values@;
                                let ci = consumed(*m, vals, t as int, s as int);
                                let ki = caps[s as int] as int;
                                let cb = consumed(*m, vals, t as int, bi as int);
                                let kb = caps[bi as int] as int;
                                assert forall|s2: int|
                                    0 <= s2 < s && (#[trigger] caps[s2]) > 0 implies util_gt(
                                        ci,
                                        ki,
                                        consumed(*m, vals, t as int, s2),
                                        caps[s2] as int,
                                    ) by {
                                    let cs2 = consumed(*m, vals, t as int, s2);
                                    let ks2 = caps[s2] as int;
                                    let off = m.problem.p_count() * m.problem.t_count();
                                    lemma_capacity_respected(*m, cs@, off, vals, t as int, s2);
                                    lemma_consumed_prefix_mono(
                                        *m,
                                        vals,
                                        t as int,
                                        s2,
                                        0,
                                        m.problem.p_count(),
                                    );
                                    if s2 < bi {
                                        lemma_util_gt_chain(cs2, ks2, cb, kb, ci, ki);
                                    } else if s2 == bi {
                                    } else {
                                        lemma_util_gt_through(cs2, ks2, cb, kb, ci, ki);
                                    }
                                }
                            }
                            best = Some(s);
                        }
                    },
                }
            }
            s = s + 1;
        }
        rep.push(PeriodUtilization { period: t, uses, bottleneck: best });
        t = t + 1;
    }
    rep
}

/// One material's share of a blended product.
#[derive(Clone, Copy, PartialEq, Eq, Structural, Debug)]
pub struct BlendShare {
    pub material: usize,
    pub amount: i64,
    /// Share of the product's output in basis points.
    pub percent_bp: i64,
}

/// Composition of one blended product.
#[derive(Clone, Debug)]
pub enum Composition {
    /// Output at or below zero: no composition is reported, rather than a
    /// division by a vanishing output.
    NotProduced,
    Produced {
        output: i64,
        shares: Vec<BlendShare>,
        /// Quality-weighted blend sum; achieved quality is this over output.
        weighted_sum: i64,
        /// Whether the weighted sum reaches the required quality times the
        /// output.
        quality_met: bool,
    },
}

/// Everything the composition report says about one product.
pub open spec fn composition_ok(
    b: BlendingProblem,
    vals: Seq<i64>,
    j: int,
    comp: Composition,
) -> bool {
    let out = vals[b.out_id(j)] as int;
    if out <= 0 {
        comp is NotProduced
    } else {
        &&& comp is Produced
        &&& comp->Produced_output as int == out
        &&& comp->Produced_shares@.len() == b.m_count()
        &&& forall|i: int|
            0 <= i < b.m_count() ==> #[trigger] comp->Produced_shares@[i] == (BlendShare {
                material: i as usize,
                amount: vals[b.blend_id(i, j)],
                percent_bp: spec_percent_bp(vals[b.blend_id(i, j)] as int, out) as i64,
            })
        &&& comp->Produced_weighted_sum as int == weighted_quality(b, vals, j)
        &&& (comp->Produced_quality_met <==> weighted_quality(b, vals, j)
            >= b.products@[j].min_quality * out)
    }
}

/// The per-product composition report of a solved blending model: for each
/// product with positive output, each material's blend amount and its share
/// of the output in basis points, the quality-weighted blend sum, and
/// whether the required quality is reached; a product with no output is
/// reported as not produced rather than divided by a vanishing denominator.
/// The report is owed, and returned, exactly when every produced product's
/// quality-weighted terms can be evaluated on the machine; otherwise the
/// failure is `NumericOverflow`.
pub fn composition_report(b: &BlendingProblem, cs: &Vec<Constraint>, a: &Assignment) -> (r: Result<
    Vec<Composition>,
    ReportingError,
>)
    requires
        b.wf(),
        b.sizes_ok(),
        blending_constraints(*b, cs@),
        all_sat(cs@, a.values@),
        a.values@.len() >= b.n_vars(),
        nonneg_values(a.values@),
    ensures
        r is Ok <==> (forall|j: int|
            0 <= j < b.j_count() && a.values@[b.out_id(j)] > 0 ==> eval_ok(
                #[trigger] quality_term_seq(*b, j),
                a.values@,
            )),
        r is Ok ==> {
            let rep = r->Ok_0@;
            &&& rep.len() == b.j_count()
            &&& forall|j: int|
                0 <= j < b.j_count() ==> composition_ok(*b, a.values@, j, #[trigger] rep[j])
        },
        r is Err ==> r == Err::<Vec<Composition>, ReportingError>(ReportingError::NumericOverflow),
{
    let nm = b.materials.len();
    let nj = b.products.len();
    let mut rep: Vec<Composition> = Vec::new();
    let mut j: usize = 0;
    while j < nj
        invariant
            j <= nj,
            nm == b.materials@.len(),
            nj == b.products@.len(),
            b.wf(),
            b.sizes_ok(),
            blending_constraints(*b, cs@),
            all_sat(cs@, a.values@),
            a.values@.len() >= b.n_vars(),
            nonneg_values(a.values@),
            rep@.len() == j,
            forall|j2: int|
                0 <= j2 < j ==> composition_ok(*b, a.values@, j2, #[trigger] rep@[j2]),
            forall|j2: int|
                0 <= j2 < j && a.values@[b.out_id(j2)] > 0 ==> eval_ok(
                    #[trigger] quality_term_seq(*b, j2),
                    a.values@,
                ),
        decreases nj - j,
    {
        let ov = a.values[output_var(b, j)];
        if ov <= 0 {
            rep.push(Composition::NotProduced);
        } else {
            proof {
                lemma_mass_balance(*b, cs@, 0, a.values@, j as int);
            }
            let mut shares: Vec<BlendShare> = Vec::new();
            let mut i: usize = 0;
            while i < nm
                invariant
                    i <= nm,
                    j < nj,
                    nm == b.materials@.len(),
                    nj == b.products@.len(),
                    b.wf(),
                    b.sizes_ok(),
                    a.values@.len() >= b.n_vars(),
                    nonneg_values(a.values@),
                    ov == a.values@[b.out_id(j as int)],
                    ov > 0,
                    blend_total(*b, a.values@, j as int) == ov as int,
                    shares@.len() == i,
                    forall|i2: int|
                        0 <= i2 < i ==> #[trigger] shares@[i2] == (BlendShare {
                            material: i2 as usize,
                            amount: a.values@[b.blend_id(i2, j as int)],
                            percent_bp: spec_percent_bp(
                                a.values@[b.blend_id(i2, j as int)] as int,
                                ov as int,
                            ) as i64,
                        }),
                decreases nm - i,
            {
                let amt = a.values[blend_var(b, i, j)];
                proof {
                    lemma_blend_component_bounded(*b, a.values@, j as int, i as int);
                }
                let bp = percent_bp(amt, ov);
                shares.push(BlendShare { material: i, amount: amt, percent_bp: bp });
                i = i + 1;
            }
            let mut qterms: Vec<LinTerm> = Vec::new();
            let mut i: usize = 0;
            while i < nm
                invariant
                    i <= nm,
                    j < nj,
                    nm == b.materials@.len(),
                    nj == b.products@.len(),
                    b.wf(),
                    b.sizes_ok(),
                    a.values@.len() >= b.n_vars(),
                    qterms@.len() == i,
                    forall|i2: int|
                        0 <= i2 < i ==> (#[trigger] qterms@[i2]).var as int == b.blend_id(
                            i2,
                            j as int,
                        ) && qterms@[i2].coef == b.materials@[i2].quality && qterms@[i2].var
                            < a.values@.len(),
                decreases nm - i,
            {
                let bv = blend_var(b, i, j);
                qterms.push(LinTerm { var: bv, coef: b.materials[i].quality });
                i = i + 1;
            }
            proof {
                assert forall|i2: int|
                    0 <= i2 < b.m_count() implies #[trigger] qterms@[i2] == quality_term_seq(
                    *b,
                    j as int,
                )[i2] by {
                    lemma_pair_index_bound(i2, j as int, b.m_count(), b.j_count());
                }
                assert(qterms@ =~= quality_term_seq(*b, j as int));
            }
            match eval_expression(&LinearExpression { terms: qterms }, &a.values) {
                Err(_e) => {
                    proof {
                        assert(!eval_ok(quality_term_seq(*b, j as int), a.values@));
                        assert(a.values@[b.out_id(j as int)] > 0);
                    }
                    return Err(ReportingError::NumericOverflow);
                },
                Ok(ws) => {
                    proof {
                        lemma_weighted_eval(*b, qterms@, a.values@, j as int, b.m_count());
                    }
                    let minq = b.products[j].min_quality;
                    proof {
                        lemma_i64_product_bounds(minq as int, ov as int);
                    }
                    let met = (ws as i128) >= (minq as i128) * (ov as i128);
                    rep.push(
                        Composition::Produced {
                            output: ov,
                            shares,
                            weighted_sum: ws,
                            quality_met: met,
                        },
                    );
                },
            }
        }
        j = j + 1;
    }
    Ok(rep)
}

} // verus!
