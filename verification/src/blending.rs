//! Raw-material blending: the blending data model, its validation, the
//! decision-variable layout, the constraint builders (mass balance, quality
//! threshold, material availability) and the profit objective.

use vstd::prelude::*;

use crate::errors::ValidationError;
use crate::linear::all_eval_ok;
use crate::linear::all_sat;
use crate::linear::eval_ok;
use crate::linear::eval_ok_prefix;
use crate::linear::lemma_eval_ok_prefix_mono;
use crate::linear::lemma_eval_prefix_agree;
use crate::linear::constraint_sat;
use crate::linear::eval_prefix;
use crate::linear::eval_terms;
use crate::linear::lemma_mul_neg_flip;
use crate::linear::nonneg_values;
use crate::linear::lemma_mul_unit;
use crate::linear::Constraint;
use crate::linear::ConstraintTag;
use crate::linear::LinTerm;
use crate::linear::LinearExpression;
use crate::linear::Objective;
use crate::linear::Relation;
use crate::linear::Sense;
use crate::planning::lemma_pair_index_bound;
use crate::planning::lemma_pair_index_injective;
use crate::registry::Registry;
use crate::registry::VarKey;
use crate::registry::VariableDef;

verus! {

/// One raw-material row of the blending input.
#[derive(Clone, Copy, PartialEq, Eq, Structural, Debug)]
pub struct RawMaterial {
    /// Cost of one unit of the material.
    pub cost: i64,
    /// Quality attribute of the material (linear blending).
    pub quality: i64,
    /// Maximum quantity of the material that can be bought.
    pub max_available: i64,
}

/// One blended-product row of the blending input.
#[derive(Clone, Copy, PartialEq, Eq, Structural, Debug)]
pub struct BlendProduct {
    /// Selling price of one unit of the product.
    pub selling_price: i64,
    /// Minimum volume-weighted quality the blend must reach.
    pub min_quality: i64,
    /// Demand cap: the upper bound on the product's output.
    pub demand_cap: i64,
}

/// The raw blending input tables.
#[derive(Clone, Debug)]
pub struct BlendingProblem {
    pub materials: Vec<RawMaterial>,
    pub products: Vec<BlendProduct>,
}

impl BlendingProblem {
    /// Number of raw materials.
    pub open spec fn m_count(self) -> int {
        self.materials@.len() as int
    }

    /// Number of blended products.
    pub open spec fn j_count(self) -> int {
        self.products@.len() as int
    }

    /// Every cost, quality, availability, price and cap value is
    /// non-negative.
    pub open spec fn values_nonneg(self) -> bool {
        &&& forall|i: int|
            0 <= i < self.m_count() ==> {
                let mt = #[trigger] self.materials@[i];
                mt.cost >= 0 && mt.quality >= 0 && mt.max_available >= 0
            }
        &&& forall|j: int|
            0 <= j < self.j_count() ==> {
                let pr = #[trigger] self.products@[j];
                pr.selling_price >= 0 && pr.min_quality >= 0 && pr.demand_cap >= 0
            }
    }

    /// A valid blending input.
    pub open spec fn wf(self) -> bool {
        self.values_nonneg()
    }

    /// Identifier of the output variable of product `j`.
    pub open spec fn out_id(self, j: int) -> int {
        j
    }

    /// Identifier of the blend variable of material `i` into product `j`.
    pub open spec fn blend_id(self, i: int, j: int) -> int {
        self.j_count() + i * self.j_count() + j
    }

    /// Number of decision variables of the blending model.
    pub open spec fn n_vars(self) -> int {
        self.j_count() + self.m_count() * self.j_count()
    }

    /// The variable table fits the machine.
    pub open spec fn sizes_ok(self) -> bool {
        self.n_vars() <= usize::MAX
    }
}

/// Validate the blending input: succeeds exactly when every value is
/// non-negative, and fails with `NegativeValue` otherwise.
pub fn validate_blending(problem: &BlendingProblem) -> (r: Result<(), ValidationError>)
    ensures
        r is Ok <==> problem.wf(),
        r is Err ==> r == Err::<(), ValidationError>(ValidationError::NegativeValue),
{
    let nm = problem.materials.len();
    let mut i: usize = 0;
    while i < nm
        invariant
            i <= nm,
            nm == problem.materials@.len(),
            forall|k: int|
                0 <= k < i ==> {
                    let mt = #[trigger] problem.materials@[k];
                    mt.cost >= 0 && mt.quality >= 0 && mt.max_available >= 0
                },
        decreases nm - i,
    {
        let mt = problem.materials[i];
        if mt.cost < 0 || mt.quality < 0 || mt.max_available < 0 {
            return Err(ValidationError::NegativeValue);
        }
        i = i + 1;
    }
    let nj = problem.products.len();
    let mut j: usize = 0;
    while j < nj
        invariant
            j <= nj,
            nj == problem.products@.len(),
            nm == problem.materials@.len(),
            forall|k: int|
                0 <= k < nm ==> {
                    let mt = #[trigger] problem.materials@[k];
                    mt.cost >= 0 && mt.quality >= 0 && mt.max_available >= 0
                },
            forall|k: int|
                0 <= k < j ==> {
                    let pr = #[trigger] problem.products@[k];
                    pr.selling_price >= 0 && pr.min_quality >= 0 && pr.demand_cap >= 0
                },
        decreases nj - j,
    {
        let pr = problem.products[j];
        if pr.selling_price < 0 || pr.min_quality < 0 || pr.demand_cap < 0 {
            return Err(ValidationError::NegativeValue);
        }
        j = j + 1;
    }
    Ok(())
}

/// Identifier of the output variable of product `j` under the blending
/// layout.
pub fn output_var(b: &BlendingProblem, j: usize) -> (id: usize)
    requires
        b.sizes_ok(),
        j < b.j_count(),
    ensures
        id as int == b.out_id(j as int),
        id < b.n_vars(),
{
    proof {
        assert(b.m_count() * b.j_count() >= 0) by (nonlinear_arith)
            requires
                b.m_count() >= 0 && b.j_count() >= 0,
        ;
    }
    j
}

/// Identifier of the blend variable of material `i` into product `j` under
/// the blending layout.
pub fn blend_var(b: &BlendingProblem, i: usize, j: usize) -> (id: usize)
    requires
        b.sizes_ok(),
        i < b.m_count(),
        j < b.j_count(),
    ensures
        id as int == b.blend_id(i as int, j as int),
        id < b.n_vars(),
{
    proof {
        lemma_pair_index_bound(i as int, j as int, b.m_count(), b.j_count());
    }
    b.products.len() + i * b.products.len() + j
}

/// The registry holds exactly the blending layout: first one output variable
/// per product, bounded above by the product's demand cap, then every blend
/// variable in material-major order, all with a zero lower bound.
pub open spec fn blending_registry(b: BlendingProblem, reg: Registry) -> bool {
    &&& reg.vars@.len() == b.n_vars()
    &&& forall|j: int|
        0 <= j < b.j_count() ==> #[trigger] reg.vars@[b.out_id(j)] == (VariableDef {
            key: VarKey::Production { product: j as usize, period: 0 },
            lower: 0,
            upper: Some(b.products@[j].demand_cap),
            integral: false,
        })
    &&& forall|i: int, j: int|
        0 <= i < b.m_count() && 0 <= j < b.j_count() ==> #[trigger] reg.vars@[b.blend_id(i, j)]
            == (VariableDef {
            key: VarKey::Blend { material: i as usize, product: j as usize },
            lower: 0,
            upper: None,
            integral: false,
        })
}

/// Register every output and blend variable of the blending model: outputs
/// keyed by product with the demand cap as upper bound, blend amounts keyed
/// by (material, product), all with a zero lower bound.
pub fn register_blending_vars(b: &BlendingProblem) -> (reg: Registry)
    requires
        b.wf(),
        b.sizes_ok(),
    ensures
        reg.wf(),
        blending_registry(*b, reg),
{
    let nm = b.materials.len();
    let nj = b.products.len();
    let mut reg = Registry::new();
    let mut j: usize = 0;
    while j < nj
        invariant
            j <= nj,
            nj == b.products@.len(),
            nm == b.materials@.len(),
            b.wf(),
            b.sizes_ok(),
            reg.wf(),
            reg.vars@.len() == j,
            forall|k: int|
                0 <= k < j ==> #[trigger] reg.vars@[k] == (VariableDef {
                    key: VarKey::Production { product: k as usize, period: 0 },
                    lower: 0,
                    upper: Some(b.products@[k].demand_cap),
                    integral: false,
                }),
        decreases nj - j,
    {
        let key = VarKey::Production { product: j, period: 0 };
        proof {
            assert(!reg.contains_key(key)) by {
                if reg.contains_key(key) {
                    let k = choose|k: int|
                        0 <= k < reg.vars@.len() && (#[trigger] reg.vars@[k]).key == key;
                    assert(reg.vars@[k].key == VarKey::Production { product: k as usize, period: 0 });
                }
            }
            assert(b.n_vars() >= nj) by (nonlinear_arith)
                requires
                    b.n_vars() == nj + b.m_count() * (nj as int) && b.m_count() >= 0 && nj >= 0,
            ;
        }
        let r = reg.register(key, 0, Some(b.products[j].demand_cap), false);
        match r {
            Ok(_id) => {},
            Err(_e) => {
                proof {
                    assert(false);
                }
            },
        }
        j = j + 1;
    }
    let mut i: usize = 0;
    while i < nm
        invariant
            i <= nm,
            nj == b.products@.len(),
            nm == b.materials@.len(),
            b.wf(),
            b.sizes_ok(),
            reg.wf(),
            reg.vars@.len() == nj + i * nj,
            forall|k: int|
                0 <= k < nj ==> #[trigger] reg.vars@[k] == (VariableDef {
                    key: VarKey::Production { product: k as usize, period: 0 },
                    lower: 0,
                    upper: Some(b.products@[k].demand_cap),
                    integral: false,
                }),
            forall|k: int|
                nj <= k < reg.vars@.len() ==> {
                    let def = #[trigger] reg.vars@[k];
                    &&& def.key is Blend
                    &&& (def.key->Blend_material as int) * nj + def.key->Blend_product == k - nj
                    &&& def.key->Blend_product < nj
                    &&& def.key->Blend_material < nm
                    &&& def == (VariableDef { key: def.key, lower: 0, upper: None, integral: false })
                },
        decreases nm - i,
    {
        let mut j: usize = 0;
        while j < nj
            invariant
                j <= nj,
                i < nm,
                nj == b.products@.len(),
                nm == b.materials@.len(),
                b.wf(),
                b.sizes_ok(),
                reg.wf(),
                reg.vars@.len() == nj + i * nj + j,
                forall|k: int|
                    0 <= k < nj ==> #[trigger] reg.vars@[k] == (VariableDef {
                        key: VarKey::Production { product: k as usize, period: 0 },
                        lower: 0,
                        upper: Some(b.products@[k].demand_cap),
                        integral: false,
                    }),
                forall|k: int|
                    nj <= k < reg.vars@.len() ==> {
                        let def = #[trigger] reg.vars@[k];
                        &&& def.key is Blend
                        &&& (def.key->Blend_material as int) * nj + def.key->Blend_product == k
                            - nj
                        &&& def.key->Blend_product < nj
                        &&& def.key->Blend_material < nm
                        &&& def == (VariableDef {
                            key: def.key,
                            lower: 0,
                            upper: None,
                            integral: false,
                        })
                    },
            decreases nj - j,
        {
            let key = VarKey::Blend { material: i, product: j };
            proof {
                lemma_pair_index_bound(i as int, j as int, nm as int, nj as int);
                assert((nj as int) + (nm as int) * nj == b.n_vars()) by (nonlinear_arith)
                    requires
                        b.n_vars() == (nj as int) + (nm as int) * (nj as int),
                ;
                assert(!reg.contains_key(key)) by {
                    if reg.contains_key(key) {
                        let k = choose|k: int|
                            0 <= k < reg.vars@.len() && (#[trigger] reg.vars@[k]).key == key;
                        assert((i as int) * nj + j == k - nj);
                    }
                }
            }
            let r = reg.register(key, 0, None, false);
            match r {
                Ok(_id) => {},
                Err(_e) => {
                    proof {
                        assert(false);
                    }
                },
            }
            j = j + 1;
        }
        proof {
            assert((i + 1) * nj == i * nj + nj) by (nonlinear_arith);
        }
        i = i + 1;
    }
    proof {
        assert(reg.vars@.len() == b.n_vars()) by (nonlinear_arith)
            requires
                reg.vars@.len() == (nj as int) + (nm as int) * (nj as int) && b.n_vars() == (
                nj as int) + (nm as int) * (nj as int),
        ;
        assert forall|i2: int, j2: int|
            0 <= i2 < nm && 0 <= j2 < nj implies #[trigger] reg.vars@[b.blend_id(i2, j2)] == (
        VariableDef {
            key: VarKey::Blend { material: i2 as usize, product: j2 as usize },
            lower: 0,
            upper: None,
            integral: false,
        }) by {
            lemma_pair_index_bound(i2, j2, nm as int, nj as int);
            let k = (nj as int) + i2 * nj + j2;
            let def = reg.vars@[k];
            lemma_pair_index_injective(
                def.key->Blend_material as int,
                def.key->Blend_product as int,
                i2,
                j2,
                nj as int,
            );
        }
    }
    reg
}

/// Sum of the blend amounts of the first `n` materials into product `j`.
pub open spec fn blend_sum_prefix(b: BlendingProblem, vals: Seq<i64>, j: int, n: int) -> int
    decreases n,
{
    if n <= 0 {
        0
    } else {
        blend_sum_prefix(b, vals, j, n - 1) + vals[b.blend_id(n - 1, j)]
    }
}

/// Total blended amount flowing into product `j` under `vals`.
pub open spec fn blend_total(b: BlendingProblem, vals: Seq<i64>, j: int) -> int {
    blend_sum_prefix(b, vals, j, b.m_count())
}

/// The mass-balance constraint of product `j`: the blend amounts over all
/// materials sum to the product's output.
pub open spec fn is_mass_balance_constraint(b: BlendingProblem, j: int, c: Constraint) -> bool {
    &&& c.op == Relation::Eq
    &&& c.tag == ConstraintTag::MassBalance
    &&& c.rhs == 0
    &&& c.expr.terms@.len() == b.m_count() + 1
    &&& forall|i: int|
        0 <= i < b.m_count() ==> (#[trigger] c.expr.terms@[i]).var as int == b.blend_id(i, j)
            && c.expr.terms@[i].coef == 1
    &&& c.expr.terms@[b.m_count()].var as int == b.out_id(j)
    &&& c.expr.terms@[b.m_count()].coef == -1
}

/// `cs` holds the mass-balance constraints starting at `off`, one per
/// product.
pub open spec fn mass_balance_section(b: BlendingProblem, cs: Seq<Constraint>, off: int) -> bool {
    &&& 0 <= off
    &&& off + b.j_count() <= cs.len()
    &&& forall|j: int|
        0 <= j < b.j_count() ==> is_mass_balance_constraint(b, j, #[trigger] cs[off + j])
}

/// Build the mass-balance constraints, appended to `out`, one per product.
pub fn build_mass_balance(b: &BlendingProblem, out: &mut Vec<Constraint>)
    requires
        b.wf(),
        b.sizes_ok(),
    ensures
        final(out)@.len() == old(out)@.len() + b.j_count(),
        forall|i: int| 0 <= i < old(out)@.len() ==> final(out)@[i] == old(out)@[i],
        mass_balance_section(*b, final(out)@, old(out)@.len() as int),
{
    let nm = b.materials.len();
    let nj = b.products.len();
    let base = out.len();
    let mut j: usize = 0;
    while j < nj
        invariant
            j <= nj,
            nj == b.products@.len(),
            nm == b.materials@.len(),
            b.wf(),
            b.sizes_ok(),
            out@.len() == base + j,
            forall|i: int| 0 <= i < base ==> out@[i] == old(out)@[i],
            forall|j2: int|
                0 <= j2 < j ==> is_mass_balance_constraint(*b, j2, #[trigger] out@[base + j2]),
        decreases nj - j,
    {
        let mut terms: Vec<LinTerm> = Vec::new();
        let mut i: usize = 0;
        while i < nm
            invariant
                i <= nm,
                j < nj,
                nj == b.products@.len(),
                nm == b.materials@.len(),
                b.wf(),
                b.sizes_ok(),
                terms@.len() == i,
                forall|i2: int|
                    0 <= i2 < i ==> (#[trigger] terms@[i2]).var as int == b.blend_id(i2, j as int)
                        && terms@[i2].coef == 1,
            decreases nm - i,
        {
            terms.push(LinTerm { var: blend_var(b, i, j), coef: 1 });
            i = i + 1;
        }
        terms.push(LinTerm { var: output_var(b, j), coef: -1 });
        out.push(
            Constraint {
                expr: LinearExpression { terms },
                op: Relation::Eq,
                rhs: 0,
                tag: ConstraintTag::MassBalance,
            },
        );
        j = j + 1;
    }
}

/// The value of the first `n` mass-balance terms is the partial blend sum.
proof fn lemma_blend_sum_eval(
    b: BlendingProblem,
    terms: Seq<LinTerm>,
    vals: Seq<i64>,
    j: int,
    n: int,
)
    requires
        terms.len() >= b.m_count(),
        forall|i: int|
            0 <= i < b.m_count() ==> (#[trigger] terms[i]).var as int == b.blend_id(i, j)
                && terms[i].coef == 1,
        0 <= n <= b.m_count(),
    ensures
        eval_prefix(terms, vals, n) == blend_sum_prefix(b, vals, j, n),
    decreases n,
{
    if n > 0 {
        lemma_blend_sum_eval(b, terms, vals, j, n - 1);
        lemma_mul_unit(terms[n - 1].coef, vals[terms[n - 1].var as int]);
    }
}

/// Mass balance: in any assignment satisfying the mass-balance constraints,
/// the blend amounts of each product sum exactly to the product's output.
pub proof fn lemma_mass_balance(
    b: BlendingProblem,
    cs: Seq<Constraint>,
    off: int,
    vals: Seq<i64>,
    j: int,
)
    requires
        b.wf(),
        b.sizes_ok(),
        mass_balance_section(b, cs, off),
        all_sat(cs, vals),
        0 <= j < b.j_count(),
    ensures
        blend_total(b, vals, j) == vals[b.out_id(j)],
{
    let c = cs[off + j];
    assert(constraint_sat(c, vals));
    let s = c.expr.terms@;
    let nm = b.m_count();
    lemma_blend_sum_eval(b, s, vals, j, nm);
    assert(eval_prefix(s, vals, nm + 1) == eval_prefix(s, vals, nm) + s[nm].coef * vals[s[nm].var as int]);
    lemma_mul_neg_flip(s[nm].coef, 1, vals[s[nm].var as int]);
    lemma_mul_unit(1, vals[s[nm].var as int]);
}

/// Quality-weighted sum of the first `n` blend amounts into product `j`.
pub open spec fn weighted_prefix(b: BlendingProblem, vals: Seq<i64>, j: int, n: int) -> int
    decreases n,
{
    if n <= 0 {
        0
    } else {
        weighted_prefix(b, vals, j, n - 1) + b.materials@[n - 1].quality * vals[b.blend_id(
            n - 1,
            j,
        )]
    }
}

/// Quality-weighted blend sum of product `j` under `vals`.
pub open spec fn weighted_quality(b: BlendingProblem, vals: Seq<i64>, j: int) -> int {
    weighted_prefix(b, vals, j, b.m_count())
}

/// The quality-weighted term sequence of product `j`: each material's
/// quality attribute on its blend variable. Its machine evaluability is
/// exactly what reporting the achieved quality of product `j` needs.
pub open spec fn quality_term_seq(b: BlendingProblem, j: int) -> Seq<LinTerm> {
    Seq::new(
        b.m_count() as nat,
        |i: int| LinTerm { var: b.blend_id(i, j) as usize, coef: b.materials@[i].quality },
    )
}

/// The quality constraint of product `j`: the quality-weighted blend sum
/// reaches the required quality times the output.
pub open spec fn is_quality_constraint(b: BlendingProblem, j: int, c: Constraint) -> bool {
    &&& c.op == Relation::Ge
    &&& c.tag == ConstraintTag::Quality
    &&& c.rhs == 0
    &&& c.expr.terms@.len() == b.m_count() + 1
    &&& forall|i: int|
        0 <= i < b.m_count() ==> (#[trigger] c.expr.terms@[i]).var as int == b.blend_id(i, j)
            && c.expr.terms@[i].coef == b.materials@[i].quality
    &&& c.expr.terms@[b.m_count()].var as int == b.out_id(j)
    &&& c.expr.terms@[b.m_count()].coef as int == -(b.products@[j].min_quality as int)
}

/// `cs` holds the quality constraints starting at `off`, one per product.
pub open spec fn quality_section(b: BlendingProblem, cs: Seq<Constraint>, off: int) -> bool {
    &&& 0 <= off
    &&& off + b.j_count() <= cs.len()
    &&& forall|j: int|
        0 <= j < b.j_count() ==> is_quality_constraint(b, j, #[trigger] cs[off + j])
}

/// Build the quality constraints, appended to `out`, one per product.
pub fn build_quality(b: &BlendingProblem, out: &mut Vec<Constraint>)
    requires
        b.wf(),
        b.sizes_ok(),
    ensures
        final(out)@.len() == old(out)@.len() + b.j_count(),
        forall|i: int| 0 <= i < old(out)@.len() ==> final(out)@[i] == old(out)@[i],
        quality_section(*b, final(out)@, old(out)@.len() as int),
{
    let nm = b.materials.len();
    let nj = b.products.len();
    let base = out.len();
    let mut j: usize = 0;
    while j < nj
        invariant
            j <= nj,
            nj == b.products@.len(),
            nm == b.materials@.len(),
            b.wf(),
            b.sizes_ok(),
            out@.len() == base + j,
            forall|i: int| 0 <= i < base ==> out@[i] == old(out)@[i],
            forall|j2: int|
                0 <= j2 < j ==> is_quality_constraint(*b, j2, #[trigger] out@[base + j2]),
        decreases nj - j,
    {
        let mut terms: Vec<LinTerm> = Vec::new();
        let mut i: usize = 0;
        while i < nm
            invariant
                i <= nm,
                j < nj,
                nj == b.products@.len(),
                nm == b.materials@.len(),
                b.wf(),
                b.sizes_ok(),
                terms@.len() == i,
                forall|i2: int|
                    0 <= i2 < i ==> (#[trigger] terms@[i2]).var as int == b.blend_id(i2, j as int)
                        && terms@[i2].coef == b.materials@[i2].quality,
            decreases nm - i,
        {
            terms.push(LinTerm { var: blend_var(b, i, j), coef: b.materials[i].quality });
            i = i + 1;
        }
        terms.push(LinTerm { var: output_var(b, j), coef: -b.products[j].min_quality });
        out.push(
            Constraint {
                expr: LinearExpression { terms },
                op: Relation::Ge,
                rhs: 0,
                tag: ConstraintTag::Quality,
            },
        );
        j = j + 1;
    }
}

/// The value of the first `n` quality terms is the partial weighted sum.
pub(crate) proof fn lemma_weighted_eval(
    b: BlendingProblem,
    terms: Seq<LinTerm>,
    vals: Seq<i64>,
    j: int,
    n: int,
)
    requires
        terms.len() >= b.m_count(),
        forall|i: int|
            0 <= i < b.m_count() ==> (#[trigger] terms[i]).var as int == b.blend_id(i, j)
                && terms[i].coef == b.materials@[i].quality,
        0 <= n <= b.m_count(),
    ensures
        eval_prefix(terms, vals, n) == weighted_prefix(b, vals, j, n),
    decreases n,
{
    if n > 0 {
        lemma_weighted_eval(b, terms, vals, j, n - 1);
    }
}

/// Quality threshold met: in any assignment satisfying the quality
/// constraints, the quality-weighted blend sum of each product reaches the
/// required quality times the output.
pub proof fn lemma_quality_met(
    b: BlendingProblem,
    cs: Seq<Constraint>,
    off: int,
    vals: Seq<i64>,
    j: int,
)
    requires
        b.wf(),
        b.sizes_ok(),
        quality_section(b, cs, off),
        all_sat(cs, vals),
        0 <= j < b.j_count(),
    ensures
        weighted_quality(b, vals, j) >= b.products@[j].min_quality * vals[b.out_id(j)],
{
    let c = cs[off + j];
    assert(constraint_sat(c, vals));
    let s = c.expr.terms@;
    let nm = b.m_count();
    lemma_weighted_eval(b, s, vals, j, nm);
    assert(eval_prefix(s, vals, nm + 1) == eval_prefix(s, vals, nm) + s[nm].coef * vals[s[nm].var as int]);
    lemma_mul_neg_flip(s[nm].coef, b.products@[j].min_quality, vals[s[nm].var as int]);
}

/// Amount of material `i` used by the first `n` products.
pub open spec fn usage_prefix(b: BlendingProblem, vals: Seq<i64>, i: int, n: int) -> int
    decreases n,
{
    if n <= 0 {
        0
    } else {
        usage_prefix(b, vals, i, n - 1) + vals[b.blend_id(i, n - 1)]
    }
}

/// Total amount of material `i` used under `vals`.
pub open spec fn material_usage(b: BlendingProblem, vals: Seq<i64>, i: int) -> int {
    usage_prefix(b, vals, i, b.j_count())
}

/// The availability constraint of material `i`: its use over all products
/// stays within the stated maximum.
pub open spec fn is_availability_constraint(b: BlendingProblem, i: int, c: Constraint) -> bool {
    &&& c.op == Relation::Le
    &&& c.tag == ConstraintTag::Availability
    &&& c.rhs == b.materials@[i].max_available
    &&& c.expr.terms@.len() == b.j_count()
    &&& forall|j: int|
        0 <= j < b.j_count() ==> (#[trigger] c.expr.terms@[j]).var as int == b.blend_id(i, j)
            && c.expr.terms@[j].coef == 1
}

/// `cs` holds the availability constraints starting at `off`, one per
/// material.
pub open spec fn availability_section(b: BlendingProblem, cs: Seq<Constraint>, off: int) -> bool {
    &&& 0 <= off
    &&& off + b.m_count() <= cs.len()
    &&& forall|i: int|
        0 <= i < b.m_count() ==> is_availability_constraint(b, i, #[trigger] cs[off + i])
}

/// Build the availability constraints, appended to `out`, one per material.
pub fn build_availability(b: &BlendingProblem, out: &mut Vec<Constraint>)
    requires
        b.wf(),
        b.sizes_ok(),
    ensures
        final(out)@.len() == old(out)@.len() + b.m_count(),
        forall|i: int| 0 <= i < old(out)@.len() ==> final(out)@[i] == old(out)@[i],
        availability_section(*b, final(out)@, old(out)@.len() as int),
{
    let nm = b.materials.len();
    let nj = b.products.len();
    let base = out.len();
    let mut i: usize = 0;
    while i < nm
        invariant
            i <= nm,
            nj == b.products@.len(),
            nm == b.materials@.len(),
            b.wf(),
            b.sizes_ok(),
            out@.len() == base + i,
            forall|k: int| 0 <= k < base ==> out@[k] == old(out)@[k],
            forall|i2: int|
                0 <= i2 < i ==> is_availability_constraint(*b, i2, #[trigger] out@[base + i2]),
        decreases nm - i,
    {
        let mut terms: Vec<LinTerm> = Vec::new();
        let mut j: usize = 0;
        while j < nj
            invariant
                j <= nj,
                i < nm,
                nj == b.products@.len(),
                nm == b.materials@.len(),
                b.wf(),
                b.sizes_ok(),
                terms@.len() == j,
                forall|j2: int|
                    0 <= j2 < j ==> (#[trigger] terms@[j2]).var as int == b.blend_id(i as int, j2)
                        && terms@[j2].coef == 1,
            decreases nj - j,
        {
            terms.push(LinTerm { var: blend_var(b, i, j), coef: 1 });
            j = j + 1;
        }
        out.push(
            Constraint {
                expr: LinearExpression { terms },
                op: Relation::Le,
                rhs: b.materials[i].max_available,
                tag: ConstraintTag::Availability,
            },
        );
        i = i + 1;
    }
}

/// The value of the first `n` availability terms is the partial usage.
proof fn lemma_usage_eval(b: BlendingProblem, terms: Seq<LinTerm>, vals: Seq<i64>, i: int, n: int)
    requires
        terms.len() == b.j_count(),
        forall|j: int|
            0 <= j < b.j_count() ==> (#[trigger] terms[j]).var as int == b.blend_id(i, j)
                && terms[j].coef == 1,
        0 <= n <= b.j_count(),
    ensures
        eval_prefix(terms, vals, n) == usage_prefix(b, vals, i, n),
    decreases n,
{
    if n > 0 {
        lemma_usage_eval(b, terms, vals, i, n - 1);
        lemma_mul_unit(terms[n - 1].coef, vals[terms[n - 1].var as int]);
    }
}

/// Material availability respected: in any assignment satisfying the
/// availability constraints, the use of each material stays within its
/// stated maximum.
pub proof fn lemma_availability_respected(
    b: BlendingProblem,
    cs: Seq<Constraint>,
    off: int,
    vals: Seq<i64>,
    i: int,
)
    requires
        b.wf(),
        b.sizes_ok(),
        availability_section(b, cs, off),
        all_sat(cs, vals),
        0 <= i < b.m_count(),
    ensures
        material_usage(b, vals, i) <= b.materials@[i].max_available,
{
    let c = cs[off + i];
    assert(constraint_sat(c, vals));
    lemma_usage_eval(b, c.expr.terms@, vals, i, b.j_count());
}

/// With non-negative values, the partial blend sums grow with `n`.
proof fn lemma_blend_sum_prefix_mono(
    b: BlendingProblem,
    vals: Seq<i64>,
    j: int,
    n1: int,
    n2: int,
)
    requires
        b.sizes_ok(),
        vals.len() >= b.n_vars(),
        nonneg_values(vals),
        0 <= j < b.j_count(),
        0 <= n1 <= n2 <= b.m_count(),
    ensures
        blend_sum_prefix(b, vals, j, n1) <= blend_sum_prefix(b, vals, j, n2),
    decreases n2,
{
    if n2 > n1 {
        lemma_blend_sum_prefix_mono(b, vals, j, n1, n2 - 1);
        lemma_pair_index_bound(n2 - 1, j, b.m_count(), b.j_count());
        assert(vals[b.blend_id(n2 - 1, j)] >= 0);
    }
}

/// Each blend amount stays within the total blended into its product.
pub proof fn lemma_blend_component_bounded(b: BlendingProblem, vals: Seq<i64>, j: int, i: int)
    requires
        b.sizes_ok(),
        vals.len() >= b.n_vars(),
        nonneg_values(vals),
        0 <= j < b.j_count(),
        0 <= i < b.m_count(),
    ensures
        vals[b.blend_id(i, j)] <= blend_total(b, vals, j),
        vals[b.blend_id(i, j)] >= 0,
        blend_total(b, vals, j) >= 0,
    decreases i,
{
    lemma_blend_sum_prefix_mono(b, vals, j, 0, i);
    lemma_blend_sum_prefix_mono(b, vals, j, i + 1, b.m_count());
    lemma_pair_index_bound(i, j, b.m_count(), b.j_count());
    assert(blend_sum_prefix(b, vals, j, i + 1) == blend_sum_prefix(b, vals, j, i) + vals[b.blend_id(
        i,
        j,
    )]);
    assert(vals[b.blend_id(i, j)] >= 0);
}

/// Revenue of the first `n` products: selling price times output.
pub open spec fn revenue_prefix(b: BlendingProblem, vals: Seq<i64>, n: int) -> int
    decreases n,
{
    if n <= 0 {
        0
    } else {
        revenue_prefix(b, vals, n - 1) + b.products@[n - 1].selling_price * vals[b.out_id(n - 1)]
    }
}

/// Cost of material `i` over the first `n` products.
pub open spec fn material_cost_products(b: BlendingProblem, vals: Seq<i64>, i: int, n: int) -> int
    decreases n,
{
    if n <= 0 {
        0
    } else {
        material_cost_products(b, vals, i, n - 1) + b.materials@[i].cost * vals[b.blend_id(
            i,
            n - 1,
        )]
    }
}

/// Cost of the first `n` materials over all products.
pub open spec fn material_cost_prefix(b: BlendingProblem, vals: Seq<i64>, n: int) -> int
    decreases n,
{
    if n <= 0 {
        0
    } else {
        material_cost_prefix(b, vals, n - 1) + material_cost_products(
            b,
            vals,
            n - 1,
            b.j_count(),
        )
    }
}

/// Total blending profit of `vals`: revenue over all products minus material
/// cost over all materials.
pub open spec fn blend_profit(b: BlendingProblem, vals: Seq<i64>) -> int {
    revenue_prefix(b, vals, b.j_count()) - material_cost_prefix(b, vals, b.m_count())
}

/// The blending objective: maximize revenue minus material cost, with one
/// price term per output first, then one negated-cost term per blend
/// variable in material-major order.
pub open spec fn is_blending_objective(b: BlendingProblem, o: Objective) -> bool {
    &&& o.sense == Sense::Maximize
    &&& o.expr.terms@.len() == b.n_vars()
    &&& forall|j: int|
        0 <= j < b.j_count() ==> (#[trigger] o.expr.terms@[j]).var as int == b.out_id(j)
            && o.expr.terms@[j].coef == b.products@[j].selling_price
    &&& forall|i: int, j: int|
        0 <= i < b.m_count() && 0 <= j < b.j_count() ==> (#[trigger] o.expr.terms@[b.blend_id(
            i,
            j,
        )]).var as int == b.blend_id(i, j) && o.expr.terms@[b.blend_id(i, j)].coef as int == -(
        b.materials@[i].cost as int)
}

/// Build the blending objective: maximize selling revenue minus material
/// cost.
pub fn build_blending_objective(b: &BlendingProblem) -> (o: Objective)
    requires
        b.wf(),
        b.sizes_ok(),
    ensures
        is_blending_objective(*b, o),
{
    let nm = b.materials.len();
    let nj = b.products.len();
    let mut terms: Vec<LinTerm> = Vec::new();
    let mut j: usize = 0;
    while j < nj
        invariant
            j <= nj,
            nj == b.products@.len(),
            nm == b.materials@.len(),
            b.wf(),
            b.sizes_ok(),
            terms@.len() == j,
            forall|j2: int|
                0 <= j2 < j ==> (#[trigger] terms@[j2]).var as int == b.out_id(j2)
                    && terms@[j2].coef == b.products@[j2].selling_price,
        decreases nj - j,
    {
        terms.push(LinTerm { var: output_var(b, j), coef: b.products[j].selling_price });
        j = j + 1;
    }
    let mut i: usize = 0;
    while i < nm
        invariant
            i <= nm,
            nj == b.products@.len(),
            nm == b.materials@.len(),
            b.wf(),
            b.sizes_ok(),
            terms@.len() == nj + i * nj,
            forall|j2: int|
                0 <= j2 < nj ==> (#[trigger] terms@[j2]).var as int == b.out_id(j2)
                    && terms@[j2].coef == b.products@[j2].selling_price,
            forall|i2: int, j2: int|
                0 <= i2 < i && 0 <= j2 < nj ==> (#[trigger] terms@[b.blend_id(i2, j2)]).var as int
                    == b.blend_id(i2, j2) && terms@[b.blend_id(i2, j2)].coef as int == -(
                b.materials@[i2].cost as int),
        decreases nm - i,
    {
        let mut j: usize = 0;
        while j < nj
            invariant
                j <= nj,
                i < nm,
                nj == b.products@.len(),
                nm == b.materials@.len(),
                b.wf(),
                b.sizes_ok(),
                terms@.len() == nj + i * nj + j,
                forall|j2: int|
                    0 <= j2 < nj ==> (#[trigger] terms@[j2]).var as int == b.out_id(j2)
                        && terms@[j2].coef == b.products@[j2].selling_price,
                forall|i2: int, j2: int|
                    0 <= i2 < i && 0 <= j2 < nj ==> (#[trigger] terms@[b.blend_id(i2, j2)]).var as int
                        == b.blend_id(i2, j2) && terms@[b.blend_id(i2, j2)].coef as int == -(
                    b.materials@[i2].cost as int),
                forall|j2: int|
                    0 <= j2 < j ==> (#[trigger] terms@[b.blend_id(i as int, j2)]).var as int
                        == b.blend_id(i as int, j2) && terms@[b.blend_id(i as int, j2)].coef as int
                        == -(b.materials@[i as int].cost as int),
            decreases nj - j,
        {
            let ghost pre = terms@;
            terms.push(LinTerm { var: blend_var(b, i, j), coef: -b.materials[i].cost });
            proof {
                assert forall|i2: int, j2: int|
                    0 <= i2 < i && 0 <= j2 < nj implies (#[trigger] terms@[b.blend_id(
                    i2,
                    j2,
                )]).var as int == b.blend_id(i2, j2) && terms@[b.blend_id(i2, j2)].coef as int
                    == -(b.materials@[i2].cost as int) by {
                    lemma_pair_index_bound(i2, j2, i as int, nj as int);
                    assert(terms@[b.blend_id(i2, j2)] == pre[b.blend_id(i2, j2)]);
                }
                assert forall|j2: int|
                    0 <= j2 < j + 1 implies (#[trigger] terms@[b.blend_id(i as int, j2)]).var as int
                    == b.blend_id(i as int, j2) && terms@[b.blend_id(i as int, j2)].coef as int
                    == -(b.materials@[i as int].cost as int) by {
                    if j2 < j {
                        assert(terms@[b.blend_id(i as int, j2)] == pre[b.blend_id(i as int, j2)]);
                    } else {
                        assert(b.blend_id(i as int, j2) == pre.len());
                    }
                }
            }
            j = j + 1;
        }
        proof {
            assert((i + 1) * nj == i * nj + nj) by (nonlinear_arith);
        }
        i = i + 1;
    }
    proof {
        assert(terms@.len() == b.n_vars()) by (nonlinear_arith)
            requires
                terms@.len() == (nj as int) + (nm as int) * (nj as int) && b.n_vars() == (
                nj as int) + (nm as int) * (nj as int),
        ;
    }
    Objective { expr: LinearExpression { terms }, sense: Sense::Maximize }
}

/// The value of the first `n` revenue terms is the partial revenue.
proof fn lemma_revenue_eval(b: BlendingProblem, terms: Seq<LinTerm>, vals: Seq<i64>, n: int)
    requires
        terms.len() >= b.j_count(),
        forall|j: int|
            0 <= j < b.j_count() ==> (#[trigger] terms[j]).var as int == b.out_id(j)
                && terms[j].coef == b.products@[j].selling_price,
        0 <= n <= b.j_count(),
    ensures
        eval_prefix(terms, vals, n) == revenue_prefix(b, vals, n),
    decreases n,
{
    if n > 0 {
        lemma_revenue_eval(b, terms, vals, n - 1);
    }
}

/// The value of an objective prefix covering all outputs, the first `i`
/// whole materials and `j` further products equals revenue minus the
/// corresponding partial material cost.
proof fn lemma_blend_obj_prefix(
    b: BlendingProblem,
    terms: Seq<LinTerm>,
    vals: Seq<i64>,
    i: int,
    j: int,
)
    requires
        terms.len() == b.n_vars(),
        forall|j2: int|
            0 <= j2 < b.j_count() ==> (#[trigger] terms[j2]).var as int == b.out_id(j2)
                && terms[j2].coef == b.products@[j2].selling_price,
        forall|i2: int, j2: int|
            0 <= i2 < b.m_count() && 0 <= j2 < b.j_count() ==> (#[trigger] terms[b.blend_id(
                i2,
                j2,
            )]).var as int == b.blend_id(i2, j2) && terms[b.blend_id(i2, j2)].coef as int == -(
            b.materials@[i2].cost as int),
        0 <= i <= b.m_count(),
        0 <= j <= b.j_count(),
        i == b.m_count() ==> j == 0,
    ensures
        eval_prefix(terms, vals, b.j_count() + (i * b.j_count() + j)) == revenue_prefix(
            b,
            vals,
            b.j_count(),
        ) - (material_cost_prefix(b, vals, i) + material_cost_products(b, vals, i, j)),
    decreases i, j,
{
    let nj = b.j_count();
    if j > 0 {
        lemma_blend_obj_prefix(b, terms, vals, i, j - 1);
        let k = nj + (i * nj + (j - 1));
        assert(terms[b.blend_id(i, j - 1)].var as int == b.blend_id(i, j - 1));
        assert(b.blend_id(i, j - 1) == k);
        assert(eval_prefix(terms, vals, k + 1) == eval_prefix(terms, vals, k) + terms[k].coef
            * vals[terms[k].var as int]);
        lemma_mul_neg_flip(terms[k].coef, b.materials@[i].cost, vals[terms[k].var as int]);
        assert(material_cost_products(b, vals, i, j) == material_cost_products(b, vals, i, j - 1)
            + b.materials@[i].cost * vals[b.blend_id(i, j - 1)]);
        assert(eval_prefix(terms, vals, nj + (i * nj + j)) == revenue_prefix(b, vals, nj) - (
        material_cost_prefix(b, vals, i) + material_cost_products(b, vals, i, j)));
    } else if i > 0 {
        lemma_blend_obj_prefix(b, terms, vals, i - 1, nj);
        assert(nj + ((i - 1) * nj + nj) == nj + (i * nj + 0)) by (nonlinear_arith);
        assert(material_cost_prefix(b, vals, i) == material_cost_prefix(b, vals, i - 1)
            + material_cost_products(b, vals, i - 1, nj));
        assert(eval_prefix(terms, vals, nj + (i * nj + 0)) == revenue_prefix(b, vals, nj) - (
        material_cost_prefix(b, vals, i) + material_cost_products(b, vals, i, 0)));
    } else {
        assert(nj + (i * nj + j) == nj) by (nonlinear_arith)
            requires
                i == 0 && j == 0,
        ;
        lemma_revenue_eval(b, terms, vals, nj);
    }
}

/// Objective consistency: the value of the blending objective expression
/// under an assignment equals revenue minus material cost independently
/// recomputed from the prices, costs and the same assignment's variable
/// values.
pub proof fn lemma_blending_objective_value(b: BlendingProblem, o: Objective, vals: Seq<i64>)
    requires
        is_blending_objective(b, o),
    ensures
        eval_terms(o.expr.terms@, vals) == blend_profit(b, vals),
{
    lemma_blend_obj_prefix(b, o.expr.terms@, vals, b.m_count(), 0);
    assert(b.j_count() + (b.m_count() * b.j_count() + 0) == b.n_vars());
}

/// A composition report is owed for every accepted assignment: when every
/// constraint of the blending model can be evaluated on the machine, so can
/// the quality-weighted terms of every product, because they are the first
/// terms of its quality constraint.
pub proof fn lemma_composition_owed(b: BlendingProblem, cs: Seq<Constraint>, vals: Seq<i64>)
    requires
        b.wf(),
        b.sizes_ok(),
        quality_section(b, cs, b.j_count()),
        all_eval_ok(cs, vals),
    ensures
        forall|j: int| 0 <= j < b.j_count() ==> eval_ok(#[trigger] quality_term_seq(b, j), vals),
{
    assert forall|j: int|
        0 <= j < b.j_count() implies eval_ok(#[trigger] quality_term_seq(b, j), vals) by {
        let c = cs[b.j_count() + j];
        assert(eval_ok(c.expr.terms@, vals));
        lemma_eval_ok_prefix_mono(c.expr.terms@, vals, b.m_count(), b.m_count() + 1);
        assert forall|i: int|
            0 <= i < b.m_count() implies #[trigger] c.expr.terms@[i] == quality_term_seq(b, j)[i] by {
            lemma_pair_index_bound(i, j, b.m_count(), b.j_count());
        }
        lemma_eval_prefix_agree(c.expr.terms@, quality_term_seq(b, j), vals, b.m_count());
        assert(eval_ok_prefix(quality_term_seq(b, j), vals, b.m_count()));
    }
}

/// `cs` is exactly the constraint set of the blending model: the
/// mass-balance constraints, then the quality constraints, then the
/// availability constraints.
pub open spec fn blending_constraints(b: BlendingProblem, cs: Seq<Constraint>) -> bool {
    &&& cs.len() == b.j_count() + b.j_count() + b.m_count()
    &&& mass_balance_section(b, cs, 0)
    &&& quality_section(b, cs, b.j_count())
    &&& availability_section(b, cs, b.j_count() + b.j_count())
}

/// Everything the blending pipeline builds for one problem.
#[derive(Clone, Debug)]
pub struct BlendingBuild {
    pub problem: BlendingProblem,
    pub registry: Registry,
    pub constraints: Vec<Constraint>,
    pub objective: Objective,
}

impl BlendingBuild {
    /// The build is consistent with its own problem: the registry holds the
    /// blending layout, the constraints are the mass-balance, quality and
    /// availability sets, and the objective maximizes the blending profit.
    pub open spec fn wf(self) -> bool {
        &&& self.problem.wf()
        &&& self.problem.sizes_ok()
        &&& self.registry.wf()
        &&& blending_registry(self.problem, self.registry)
        &&& blending_constraints(self.problem, self.constraints@)
        &&& is_blending_objective(self.problem, self.objective)
    }
}

/// Validate the blending input and build the whole model: decision
/// variables, mass-balance, quality and availability constraints, and the
/// profit objective. Succeeds exactly on well-formed input; a negative value
/// is reported before any variable is registered.
pub fn build_blending(problem: BlendingProblem) -> (r: Result<BlendingBuild, ValidationError>)
    requires
        problem.j_count() + problem.m_count() * problem.j_count() <= usize::MAX,
    ensures
        r is Ok <==> problem.wf(),
        r is Err ==> r == Err::<BlendingBuild, ValidationError>(ValidationError::NegativeValue),
        r is Ok ==> r->Ok_0.wf() && r->Ok_0.problem == problem,
{
    match validate_blending(&problem) {
        Ok(()) => {},
        Err(e) => {
            return Err(e);
        },
    }
    let registry = register_blending_vars(&problem);
    let mut constraints: Vec<Constraint> = Vec::new();
    build_mass_balance(&problem, &mut constraints);
    let ghost c_mass = constraints@;
    build_quality(&problem, &mut constraints);
    let ghost c_qual = constraints@;
    build_availability(&problem, &mut constraints);
    let objective = build_blending_objective(&problem);
    proof {
        let nj = problem.j_count();
        let nm = problem.m_count();
        assert(mass_balance_section(problem, constraints@, 0)) by {
            assert forall|j2: int|
                0 <= j2 < nj implies is_mass_balance_constraint(
                    problem,
                    j2,
                    #[trigger] constraints@[0 + j2],
                ) by {
                assert(is_mass_balance_constraint(problem, j2, c_mass[0 + j2]));
                assert(c_qual[0 + j2] == c_mass[0 + j2]);
                assert(constraints@[0 + j2] == c_qual[0 + j2]);
            }
        }
        assert(quality_section(problem, constraints@, nj)) by {
            assert forall|j2: int|
                0 <= j2 < nj implies is_quality_constraint(
                    problem,
                    j2,
                    #[trigger] constraints@[nj + j2],
                ) by {
                assert(is_quality_constraint(problem, j2, c_qual[nj + j2]));
                assert(constraints@[nj + j2] == c_qual[nj + j2]);
            }
        }
    }
    Ok(BlendingBuild { problem, registry, constraints, objective })
}

} // verus!
