//! Linear expressions, constraints and objectives over decision variables,
//! with their mathematical value under an assignment of variable values.

use vstd::prelude::*;

use crate::errors::ReportingError;

verus! {

/// Identifier of a registered decision variable: its index in the registry.
pub type VarId = usize;

/// One `coefficient * variable` term of a linear expression.
#[derive(Clone, Copy, PartialEq, Eq, Structural, Debug)]
pub struct LinTerm {
    pub var: VarId,
    pub coef: i64,
}

/// A linear expression: the sum of its terms.
#[derive(Clone, Debug)]
pub struct LinearExpression {
    pub terms: Vec<LinTerm>,
}

/// Relational operator of a constraint.
#[derive(Clone, Copy, PartialEq, Eq, Structural, Debug)]
pub enum Relation {
    Le,
    Ge,
    Eq,
}

/// Optimization direction of an objective.
#[derive(Clone, Copy, PartialEq, Eq, Structural, Debug)]
pub enum Sense {
    Minimize,
    Maximize,
}

/// Purpose tag of a constraint, kept for traceability; opaque to solving.
#[derive(Clone, Copy, PartialEq, Eq, Structural, Debug)]
pub enum ConstraintTag {
    Balance,
    Capacity,
    Quality,
    SafetyStock,
    MassBalance,
    Availability,
}

/// A linear constraint `expr op rhs`.
#[derive(Clone, Debug)]
pub struct Constraint {
    pub expr: LinearExpression,
    pub op: Relation,
    pub rhs: i64,
    pub tag: ConstraintTag,
}

/// A linear objective with its optimization sense.
#[derive(Clone, Debug)]
pub struct Objective {
    pub expr: LinearExpression,
    pub sense: Sense,
}

/// Mathematical value of the first `n` terms under `vals`.
pub open spec fn eval_prefix(terms: Seq<LinTerm>, vals: Seq<i64>, n: int) -> int
    decreases n,
{
    if n <= 0 {
        0
    } else {
        eval_prefix(terms, vals, n - 1) + terms[n - 1].coef * vals[terms[n - 1].var as int]
    }
}

/// Mathematical value of a whole expression under `vals`.
pub open spec fn eval_terms(terms: Seq<LinTerm>, vals: Seq<i64>) -> int {
    eval_prefix(terms, vals, terms.len() as int)
}

/// Every variable named by a term exists in `vals`.
pub open spec fn vars_in_range(terms: Seq<LinTerm>, vals: Seq<i64>) -> bool {
    forall|i: int| 0 <= i < terms.len() ==> #[trigger] terms[i].var < vals.len()
}

/// The first `n` terms can be evaluated on the machine: every variable they
/// name exists and every partial sum stays within the `i64` range.
pub open spec fn eval_ok_prefix(terms: Seq<LinTerm>, vals: Seq<i64>, n: int) -> bool
    decreases n,
{
    if n <= 0 {
        true
    } else {
        &&& eval_ok_prefix(terms, vals, n - 1)
        &&& terms[n - 1].var < vals.len()
        &&& i64::MIN <= eval_prefix(terms, vals, n) <= i64::MAX
    }
}

/// A whole expression can be evaluated on the machine.
pub open spec fn eval_ok(terms: Seq<LinTerm>, vals: Seq<i64>) -> bool {
    eval_ok_prefix(terms, vals, terms.len() as int)
}

/// Whether `lhs op rhs` holds.
pub open spec fn rel_holds(op: Relation, lhs: int, rhs: int) -> bool {
    match op {
        Relation::Le => lhs <= rhs,
        Relation::Ge => lhs >= rhs,
        Relation::Eq => lhs == rhs,
    }
}

/// Whether `vals` satisfies the constraint.
pub open spec fn constraint_sat(c: Constraint, vals: Seq<i64>) -> bool {
    rel_holds(c.op, eval_terms(c.expr.terms@, vals), c.rhs as int)
}

/// Whether `vals` satisfies every constraint of the set.
pub open spec fn all_sat(cs: Seq<Constraint>, vals: Seq<i64>) -> bool {
    forall|i: int| 0 <= i < cs.len() ==> constraint_sat(#[trigger] cs[i], vals)
}

/// Every constraint of the set can be evaluated on the machine.
pub open spec fn all_eval_ok(cs: Seq<Constraint>, vals: Seq<i64>) -> bool {
    forall|i: int| 0 <= i < cs.len() ==> eval_ok((#[trigger] cs[i]).expr.terms@, vals)
}

/// Machine evaluability of a prefix extends to every shorter prefix.
pub proof fn lemma_eval_ok_prefix_mono(terms: Seq<LinTerm>, vals: Seq<i64>, m: int, n: int)
    requires
        0 <= m <= n,
        eval_ok_prefix(terms, vals, n),
    ensures
        eval_ok_prefix(terms, vals, m),
    decreases n,
{
    if m < n {
        lemma_eval_ok_prefix_mono(terms, vals, m, n - 1);
    }
}

/// Evaluation of a prefix reads only the terms of that prefix: two term
/// sequences that agree there evaluate alike.
pub proof fn lemma_eval_prefix_agree(s1: Seq<LinTerm>, s2: Seq<LinTerm>, vals: Seq<i64>, n: int)
    requires
        forall|i: int| 0 <= i < n ==> #[trigger] s1[i] == s2[i],
    ensures
        eval_prefix(s1, vals, n) == eval_prefix(s2, vals, n),
        eval_ok_prefix(s1, vals, n) == eval_ok_prefix(s2, vals, n),
    decreases n,
{
    if n > 0 {
        lemma_eval_prefix_agree(s1, s2, vals, n - 1);
    }
}

/// The product of two values in `i64` range stays far inside `i128` range.
pub proof fn lemma_i64_product_bounds(a: int, b: int)
    requires
        i64::MIN <= a <= i64::MAX,
        i64::MIN <= b <= i64::MAX,
    ensures
        -0x40000000000000000000000000000000 <= a * b <= 0x40000000000000000000000000000000,
{
    assert(-0x40000000000000000000000000000000 <= a * b <= 0x40000000000000000000000000000000)
        by (nonlinear_arith)
        requires
            -0x8000000000000000 <= a <= 0x7fffffffffffffff,
            -0x8000000000000000 <= b <= 0x7fffffffffffffff,
    ;
}

/// Every value of the assignment is at or above zero.
pub open spec fn nonneg_values(vals: Seq<i64>) -> bool {
    forall|i: int| 0 <= i < vals.len() ==> #[trigger] vals[i] >= 0
}

/// A coefficient equal to one leaves the variable value unchanged.
pub proof fn lemma_mul_unit(c: i64, v: i64)
    requires
        c == 1,
    ensures
        c * v == v,
{
    assert(c * v == v) by (nonlinear_arith)
        requires
            c == 1,
    ;
}

/// A negated coefficient negates the product.
pub proof fn lemma_mul_neg_flip(c: i64, k: i64, v: i64)
    requires
        c as int == -(k as int),
    ensures
        c * v == -(k * v),
{
    assert(c * v == -(k * v)) by (nonlinear_arith)
        requires
            c as int == -(k as int),
    ;
}

/// Evaluate an expression under concrete variable values.
///
/// Succeeds exactly when every variable the expression names has a value and
/// every partial sum stays within the `i64` range; the result is then the
/// mathematical value of the expression.
pub fn eval_expression(expr: &LinearExpression, vals: &Vec<i64>) -> (r: Result<i64, ReportingError>)
    ensures
        r is Ok <==> eval_ok(expr.terms@, vals@),
        r is Ok ==> r->Ok_0 as int == eval_terms(expr.terms@, vals@),
        r == Err::<i64, ReportingError>(ReportingError::MissingValue) ==> !vars_in_range(
            expr.terms@,
            vals@,
        ),
        vars_in_range(expr.terms@, vals@) && r is Err ==> r == Err::<i64, ReportingError>(
            ReportingError::NumericOverflow,
        ),
{
    let n = expr.terms.len();
    let mut i: usize = 0;
    let mut acc: i64 = 0;
    while i < n
        invariant
            i <= n,
            n == expr.terms@.len(),
            eval_ok_prefix(expr.terms@, vals@, i as int),
            acc as int == eval_prefix(expr.terms@, vals@, i as int),
        decreases n - i,
    {
        let t = expr.terms[i];
        if t.var >= vals.len() {
            proof {
                assert(!eval_ok(expr.terms@, vals@)) by {
                    if eval_ok_prefix(expr.terms@, vals@, n as int) {
                        lemma_eval_ok_prefix_mono(expr.terms@, vals@, i as int + 1, n as int);
                    }
                }
                assert(!vars_in_range(expr.terms@, vals@)) by {
                    assert(expr.terms@[i as int].var >= vals@.len());
                }
            }
            return Err(ReportingError::MissingValue);
        }
        let v = vals[t.var];
        proof {
            lemma_i64_product_bounds(t.coef as int, v as int);
        }
        let prod: i128 = (t.coef as i128) * (v as i128);
        let s: i128 = (acc as i128) + prod;
        if s < i64::MIN as i128 || s > i64::MAX as i128 {
            proof {
                assert(!eval_ok(expr.terms@, vals@)) by {
                    if eval_ok_prefix(expr.terms@, vals@, n as int) {
                        lemma_eval_ok_prefix_mono(expr.terms@, vals@, i as int + 1, n as int);
                    }
                }
            }
            return Err(ReportingError::NumericOverflow);
        }
        acc = s as i64;
        i = i + 1;
    }
    Ok(acc)
}

/// Whether `vals` satisfies the constraint, decided on the machine.
pub fn constraint_satisfied(c: &Constraint, vals: &Vec<i64>) -> (r: Result<bool, ReportingError>)
    ensures
        r is Ok <==> eval_ok(c.expr.terms@, vals@),
        r is Ok ==> (r->Ok_0 <==> constraint_sat(*c, vals@)),
        r == Err::<bool, ReportingError>(ReportingError::MissingValue) ==> !vars_in_range(
            c.expr.terms@,
            vals@,
        ),
        vars_in_range(c.expr.terms@, vals@) && r is Err ==> r == Err::<bool, ReportingError>(
            ReportingError::NumericOverflow,
        ),
{
    match eval_expression(&c.expr, vals) {
        Ok(v) => match c.op {
            Relation::Le => Ok(v <= c.rhs),
            Relation::Ge => Ok(v >= c.rhs),
            Relation::Eq => Ok(v == c.rhs),
        },
        Err(e) => Err(e),
    }
}

/// Whether `vals` satisfies every constraint of the set, decided on the
/// machine. Fails exactly when some constraint cannot be evaluated.
pub fn constraints_satisfied(cs: &Vec<Constraint>, vals: &Vec<i64>) -> (r: Result<
    bool,
    ReportingError,
>)
    ensures
        r is Ok <==> all_eval_ok(cs@, vals@),
        r is Ok ==> (r->Ok_0 <==> all_sat(cs@, vals@)),
{
    let n = cs.len();
    let mut i: usize = 0;
    let mut ok: bool = true;
    while i < n
        invariant
            i <= n,
            n == cs@.len(),
            forall|j: int| 0 <= j < i ==> eval_ok((#[trigger] cs@[j]).expr.terms@, vals@),
            ok <==> (forall|j: int| 0 <= j < i ==> constraint_sat(#[trigger] cs@[j], vals@)),
        decreases n - i,
    {
        match constraint_satisfied(&cs[i], vals) {
            Ok(b) => {
                ok = ok && b;
            },
            Err(e) => {
                return Err(e);
            },
        }
        i = i + 1;
    }
    Ok(ok)
}

} // verus!
