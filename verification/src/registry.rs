//! The variable registry: decision variables indexed by composite key, with
//! bounds and integrality flags. Registration is idempotent per key.

use vstd::prelude::*;

use crate::errors::RegistryError;
use crate::linear::VarId;

verus! {

/// Composite key of a decision variable: a kind tag with its index pair.
#[derive(Clone, Copy, PartialEq, Eq, Structural, Debug)]
pub enum VarKey {
    /// Amount of `product` produced in `period`.
    Production { product: usize, period: usize },
    /// Amount of `product` held in stock at the end of `period`.
    Inventory { product: usize, period: usize },
    /// Amount of raw `material` blended into `product`.
    Blend { material: usize, product: usize },
}

/// A registered decision variable: key, bounds and integrality flag.
#[derive(Clone, Copy, PartialEq, Eq, Debug)]
pub struct VariableDef {
    pub key: VarKey,
    pub lower: i64,
    pub upper: Option<i64>,
    pub integral: bool,
}

/// Creates and indexes decision variables; identifiers are indices into
/// `vars`, handed out in registration order.
#[derive(Clone, Debug)]
pub struct Registry {
    pub vars: Vec<VariableDef>,
}

impl Registry {
    /// The registry holds a registered variable under this key.
    pub open spec fn contains_key(self, key: VarKey) -> bool {
        exists|i: int| 0 <= i < self.vars@.len() && (#[trigger] self.vars@[i]).key == key
    }

    /// Well-formedness: keys are unique, every lower bound is non-negative,
    /// every upper bound is at or above its lower bound, and only production
    /// variables carry an integrality flag.
    pub open spec fn wf(self) -> bool {
        &&& forall|i: int, j: int|
            0 <= i < j < self.vars@.len() ==> (#[trigger] self.vars@[i]).key != (
            #[trigger] self.vars@[j]).key
        &&& forall|i: int|
            0 <= i < self.vars@.len() ==> (#[trigger] self.vars@[i]).lower >= 0
        &&& forall|i: int|
            0 <= i < self.vars@.len() ==> ((#[trigger] self.vars@[i]).upper is Some
                ==> self.vars@[i].upper->0 >= self.vars@[i].lower)
        &&& forall|i: int|
            0 <= i < self.vars@.len() ==> ((#[trigger] self.vars@[i]).integral
                ==> self.vars@[i].key is Production)
    }

    /// An empty registry.
    pub fn new() -> (r: Registry)
        ensures
            r.wf(),
            r.vars@.len() == 0,
    {
        Registry { vars: Vec::new() }
    }

    /// Index of the variable registered under `key`, if any.
    fn find(&self, key: VarKey) -> (r: Option<usize>)
        ensures
            match r {
                Some(i) => i < self.vars@.len() && self.vars@[i as int].key == key,
                None => !self.contains_key(key),
            },
    {
        let n = self.vars.len();
        let mut i: usize = 0;
        while i < n
            invariant
                i <= n,
                n == self.vars@.len(),
                forall|j: int| 0 <= j < i ==> (#[trigger] self.vars@[j]).key != key,
            decreases n - i,
        {
            if self.vars[i].key == key {
                return Some(i);
            }
            i = i + 1;
        }
        None
    }

    /// Register a variable under a unique composite key.
    ///
    /// Idempotent per key: a second registration of the same key returns the
    /// identifier of the existing variable and leaves the registry unchanged,
    /// so constraints already referencing it are not duplicated. Rejected
    /// with `InvalidBounds`: a negative lower bound, an upper bound below the
    /// lower bound, or an integrality flag on a key that is not a production
    /// quantity.
    pub fn register(
        &mut self,
        key: VarKey,
        lower: i64,
        upper: Option<i64>,
        integral: bool,
    ) -> (r: Result<VarId, RegistryError>)
        requires
            old(self).wf(),
        ensures
            final(self).wf(),
            (lower < 0 || (upper is Some && upper->0 < lower) || (integral && !(
            key is Production))) <==> r == Err::<VarId, RegistryError>(
                RegistryError::InvalidBounds,
            ),
            r is Err ==> final(self).vars@ == old(self).vars@ && r == Err::<VarId, RegistryError>(
                RegistryError::InvalidBounds,
            ),
            r is Ok ==> {
                let id = r->Ok_0;
                &&& id < final(self).vars@.len()
                &&& final(self).vars@[id as int].key == key
                &&& if old(self).contains_key(key) {
                    &&& final(self).vars@ == old(self).vars@
                    &&& id < old(self).vars@.len()
                } else {
                    &&& id == old(self).vars@.len()
                    &&& final(self).vars@ == old(self).vars@.push(
                        VariableDef { key, lower, upper, integral },
                    )
                }
            },
    {
        let bad_upper = match upper {
            Some(u) => u < lower,
            None => false,
        };
        let bad_integral = integral && !matches!(key, VarKey::Production { .. });
        if lower < 0 || bad_upper || bad_integral {
            return Err(RegistryError::InvalidBounds);
        }
        match self.find(key) {
            Some(i) => Ok(i),
            None => {
                let id = self.vars.len();
                self.vars.push(VariableDef { key, lower, upper, integral });
                proof {
                    assert forall|i: int, j: int|
                        0 <= i < j < self.vars@.len() implies (#[trigger] self.vars@[i]).key != (
                    #[trigger] self.vars@[j]).key by {
                        if j == self.vars@.len() - 1 {
                            assert(!old(self).contains_key(key));
                            assert(old(self).vars@[i].key != key);
                        }
                    }
                }
                Ok(id)
            },
        }
    }

    /// Identifier of the variable registered under `key`.
    ///
    /// Fails with `UnknownVariable` exactly when no variable carries the key.
    pub fn lookup(&self, key: VarKey) -> (r: Result<VarId, RegistryError>)
        ensures
            r is Ok <==> self.contains_key(key),
            r is Ok ==> r->Ok_0 < self.vars@.len() && self.vars@[r->Ok_0 as int].key == key,
            r is Err ==> r == Err::<VarId, RegistryError>(RegistryError::UnknownVariable),
    {
        match self.find(key) {
            Some(i) => Ok(i),
            None => Err(RegistryError::UnknownVariable),
        }
    }

    /// `vals` assigns one value to each registered variable and respects
    /// every variable's bounds.
    pub open spec fn bounds_ok(self, vals: Seq<i64>) -> bool {
        &&& vals.len() == self.vars@.len()
        &&& forall|i: int|
            0 <= i < vals.len() ==> (#[trigger] self.vars@[i]).lower <= vals[i]
        &&& forall|i: int|
            0 <= i < vals.len() ==> ((#[trigger] self.vars@[i]).upper is Some ==> vals[i]
                <= self.vars@[i].upper->0)
    }

    /// Decide on the machine whether `vals` respects all variable bounds.
    pub fn check_bounds(&self, vals: &Vec<i64>) -> (r: bool)
        ensures
            r == self.bounds_ok(vals@),
    {
        if vals.len() != self.vars.len() {
            return false;
        }
        let n = self.vars.len();
        let mut i: usize = 0;
        while i < n
            invariant
                i <= n,
                n == self.vars@.len(),
                vals@.len() == n,
                forall|j: int| 0 <= j < i ==> (#[trigger] self.vars@[j]).lower <= vals@[j],
                forall|j: int|
                    0 <= j < i ==> ((#[trigger] self.vars@[j]).upper is Some ==> vals@[j]
                        <= self.vars@[j].upper->0),
            decreases n - i,
        {
            let def = &self.vars[i];
            if vals[i] < def.lower {
                return false;
            }
            match def.upper {
                Some(u) => {
                    if vals[i] > u {
                        return false;
                    }
                },
                None => {},
            }
            i = i + 1;
        }
        true
    }
}

/// In a well-formed registry a key identifies one variable: two identifiers
/// carrying the same key are the same identifier. Together with the contract
/// of `register` this is the idempotence of registration: a repeated
/// registration hands back the identifier of the first.
pub proof fn lemma_register_idempotent(reg: Registry, id1: VarId, id2: VarId)
    requires
        reg.wf(),
        id1 < reg.vars@.len(),
        id2 < reg.vars@.len(),
        reg.vars@[id1 as int].key == reg.vars@[id2 as int].key,
    ensures
        id1 == id2,
{
    if id1 < id2 {
        assert(reg.vars@[id1 as int].key != reg.vars@[id2 as int].key);
    } else if id2 < id1 {
        assert(reg.vars@[id2 as int].key != reg.vars@[id1 as int].key);
    }
}

} // verus!
