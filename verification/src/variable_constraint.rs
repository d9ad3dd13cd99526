//! Constraints on type variables, and the normal form and substitution of constraints.

use vstd::prelude::*;
use crate::term::{TypeTerm, TermV, ConstraintPair, PairV};
use crate::semantics::spec_normalize;
use crate::substitution::{Substitution, spec_apply};

use crate::constraint_system::STEP_BUDGET;

verus! {

/// What a type variable is constrained to.
#[derive(Debug)]
pub enum VariableConstraint {
    UnconstrainedType,
    Subtype(TypeTerm),
    Trait(TypeTerm),
    Parallel(TypeTerm),
    ValueOf(TypeTerm),
}

/// Model of a variable constraint.
pub enum VarConstraintV {
    UnconstrainedType,
    Subtype(TermV),
    Trait(TermV),
    Parallel(TermV),
    ValueOf(TermV),
}

impl View for VariableConstraint {
    type V = VarConstraintV;

    open spec fn view(&self) -> VarConstraintV {
        match self {
            VariableConstraint::UnconstrainedType => VarConstraintV::UnconstrainedType,
            VariableConstraint::Subtype(t) => VarConstraintV::Subtype(t@),
            VariableConstraint::Trait(t) => VarConstraintV::Trait(t@),
            VariableConstraint::Parallel(t) => VarConstraintV::Parallel(t@),
            VariableConstraint::ValueOf(t) => VarConstraintV::ValueOf(t@),
        }
    }
}

/// The constraint with its term in parameter normal form; `None` where normalization
/// does not finish within the budget.
pub open spec fn spec_normalize_constraint(c: VarConstraintV, fuel: nat) -> Option<VarConstraintV> {
    match c {
        VarConstraintV::UnconstrainedType => Some(VarConstraintV::UnconstrainedType),
        VarConstraintV::Subtype(t) => match spec_normalize(t, fuel) {
            Some(n) => Some(VarConstraintV::Subtype(n)),
            None => None,
        },
        VarConstraintV::Trait(t) => match spec_normalize(t, fuel) {
            Some(n) => Some(VarConstraintV::Trait(n)),
            None => None,
        },
        VarConstraintV::Parallel(t) => match spec_normalize(t, fuel) {
            Some(n) => Some(VarConstraintV::Parallel(n)),
            None => None,
        },
        VarConstraintV::ValueOf(t) => match spec_normalize(t, fuel) {
            Some(n) => Some(VarConstraintV::ValueOf(n)),
            None => None,
        },
    }
}

/// The constraint with a substitution applied: subtype and trait constraints are
/// substituted, parallel and value constraints stay as they are.
pub open spec fn spec_apply_constraint(c: VarConstraintV, s: Map<u64, TermV>) -> VarConstraintV {
    match c {
        VarConstraintV::Subtype(t) => VarConstraintV::Subtype(spec_apply(t, s)),
        VarConstraintV::Trait(t) => VarConstraintV::Trait(spec_apply(t, s)),
        _ => c,
    }
}

/// Both sides of a constraint pair in parameter normal form.
pub open spec fn spec_normalize_pair(p: PairV, fuel: nat) -> Option<PairV> {
    match p {
        PairV::ValueOf(a, b) => match (spec_normalize(a, fuel), spec_normalize(b, fuel)) {
            (Some(x), Some(y)) => Some(PairV::ValueOf(x, y)),
            _ => None,
        },
        PairV::Subtype(a, b) => match (spec_normalize(a, fuel), spec_normalize(b, fuel)) {
            (Some(x), Some(y)) => Some(PairV::Subtype(x, y)),
            _ => None,
        },
        PairV::Trait(a, b) => match (spec_normalize(a, fuel), spec_normalize(b, fuel)) {
            (Some(x), Some(y)) => Some(PairV::Trait(x, y)),
            _ => None,
        },
        PairV::Parallel(a, b) => match (spec_normalize(a, fuel), spec_normalize(b, fuel)) {
            (Some(x), Some(y)) => Some(PairV::Parallel(x, y)),
            _ => None,
        },
    }
}

impl VariableConstraint {
    /// The constraint with its term normalized, within the step budget.
    pub fn try_normalize(&self) -> (r: Option<VariableConstraint>)
        ensures
            spec_normalize_constraint(self@, STEP_BUDGET as nat) == match r {
                Some(c) => Some(c@),
                None => None,
            },
    {
        match self {
            VariableConstraint::UnconstrainedType => Some(VariableConstraint::UnconstrainedType),
            VariableConstraint::Subtype(t) => match t.try_normalize() {
                Some(n) => Some(VariableConstraint::Subtype(n)),
                None => None,
            },
            VariableConstraint::Trait(t) => match t.try_normalize() {
                Some(n) => Some(VariableConstraint::Trait(n)),
                None => None,
            },
            VariableConstraint::Parallel(t) => match t.try_normalize() {
                Some(n) => Some(VariableConstraint::Parallel(n)),
                None => None,
            },
            VariableConstraint::ValueOf(t) => match t.try_normalize() {
                Some(n) => Some(VariableConstraint::ValueOf(n)),
                None => None,
            },
        }
    }

    /// The constraint with its term in parameter normal form.
    pub fn normalize(&self) -> (r: VariableConstraint)
        requires
            spec_normalize_constraint(self@, STEP_BUDGET as nat) is Some,
        ensures
            spec_normalize_constraint(self@, STEP_BUDGET as nat) == Some(r@),
    {
        match self.try_normalize() {
            Some(c) => c,
            None => VariableConstraint::UnconstrainedType,
        }
    }

    /// Applies a substitution to the term of a subtype or trait constraint.
    pub fn apply_subst<S: Substitution>(&mut self, s: &S)
        ensures
            final(self)@ == spec_apply_constraint(old(self)@, s.subst_map()),
    {
        match self {
            VariableConstraint::Subtype(t) => t.apply_subst(s),
            VariableConstraint::Trait(t) => t.apply_subst(s),
            _ => {},
        }
    }
}

impl ConstraintPair {
    /// Both sides normalized, within the step budget.
    pub fn try_normalize(&self) -> (r: Option<ConstraintPair>)
        ensures
            spec_normalize_pair(self@, STEP_BUDGET as nat) == match r {
                Some(p) => Some(p@),
                None => None,
            },
    {
        match self {
            ConstraintPair::ValueOf(a, b) => match (a.try_normalize(), b.try_normalize()) {
                (Some(x), Some(y)) => Some(ConstraintPair::ValueOf(x, y)),
                _ => None,
            },
            ConstraintPair::Subtype(a, b) => match (a.try_normalize(), b.try_normalize()) {
                (Some(x), Some(y)) => Some(ConstraintPair::Subtype(x, y)),
                _ => None,
            },
            ConstraintPair::Trait(a, b) => match (a.try_normalize(), b.try_normalize()) {
                (Some(x), Some(y)) => Some(ConstraintPair::Trait(x, y)),
                _ => None,
            },
            ConstraintPair::Parallel(a, b) => match (a.try_normalize(), b.try_normalize()) {
                (Some(x), Some(y)) => Some(ConstraintPair::Parallel(x, y)),
                _ => None,
            },
        }
    }

    /// Both sides in parameter normal form.
    pub fn normalize(&self) -> (r: ConstraintPair)
        requires
            spec_normalize_pair(self@, STEP_BUDGET as nat) is Some,
        ensures
            spec_normalize_pair(self@, STEP_BUDGET as nat) == Some(r@),
    {
        match self.try_normalize() {
            Some(p) => p,
            None => self.copy(),
        }
    }
}

} // verus!
