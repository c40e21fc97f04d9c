//! The integer linear program handed from the encoder to the formatter.

use vstd::prelude::*;

verus! {

/// The relation between a constraint's sum and its right-hand side.
#[derive(Clone, Copy, Debug, PartialEq, Eq, Structural)]
pub enum Relation {
    /// `sum = rhs`
    Equal,
    /// `sum >= rhs`
    AtLeast,
}

/// A linear constraint: the sum of `coefficient · variable` over `terms`,
/// related to `rhs`. Each term is a pair (variable index, coefficient).
#[derive(Clone, Debug)]
pub struct Constraint {
    pub terms: Vec<(usize, i64)>,
    pub relation: Relation,
    pub rhs: i64,
}

/// What a `Constraint` holds, as mathematical values.
pub ghost struct ConstraintView {
    pub terms: Seq<(usize, i64)>,
    pub relation: Relation,
    pub rhs: int,
}

impl View for Constraint {
    type V = ConstraintView;

    open spec fn view(&self) -> ConstraintView {
        ConstraintView { terms: self.terms@, relation: self.relation, rhs: self.rhs as int }
    }
}

/// A binary integer linear program over the variables `0..num_vars`:
/// minimise the sum of `objective`, subject to `constraints`.
#[derive(Clone, Debug)]
pub struct IlpModel {
    pub num_vars: usize,
    pub objective: Vec<(usize, i64)>,
    pub constraints: Vec<Constraint>,
}

/// What an `IlpModel` holds, as mathematical values.
pub ghost struct ModelView {
    pub num_vars: nat,
    pub objective: Seq<(usize, i64)>,
    pub constraints: Seq<ConstraintView>,
}

/// The views of a sequence of constraints.
pub open spec fn constraint_views(cs: Seq<Constraint>) -> Seq<ConstraintView> {
    cs.map_values(|c: Constraint| c@)
}

impl View for IlpModel {
    type V = ModelView;

    open spec fn view(&self) -> ModelView {
        ModelView {
            num_vars: self.num_vars as nat,
            objective: self.objective@,
            constraints: constraint_views(self.constraints@),
        }
    }
}

/// Every variable that `terms` mention is one of `0..num_vars`.
pub open spec fn terms_within(terms: Seq<(usize, i64)>, num_vars: nat) -> bool {
    forall|k: int| 0 <= k < terms.len() ==> (#[trigger] terms[k]).0 < num_vars
}

impl ModelView {
    /// Every variable named in the objective or in a constraint is declared.
    pub open spec fn vars_declared(self) -> bool {
        &&& terms_within(self.objective, self.num_vars)
        &&& forall|k: int|
            0 <= k < self.constraints.len() ==> terms_within(
                #[trigger] self.constraints[k].terms,
                self.num_vars,
            )
    }
}

} // verus!
