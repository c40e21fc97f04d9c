//! Puzzle to integer linear program: one binary variable per
//! (row, column, value), four families of `= 1` constraints, and one
//! aggregate `>=` constraint for the given clues.

use crate::geometry::{
    box_origin_of, geometry_for_len, geometry_of_len, lemma_box_cell_on_board,
    lemma_geometry_consistent, lemma_split_position, supported_len, var_index, Geometry,
};
use crate::model::{constraint_views, Constraint, ConstraintView, IlpModel, ModelView, Relation};
use vstd::prelude::*;
use vstd::string::StrSliceExecFns;

verus! {

/// The only way encoding can fail.
#[derive(Clone, Copy, Debug, PartialEq, Eq, Structural)]
pub enum EncodeError {
    /// The puzzle has neither 16, 36 nor 81 cells.
    InvalidPuzzleSize,
}

/// The four families of structural constraints, in the order they are emitted.
#[derive(Clone, Copy, Debug, PartialEq, Eq, Structural)]
pub enum Family {
    /// For cell `(a, b)`: every value summed.
    Cell,
    /// For row `a` and value `b`: every column summed.
    Row,
    /// For column `a` and value `b`: every row summed.
    Column,
    /// For box `a` and value `b`: every cell of the box summed.
    Box,
}

/// The numeric value of a digit character.
pub open spec fn digit_value(c: char) -> int {
    c as int - '0' as int
}

/// The `t`-th cell `(row, col, value)` summed by the constraint of `fam` for
/// `(a, b)`. Box cells are taken row by row within the box.
pub open spec fn family_cell(g: Geometry, fam: Family, a: int, b: int, t: int) -> (int, int, int) {
    match fam {
        Family::Cell => (a, b, t),
        Family::Row => (a, t, b),
        Family::Column => (t, a, b),
        Family::Box => (
            box_origin_of(g, a).0 + t / (g.box_cols as int),
            box_origin_of(g, a).1 + t % (g.box_cols as int),
            b,
        ),
    }
}

/// The terms of the constraint of `fam` for `(a, b)`: `size` variables, each
/// with coefficient 1.
pub open spec fn family_terms(g: Geometry, fam: Family, a: int, b: int) -> Seq<(usize, i64)> {
    Seq::new(
        g.size as nat,
        |t: int|
            {
                let c = family_cell(g, fam, a, b, t);
                (var_index(g.size as int, c.0, c.1, c.2) as usize, 1i64)
            },
    )
}

/// The `size²` constraints of `fam`, `(a, b)` running through
/// `[0, size)²` with `b` fastest, each summing to exactly 1.
pub open spec fn family_constraints(g: Geometry, fam: Family) -> Seq<ConstraintView> {
    Seq::new(
        (g.size * g.size) as nat,
        |j: int|
            ConstraintView {
                terms: family_terms(g, fam, j / (g.size as int), j % (g.size as int)),
                relation: Relation::Equal,
                rhs: 1,
            },
    )
}

/// The variable that the clue `c` at flat position `i` forces to 1.
pub open spec fn clue_var(size: int, i: int, c: char) -> int {
    var_index(size, i / size, i % size, digit_value(c) - 1)
}

/// One term for each non-blank cell of `p`, in the order of the cells.
pub open spec fn clue_terms(size: int, p: Seq<char>) -> Seq<(usize, i64)>
    decreases p.len(),
{
    if p.len() == 0 {
        Seq::empty()
    } else {
        let prev = clue_terms(size, p.drop_last());
        let i = p.len() - 1;
        if p.last() == '0' {
            prev
        } else {
            prev.push((clue_var(size, i, p.last()) as usize, 1i64))
        }
    }
}

/// The aggregate clue constraint: the clue variables sum to at least the
/// number of clues.
pub open spec fn clue_constraint(size: int, p: Seq<char>) -> ConstraintView {
    ConstraintView {
        terms: clue_terms(size, p),
        relation: Relation::AtLeast,
        rhs: clue_terms(size, p).len() as int,
    }
}

/// The program for puzzle `p` on geometry `g`.
pub open spec fn encoded(g: Geometry, p: Seq<char>) -> ModelView {
    ModelView {
        num_vars: g.num_vars() as nat,
        objective: seq![(0usize, 1i64)],
        constraints: family_constraints(g, Family::Cell) + family_constraints(g, Family::Row)
            + family_constraints(g, Family::Column) + family_constraints(g, Family::Box) + seq![
            clue_constraint(g.size as int, p),
        ],
    }
}

/// Every cell of `p` is a digit from 0 to `size`.
pub open spec fn digits_fit(p: Seq<char>, size: int) -> bool {
    forall|i: int| 0 <= i < p.len() ==> 0 <= #[trigger] digit_value(p[i]) <= size
}

/// A puzzle of a supported length holds only digits from 0 to its size.
/// Puzzles of other lengths may hold anything.
pub open spec fn well_formed_puzzle(p: Seq<char>) -> bool {
    geometry_of_len(p.len() as int) matches Some(g) ==> digits_fit(p, g.size as int)
}

/// The cell that `family_cell` names.
fn family_cell_of(g: &Geometry, fam: Family, a: usize, b: usize, t: usize) -> (r: (
    usize,
    usize,
    usize,
))
    requires
        g.wf(),
        a < g.size,
        b < g.size,
        t < g.size,
    ensures
        (r.0 as int, r.1 as int, r.2 as int) == family_cell(*g, fam, a as int, b as int, t as int),
        r.0 < g.size,
        r.1 < g.size,
        r.2 < g.size,
{
    match fam {
        Family::Cell => (a, b, t),
        Family::Row => (a, t, b),
        Family::Column => (t, a, b),
        Family::Box => {
            proof {
                lemma_geometry_consistent(*g);
                lemma_box_cell_on_board(*g, a as int, t as int);
            }
            let (row0, col0) = g.box_origin(a);
            (row0 + t / g.box_cols, col0 + t % g.box_cols, b)
        },
    }
}

/// The terms of the constraint of `fam` for `(a, b)`.
fn family_terms_of(g: &Geometry, fam: Family, a: usize, b: usize) -> (r: Vec<(usize, i64)>)
    requires
        g.wf(),
        a < g.size,
        b < g.size,
    ensures
        r@ == family_terms(*g, fam, a as int, b as int),
{
    let mut terms: Vec<(usize, i64)> = Vec::new();
    let mut t: usize = 0;
    while t < g.size
        invariant
            g.wf(),
            a < g.size,
            b < g.size,
            t <= g.size,
            terms@.len() == t,
            forall|k: int|
                0 <= k < t ==> #[trigger] terms@[k] == family_terms(*g, fam, a as int, b as int)[k],
        decreases g.size - t,
    {
        let (row, col, value) = family_cell_of(g, fam, a, b, t);
        let v = g.variable_index(row, col, value);
        terms.push((v, 1i64));
        t = t + 1;
    }
    assert(terms@ =~= family_terms(*g, fam, a as int, b as int));
    terms
}

/// The `size²` constraints of `fam`.
fn family_constraints_of(g: &Geometry, fam: Family) -> (r: Vec<Constraint>)
    requires
        g.wf(),
    ensures
        constraint_views(r@) == family_constraints(*g, fam),
{
    proof {
        lemma_geometry_consistent(*g);
    }
    let n = g.size;
    let count = n * n;
    let mut cs: Vec<Constraint> = Vec::new();
    let mut j: usize = 0;
    while j < count
        invariant
            g.wf(),
            n == g.size,
            1 <= n <= 9,
            count == n * n,
            j <= count,
            cs@.len() == j,
            forall|k: int|
                0 <= k < j ==> (#[trigger] cs@[k])@ == family_constraints(*g, fam)[k],
        decreases count - j,
    {
        proof {
            lemma_split_position(n as int, j as int);
        }
        let terms = family_terms_of(g, fam, j / n, j % n);
        cs.push(Constraint { terms, relation: Relation::Equal, rhs: 1 });
        j = j + 1;
    }
    assert(constraint_views(cs@) =~= family_constraints(*g, fam));
    cs
}

/// The terms of the clue constraint of `puzzle`.
fn clue_terms_of(g: &Geometry, puzzle: &str) -> (r: Vec<(usize, i64)>)
    requires
        g.wf(),
        puzzle@.len() == g.size * g.size,
        digits_fit(puzzle@, g.size as int),
    ensures
        r@ == clue_terms(g.size as int, puzzle@),
        r@.len() <= puzzle@.len(),
{
    proof {
        lemma_geometry_consistent(*g);
    }
    let n = g.size;
    let len = puzzle.unicode_len();
    let mut terms: Vec<(usize, i64)> = Vec::new();
    let mut i: usize = 0;
    while i < len
        invariant
            g.wf(),
            n == g.size,
            1 <= n <= 9,
            len == puzzle@.len(),
            len == n * n,
            digits_fit(puzzle@, n as int),
            i <= len,
            terms@.len() <= i,
            terms@ == clue_terms(n as int, puzzle@.subrange(0, i as int)),
        decreases len - i,
    {
        let c = puzzle.get_char(i);
        let ghost prefix = puzzle@.subrange(0, i as int + 1);
        assert(prefix.drop_last() =~= puzzle@.subrange(0, i as int));
        assert(prefix.last() == c);
        if c != '0' {
            proof {
                lemma_split_position(n as int, i as int);
                assert(0 <= digit_value(puzzle@[i as int]) <= n);
            }
            let d = (c as u32 - '0' as u32) as usize;
            let v = g.variable_index(i / n, i % n, d - 1);
            terms.push((v, 1i64));
        }
        i = i + 1;
    }
    assert(puzzle@.subrange(0, len as int) =~= puzzle@);
    terms
}

/// Encodes `puzzle` as a binary integer linear program.
///
/// The puzzle's length picks the geometry (81: 9×9 with 3×3 boxes, 36: 6×6
/// with 2×3 boxes, 16: 4×4 with 2×2 boxes); any other length is
/// `InvalidPuzzleSize`. The program has `size³` variables, the objective
/// "minimise variable 0", and `4·size² + 1` constraints: the cell, row,
/// column and box families, then the clue constraint.
pub fn encode(puzzle: &str) -> (r: Result<IlpModel, EncodeError>)
    requires
        well_formed_puzzle(puzzle@),
    ensures
        r is Ok <==> supported_len(puzzle@.len() as int),
        r matches Ok(m) ==> m@ == encoded(geometry_of_len(puzzle@.len() as int)->Some_0, puzzle@),
        r matches Err(e) ==> e == EncodeError::InvalidPuzzleSize,
{
    let len = puzzle.unicode_len();
    let g = match geometry_for_len(len) {
        Some(g) => g,
        None => {
            return Err(EncodeError::InvalidPuzzleSize);
        },
    };
    proof {
        lemma_geometry_consistent(g);
    }
    let n = g.size;
    let mut constraints = family_constraints_of(&g, Family::Cell);
    let mut rows = family_constraints_of(&g, Family::Row);
    let mut cols = family_constraints_of(&g, Family::Column);
    let mut boxes = family_constraints_of(&g, Family::Box);
    let ghost (c0, c1, c2, c3) = (constraints@, rows@, cols@, boxes@);
    constraints.append(&mut rows);
    constraints.append(&mut cols);
    constraints.append(&mut boxes);
    let terms = clue_terms_of(&g, puzzle);
    let count = terms.len() as i64;
    let clue = Constraint { terms, relation: Relation::AtLeast, rhs: count };
    assert(clue@ == clue_constraint(n as int, puzzle@));
    constraints.push(clue);
    let mut objective: Vec<(usize, i64)> = Vec::new();
    objective.push((0usize, 1i64));
    let m = IlpModel { num_vars: n * n * n, objective, constraints };
    assert(objective@ =~= seq![(0usize, 1i64)]);
    assert(constraint_views(m.constraints@) =~= constraint_views(c0) + constraint_views(c1)
        + constraint_views(c2) + constraint_views(c3) + seq![clue_constraint(n as int, puzzle@)]);
    Ok(m)
}

} // verus!
