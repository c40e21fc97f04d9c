//! Facts about the encoding that hold for every puzzle.

use crate::encoder::{
    clue_constraint, clue_terms, clue_var, digit_value, digits_fit, encoded, family_cell,
    family_constraints, well_formed_puzzle, Family,
};
use crate::geometry::{
    geometry_of_len, lemma_box_cell_on_board, lemma_geometry_consistent,
    lemma_split_position, lemma_var_index_round_trip, supported_len, Geometry,
};
use crate::model::{terms_within, Relation};
use vstd::prelude::*;

verus! {

/// Every puzzle of a supported length gives exactly `4·size² + 1`
/// constraints: `size²` for each of the four families and one for the clues.
pub proof fn lemma_constraint_count(p: Seq<char>)
    requires
        supported_len(p.len() as int),
    ensures
        ({
            let g = geometry_of_len(p.len() as int)->Some_0;
            encoded(g, p).constraints.len() == 4 * g.size * g.size + 1
        }),
{
    let g = geometry_of_len(p.len() as int)->Some_0;
    let n2 = g.size * g.size;
    assert(4 * g.size * g.size == 4 * n2) by (nonlinear_arith)
        requires
            n2 == g.size * g.size,
    ;
}

/// A puzzle with no clue gets the clue constraint `>= 0`, with no terms.
pub proof fn lemma_no_clues(size: int, p: Seq<char>)
    requires
        forall|i: int| 0 <= i < p.len() ==> p[i] == '0',
    ensures
        clue_terms(size, p).len() == 0,
        clue_constraint(size, p).relation == Relation::AtLeast,
        clue_constraint(size, p).rhs == 0,
    decreases p.len(),
{
    if p.len() > 0 {
        lemma_no_clues(size, p.drop_last());
    }
}

/// Blank cells at the end of a puzzle add no clue term.
proof fn lemma_blank_suffix(size: int, p: Seq<char>, k: int)
    requires
        0 <= k <= p.len(),
        forall|i: int| k <= i < p.len() ==> p[i] == '0',
    ensures
        clue_terms(size, p) == clue_terms(size, p.subrange(0, k)),
    decreases p.len(),
{
    if p.len() > k {
        lemma_blank_suffix(size, p.drop_last(), k);
        assert(p.drop_last().subrange(0, k) =~= p.subrange(0, k));
    } else {
        assert(p.subrange(0, k) =~= p);
    }
}

/// A puzzle with exactly one clue, the digit at position `i`, gets the clue
/// constraint `>= 1` with exactly one term: the variable of that clue.
pub proof fn lemma_single_clue(size: int, p: Seq<char>, i: int)
    requires
        0 <= i < p.len(),
        p[i] != '0',
        forall|j: int| 0 <= j < p.len() && j != i ==> p[j] == '0',
    ensures
        clue_constraint(size, p).terms.len() == 1,
        clue_constraint(size, p).terms[0] == (clue_var(size, i, p[i]) as usize, 1i64),
        clue_constraint(size, p).relation == Relation::AtLeast,
        clue_constraint(size, p).rhs == 1,
{
    lemma_blank_suffix(size, p, i + 1);
    let q = p.subrange(0, i + 1);
    assert(q.drop_last() =~= p.subrange(0, i));
    lemma_no_clues(size, p.subrange(0, i));
}

/// The three coordinates of a summed cell lie on the board.
proof fn lemma_family_cell_on_board(g: Geometry, fam: Family, a: int, b: int, t: int)
    requires
        g.wf(),
        0 <= a < g.size,
        0 <= b < g.size,
        0 <= t < g.size,
    ensures
        ({
            let c = family_cell(g, fam, a, b, t);
            &&& 0 <= c.0 < g.size
            &&& 0 <= c.1 < g.size
            &&& 0 <= c.2 < g.size
        }),
{
    if fam == Family::Box {
        lemma_box_cell_on_board(g, a, t);
    }
}

/// The variables of a structural constraint are all declared.
proof fn lemma_family_terms_within(g: Geometry, fam: Family, j: int)
    requires
        g.wf(),
        0 <= j < g.size * g.size,
    ensures
        terms_within(family_constraints(g, fam)[j].terms, g.num_vars() as nat),
{
    lemma_geometry_consistent(g);
    let n = g.size as int;
    lemma_split_position(n, j);
    let terms = family_constraints(g, fam)[j].terms;
    assert forall|k: int| 0 <= k < terms.len() implies (#[trigger] terms[k]).0 < g.num_vars() by {
        lemma_family_cell_on_board(g, fam, j / n, j % n, k);
        let c = family_cell(g, fam, j / n, j % n, k);
        lemma_var_index_round_trip(n, c.0, c.1, c.2);
    }
}

/// The variables of the clue terms are all declared.
proof fn lemma_clue_terms_within(g: Geometry, p: Seq<char>)
    requires
        g.wf(),
        p.len() <= g.size * g.size,
        digits_fit(p, g.size as int),
    ensures
        terms_within(clue_terms(g.size as int, p), g.num_vars() as nat),
    decreases p.len(),
{
    lemma_geometry_consistent(g);
    if p.len() > 0 {
        let q = p.drop_last();
        assert(digits_fit(q, g.size as int)) by {
            assert forall|i: int| 0 <= i < q.len() implies 0 <= #[trigger] digit_value(q[i])
                <= g.size by {
                assert(q[i] == p[i]);
            }
        }
        lemma_clue_terms_within(g, q);
        let i = p.len() - 1;
        if p.last() != '0' {
            let n = g.size as int;
            lemma_split_position(n, i);
            assert(0 <= digit_value(p[i]) <= n);
            lemma_var_index_round_trip(n, i / n, i % n, digit_value(p.last()) - 1);
        }
    }
}

/// Every variable that the objective or any constraint names is one of the
/// `size³` declared variables, so the `Binary` section declares them all.
pub proof fn lemma_vars_declared(p: Seq<char>)
    requires
        supported_len(p.len() as int),
        well_formed_puzzle(p),
    ensures
        encoded(geometry_of_len(p.len() as int)->Some_0, p).vars_declared(),
{
    let g = geometry_of_len(p.len() as int)->Some_0;
    assert(g.wf());
    lemma_geometry_consistent(g);
    let m = encoded(g, p);
    let n2 = g.size * g.size;
    assert(0 < g.num_vars()) by (nonlinear_arith)
        requires
            g.num_vars() == g.size * g.size * g.size,
            0 < g.size,
    ;
    lemma_clue_terms_within(g, p);
    assert forall|k: int| 0 <= k < m.constraints.len() implies terms_within(
        #[trigger] m.constraints[k].terms,
        m.num_vars,
    ) by {
        if k < n2 {
            lemma_family_terms_within(g, Family::Cell, k);
        } else if k < 2 * n2 {
            lemma_family_terms_within(g, Family::Row, k - n2);
        } else if k < 3 * n2 {
            lemma_family_terms_within(g, Family::Column, k - 2 * n2);
        } else if k < 4 * n2 {
            lemma_family_terms_within(g, Family::Box, k - 3 * n2);
        }
    }
}

} // verus!
