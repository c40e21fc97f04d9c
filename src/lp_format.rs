//! Rendering of an integer linear program as LP text:
//!
//! ```text
//! Minimize
//! 1 x0
//! Subject To
//! 1 x0 + 1 x1 + ... = 1
//! ...
//! Binary
//! x0 x1 ... x<n-1>
//! End
//! ```

use crate::encoder::{encode, encoded, well_formed_puzzle, EncodeError};
use crate::geometry::{geometry_of_len, supported_len};
use crate::model::{Constraint, ConstraintView, IlpModel, ModelView, Relation};
use vstd::prelude::*;
use vstd::string::StringExecFns;

verus! {

/// The decimal digit character for `d < 10`.
pub open spec fn digit_char(d: nat) -> char {
    if d == 0 {
        '0'
    } else if d == 1 {
        '1'
    } else if d == 2 {
        '2'
    } else if d == 3 {
        '3'
    } else if d == 4 {
        '4'
    } else if d == 5 {
        '5'
    } else if d == 6 {
        '6'
    } else if d == 7 {
        '7'
    } else if d == 8 {
        '8'
    } else {
        '9'
    }
}

/// `n` in decimal, without leading zeros.
pub open spec fn decimal(n: nat) -> Seq<char>
    decreases n,
{
    if n < 10 {
        seq![digit_char(n)]
    } else {
        decimal(n / 10).push(digit_char(n % 10))
    }
}

/// `i` in decimal, with a leading `-` when negative.
pub open spec fn int_text(i: int) -> Seq<char> {
    if i < 0 {
        seq!['-'] + decimal((-i) as nat)
    } else {
        decimal(i as nat)
    }
}

/// The name of variable `v`: `x` followed by its index.
pub open spec fn var_name(v: nat) -> Seq<char> {
    seq!['x'] + decimal(v)
}

/// One term: the coefficient, a space, the variable's name.
pub open spec fn term_text(t: (usize, i64)) -> Seq<char> {
    int_text(t.1 as int) + seq![' '] + var_name(t.0 as nat)
}

/// The terms joined by ` + `; no terms give the empty text.
pub open spec fn sum_text(ts: Seq<(usize, i64)>) -> Seq<char>
    decreases ts.len(),
{
    if ts.len() == 0 {
        Seq::empty()
    } else if ts.len() == 1 {
        term_text(ts[0])
    } else {
        sum_text(ts.drop_last()) + seq![' ', '+', ' '] + term_text(ts.last())
    }
}

/// The operator of a relation.
pub open spec fn relation_text(r: Relation) -> Seq<char> {
    match r {
        Relation::Equal => seq!['='],
        Relation::AtLeast => seq!['>', '='],
    }
}

/// One constraint line: the sum, the operator and the right-hand side,
/// separated by spaces and ended by a newline.
pub open spec fn constraint_line(c: ConstraintView) -> Seq<char> {
    sum_text(c.terms) + seq![' '] + relation_text(c.relation) + seq![' '] + int_text(c.rhs)
        + seq!['\n']
}

/// The lines of all constraints, in order.
pub open spec fn constraints_text(cs: Seq<ConstraintView>) -> Seq<char>
    decreases cs.len(),
{
    if cs.len() == 0 {
        Seq::empty()
    } else {
        constraints_text(cs.drop_last()) + constraint_line(cs.last())
    }
}

/// The names `x0 .. x<n-1>` in ascending order, separated by spaces.
pub open spec fn binary_names(n: nat) -> Seq<char>
    decreases n,
{
    if n == 0 {
        Seq::empty()
    } else if n == 1 {
        var_name(0)
    } else {
        binary_names((n - 1) as nat) + seq![' '] + var_name((n - 1) as nat)
    }
}

/// The LP text of a program.
pub open spec fn lp_text(m: ModelView) -> Seq<char> {
    "Minimize\n"@ + sum_text(m.objective) + seq!['\n'] + "Subject To\n"@ + constraints_text(
        m.constraints,
    ) + "Binary\n"@ + binary_names(m.num_vars) + seq!['\n'] + "End\n"@
}

/// The one-character text of the digit `d`.
pub(crate) fn digit_str(d: u64) -> (r: &'static str)
    requires
        d < 10,
    ensures
        r@ == seq![digit_char(d as nat)],
{
    if d == 0 {
        proof { reveal_strlit("0"); }
        "0"
    } else if d == 1 {
        proof { reveal_strlit("1"); }
        "1"
    } else if d == 2 {
        proof { reveal_strlit("2"); }
        "2"
    } else if d == 3 {
        proof { reveal_strlit("3"); }
        "3"
    } else if d == 4 {
        proof { reveal_strlit("4"); }
        "4"
    } else if d == 5 {
        proof { reveal_strlit("5"); }
        "5"
    } else if d == 6 {
        proof { reveal_strlit("6"); }
        "6"
    } else if d == 7 {
        proof { reveal_strlit("7"); }
        "7"
    } else if d == 8 {
        proof { reveal_strlit("8"); }
        "8"
    } else {
        proof { reveal_strlit("9"); }
        "9"
    }
}

/// Appends `n` in decimal.
fn push_decimal(out: &mut String, n: u64)
    ensures
        final(out)@ == old(out)@ + decimal(n as nat),
    decreases n,
{
    if n < 10 {
        out.append(digit_str(n));
    } else {
        push_decimal(out, n / 10);
        out.append(digit_str(n % 10));
        assert(final(out)@ =~= old(out)@ + decimal(n as nat));
    }
}

/// Appends `i` in decimal, with a leading `-` when negative.
fn push_int(out: &mut String, i: i64)
    ensures
        final(out)@ == old(out)@ + int_text(i as int),
{
    if i < 0 {
        proof { reveal_strlit("-"); }
        out.append("-");
        let magnitude: u64 = (-(i + 1)) as u64 + 1;
        push_decimal(out, magnitude);
        assert(final(out)@ =~= old(out)@ + int_text(i as int));
    } else {
        push_decimal(out, i as u64);
    }
}

/// Appends the name of variable `v`.
fn push_var_name(out: &mut String, v: usize)
    ensures
        final(out)@ == old(out)@ + var_name(v as nat),
{
    proof { reveal_strlit("x"); }
    out.append("x");
    push_decimal(out, v as u64);
    assert(final(out)@ =~= old(out)@ + var_name(v as nat));
}

/// Appends the terms joined by ` + `.
fn push_sum(out: &mut String, terms: &Vec<(usize, i64)>)
    ensures
        final(out)@ == old(out)@ + sum_text(terms@),
{
    let ghost start = out@;
    let mut k: usize = 0;
    assert(terms@.subrange(0, 0) =~= Seq::<(usize, i64)>::empty());
    assert(out@ =~= start + sum_text(terms@.subrange(0, 0)));
    while k < terms.len()
        invariant
            k <= terms@.len(),
            out@ == start + sum_text(terms@.subrange(0, k as int)),
        decreases terms@.len() - k,
    {
        proof {
            reveal_strlit(" + ");
            reveal_strlit(" ");
        }
        let ghost before = out@;
        let ghost sub = terms@.subrange(0, k as int + 1);
        assert(sub.drop_last() =~= terms@.subrange(0, k as int));
        assert(sub.last() == terms@[k as int]);
        if k > 0 {
            out.append(" + ");
        }
        let ghost sep = out@;
        let (v, coeff) = terms[k];
        push_int(&mut *out, coeff);
        out.append(" ");
        push_var_name(&mut *out, v);
        assert(out@ =~= sep + term_text(terms@[k as int]));
        if k == 0 {
            assert(sum_text(sub) == term_text(terms@[0]));
            assert(out@ =~= start + sum_text(sub));
        } else {
            assert(sum_text(sub) == sum_text(terms@.subrange(0, k as int)) + seq![' ', '+', ' ']
                + term_text(terms@[k as int]));
            assert(sep =~= before + seq![' ', '+', ' ']);
            assert(out@ =~= start + sum_text(sub));
        }
        k = k + 1;
    }
    assert(terms@.subrange(0, terms@.len() as int) =~= terms@);
}

/// Appends the line of one constraint.
fn push_constraint(out: &mut String, c: &Constraint)
    ensures
        final(out)@ == old(out)@ + constraint_line(c@),
{
    proof { reveal_strlit(" "); reveal_strlit("="); reveal_strlit(">="); reveal_strlit("\n"); }
    push_sum(out, &c.terms);
    out.append(" ");
    match c.relation {
        Relation::Equal => out.append("="),
        Relation::AtLeast => out.append(">="),
    }
    out.append(" ");
    push_int(out, c.rhs);
    out.append("\n");
    assert(final(out)@ =~= old(out)@ + constraint_line(c@));
}

/// Renders `model` as LP text: the objective under `Minimize`, one line per
/// constraint under `Subject To`, every variable `x0 .. x<num_vars-1>` under
/// `Binary`, and a closing `End`.
pub fn format_lp(model: &IlpModel) -> (r: String)
    ensures
        r@ == lp_text(model@),
{
    proof {
        reveal_strlit(" ");
        reveal_strlit("\n");
    }
    let mut out = String::from_str("Minimize\n");
    push_sum(&mut out, &model.objective);
    out.append("\n");
    out.append("Subject To\n");
    let ghost head = out@;
    let cs = &model.constraints;
    let mut k: usize = 0;
    while k < cs.len()
        invariant
            k <= cs@.len(),
            cs@ == model.constraints@,
            model@.constraints.len() == cs@.len(),
            out@ == head + constraints_text(model@.constraints.subrange(0, k as int)),
        decreases cs@.len() - k,
    {
        let ghost sub = model@.constraints.subrange(0, k as int + 1);
        assert(sub.drop_last() =~= model@.constraints.subrange(0, k as int));
        assert(sub.last() == cs@[k as int]@);
        push_constraint(&mut out, &cs[k]);
        assert(out@ =~= head + constraints_text(sub));
        k = k + 1;
    }
    assert(model@.constraints.subrange(0, cs@.len() as int) =~= model@.constraints);
    out.append("Binary\n");
    let ghost mid = out@;
    let mut v: usize = 0;
    while v < model.num_vars
        invariant
            v <= model.num_vars,
            out@ == mid + binary_names(v as nat),
        decreases model.num_vars - v,
    {
        proof {
            reveal_strlit(" ");
        }
        let ghost before = out@;
        if v > 0 {
            out.append(" ");
        }
        let ghost sep = out@;
        push_var_name(&mut out, v);
        if v == 0 {
            assert(binary_names(1) == var_name(0));
        } else {
            assert(binary_names((v + 1) as nat) == binary_names(v as nat) + seq![' '] + var_name(
                v as nat,
            ));
            assert(sep =~= before + seq![' ']);
        }
        assert(out@ =~= mid + binary_names((v + 1) as nat));
        v = v + 1;
    }
    out.append("\n");
    out.append("End\n");
    assert(out@ =~= lp_text(model@));
    out
}

/// The LP text of the program for puzzle `p`, a function of its characters
/// alone.
pub open spec fn puzzle_lp_text(p: Seq<char>) -> Seq<char> {
    lp_text(encoded(geometry_of_len(p.len() as int)->Some_0, p))
}

/// Encodes `puzzle` and renders the program as LP text. The same puzzle
/// always gives the same text, byte for byte.
pub fn puzzle_to_lp(puzzle: &str) -> (r: Result<String, EncodeError>)
    requires
        well_formed_puzzle(puzzle@),
    ensures
        r is Ok <==> supported_len(puzzle@.len() as int),
        r matches Ok(text) ==> text@ == puzzle_lp_text(puzzle@),
        r matches Err(e) ==> e == EncodeError::InvalidPuzzleSize,
{
    match encode(puzzle) {
        Ok(m) => Ok(format_lp(&m)),
        Err(e) => Err(e),
    }
}

} // verus!
