//! Board geometry: the board size, the shape of its boxes, and the numbering
//! of the binary decision variables.

use vstd::arithmetic::div_mod::{
    lemma_div_denominator, lemma_div_pos_is_pos, lemma_fundamental_div_mod,
    lemma_fundamental_div_mod_converse, lemma_mod_pos_bound,
};
use vstd::prelude::*;

verus! {

/// The shape of a board: `size` rows and columns, split into boxes of
/// `box_rows` rows by `box_cols` columns.
#[derive(Clone, Copy, Debug, PartialEq, Eq, Structural)]
pub struct Geometry {
    pub size: usize,
    pub box_rows: usize,
    pub box_cols: usize,
}

/// The geometry that belongs to a puzzle of `len` cells, if any.
pub open spec fn geometry_of_len(len: int) -> Option<Geometry> {
    if len == 81 {
        Some(Geometry { size: 9, box_rows: 3, box_cols: 3 })
    } else if len == 36 {
        Some(Geometry { size: 6, box_rows: 2, box_cols: 3 })
    } else if len == 16 {
        Some(Geometry { size: 4, box_rows: 2, box_cols: 2 })
    } else {
        None
    }
}

/// Whether a puzzle of `len` cells has a supported size.
pub open spec fn supported_len(len: int) -> bool {
    geometry_of_len(len) is Some
}

impl Geometry {
    /// One of the three supported geometries.
    pub open spec fn wf(self) -> bool {
        exists|len: int| geometry_of_len(len) == Some(self)
    }

    /// Number of boxes side by side in one band of boxes.
    pub open spec fn boxes_across(self) -> int {
        self.size as int / self.box_cols as int
    }

    /// Number of decision variables: one per (row, column, value).
    pub open spec fn num_vars(self) -> int {
        self.size * self.size * self.size
    }
}

/// The geometry for a puzzle of `len` cells: 81 gives 9×9 with 3×3 boxes,
/// 36 gives 6×6 with 2×3 boxes, 16 gives 4×4 with 2×2 boxes; any other
/// length gives `None`.
pub fn geometry_for_len(len: usize) -> (r: Option<Geometry>)
    ensures
        r == geometry_of_len(len as int),
        r matches Some(g) ==> g.wf() && len == g.size * g.size,
{
    let r = if len == 81 {
        Some(Geometry { size: 9, box_rows: 3, box_cols: 3 })
    } else if len == 36 {
        Some(Geometry { size: 6, box_rows: 2, box_cols: 3 })
    } else if len == 16 {
        Some(Geometry { size: 4, box_rows: 2, box_cols: 2 })
    } else {
        None
    };
    if let Some(g) = r {
        assert(geometry_of_len(len as int) == Some(g));
    }
    r
}

impl Geometry {
    /// The top-left cell `(row, column)` of box `b`, boxes being numbered
    /// band by band and, within a band, from left to right.
    pub fn box_origin(&self, b: usize) -> (r: (usize, usize))
        requires
            self.wf(),
            b < self.size,
        ensures
            r.0 == box_origin_of(*self, b as int).0,
            r.1 == box_origin_of(*self, b as int).1,
    {
        proof {
            lemma_geometry_consistent(*self);
            lemma_box_cell_on_board(*self, b as int, 0);
        }
        let across = self.size / self.box_cols;
        ((b / across) * self.box_rows, (b % across) * self.box_cols)
    }

    /// The index of the variable for `(row, col, value)`.
    pub fn variable_index(&self, row: usize, col: usize, value: usize) -> (r: usize)
        requires
            self.wf(),
            row < self.size,
            col < self.size,
            value < self.size,
        ensures
            r == var_index(self.size as int, row as int, col as int, value as int),
            r < self.num_vars(),
    {
        proof {
            lemma_geometry_consistent(*self);
            lemma_var_index_round_trip(self.size as int, row as int, col as int, value as int);
            assert(row * self.size <= 8 * 9 && row * self.size * self.size <= 8 * 9 * 9)
                by (nonlinear_arith)
                requires
                    row < self.size <= 9,
            ;
            assert(col * self.size <= 8 * 9) by (nonlinear_arith)
                requires
                    col < self.size <= 9,
            ;
        }
        row * self.size * self.size + col * self.size + value
    }

    /// The `(row, col, value)` triple that variable `idx` stands for.
    pub fn decode_variable(&self, idx: usize) -> (r: (usize, usize, usize))
        requires
            self.wf(),
            idx < self.num_vars(),
        ensures
            (r.0 as int, r.1 as int, r.2 as int) == var_triple(self.size as int, idx as int),
            r.0 < self.size,
            r.1 < self.size,
            r.2 < self.size,
    {
        proof {
            lemma_geometry_consistent(*self);
            lemma_var_triple_round_trip(self.size as int, idx as int);
            assert(self.size * self.size <= 81) by (nonlinear_arith)
                requires
                    self.size <= 9,
            ;
        }
        let n = self.size;
        (idx / (n * n), (idx / n) % n, idx % n)
    }
}

/// The top-left cell `(row, column)` of box `b`.
pub open spec fn box_origin_of(g: Geometry, b: int) -> (int, int) {
    ((b / g.boxes_across()) * g.box_rows, (b % g.boxes_across()) * g.box_cols)
}

/// The index of the variable for `(row, col, value)`, all zero-based.
pub open spec fn var_index(size: int, row: int, col: int, value: int) -> int {
    row * size * size + col * size + value
}

/// The `(row, col, value)` triple that variable `idx` stands for.
pub open spec fn var_triple(size: int, idx: int) -> (int, int, int) {
    (idx / (size * size), (idx / size) % size, idx % size)
}

/// The three supported geometries are exactly those of `geometry_of_len`.
pub proof fn lemma_wf_cases(g: Geometry)
    requires
        g.wf(),
    ensures
        g == (Geometry { size: 9, box_rows: 3, box_cols: 3 }) || g == (Geometry {
            size: 6,
            box_rows: 2,
            box_cols: 3,
        }) || g == (Geometry { size: 4, box_rows: 2, box_cols: 2 }),
{
    let len = choose|len: int| geometry_of_len(len) == Some(g);
}

/// Every supported geometry tiles its board with exactly `size` boxes of
/// `size` cells each: `box_rows * box_cols == size`, and the bands of boxes
/// times the boxes across one band give `size` as well.
pub proof fn lemma_geometry_consistent(g: Geometry)
    requires
        g.wf(),
    ensures
        g.box_rows * g.box_cols == g.size,
        (g.size as int / g.box_cols as int) * (g.size as int / g.box_rows as int) == g.size,
        g.boxes_across() * g.box_cols == g.size,
        1 <= g.box_rows <= g.size <= 9,
        g.size * g.size <= 81,
        g.num_vars() <= 729,
        1 <= g.box_cols <= g.size,
{
    lemma_wf_cases(g);
    assert(g.size * g.size <= 81 && g.num_vars() <= 729) by (nonlinear_arith)
        requires
            1 <= g.size <= 9,
            g.num_vars() == g.size * g.size * g.size,
    ;
    if g.size == 9 {
        assert(g.box_rows == 3 && g.box_cols == 3);
        assert(g.box_rows * g.box_cols == 9) by (nonlinear_arith)
            requires
                g.box_rows == 3,
                g.box_cols == 3,
        ;
        assert(9int / 3int == 3);
    } else if g.size == 6 {
        assert(g.box_rows == 2 && g.box_cols == 3);
        assert(g.box_rows * g.box_cols == 6) by (nonlinear_arith)
            requires
                g.box_rows == 2,
                g.box_cols == 3,
        ;
        assert(6int / 3int == 2 && 6int / 2int == 3);
    } else {
        assert(g.box_rows == 2 && g.box_cols == 2);
        assert(g.box_rows * g.box_cols == 4) by (nonlinear_arith)
            requires
                g.box_rows == 2,
                g.box_cols == 2,
        ;
        assert(4int / 2int == 2);
    }
}

/// Every cell of box `b` (with `b < size`) lies on the board.
pub proof fn lemma_box_cell_on_board(g: Geometry, b: int, t: int)
    requires
        g.wf(),
        0 <= b < g.size,
        0 <= t < g.size,
    ensures
        0 <= box_origin_of(g, b).0 + t / (g.box_cols as int) < g.size,
        0 <= box_origin_of(g, b).1 + t % (g.box_cols as int) < g.size,
{
    lemma_geometry_consistent(g);
    if g.size == 9 {
        assert(0 <= (b / 3) * 3 + t / 3 < 9);
        assert(0 <= (b % 3) * 3 + t % 3 < 9);
    } else if g.size == 6 {
        assert(0 <= (b / 2) * 2 + t / 3 < 6);
        assert(0 <= (b % 2) * 3 + t % 3 < 6);
    } else {
        assert(0 <= (b / 2) * 2 + t / 2 < 4);
        assert(0 <= (b % 2) * 2 + t % 2 < 4);
    }
}

/// The index of every triple of `[0, size)³` lies in `[0, size³)`, and
/// decoding it gives the triple back.
pub proof fn lemma_var_index_round_trip(size: int, row: int, col: int, value: int)
    requires
        size > 0,
        0 <= row < size,
        0 <= col < size,
        0 <= value < size,
    ensures
        0 <= var_index(size, row, col, value) < size * size * size,
        var_triple(size, var_index(size, row, col, value)) == (row, col, value),
{
    let n = size;
    let s2 = n * n;
    assert(s2 > 0) by (nonlinear_arith)
        requires
            n > 0,
            s2 == n * n,
    ;
    let x = var_index(n, row, col, value);
    assert(x == (row * n + col) * n + value) by (nonlinear_arith)
        requires
            x == row * n * n + col * n + value,
    ;
    assert(0 <= col * n + value < s2) by (nonlinear_arith)
        requires
            0 <= col < n,
            0 <= value < n,
            s2 == n * n,
    ;
    assert(x == row * s2 + (col * n + value)) by (nonlinear_arith)
        requires
            x == row * n * n + col * n + value,
            s2 == n * n,
    ;
    assert(0 <= x < s2 * n) by (nonlinear_arith)
        requires
            x == row * s2 + (col * n + value),
            0 <= col * n + value < s2,
            0 <= row < n,
    ;
    assert(s2 * n == size * size * size) by (nonlinear_arith)
        requires
            s2 == n * n,
            n == size,
    ;
    assert(0 <= row * n + col);
    lemma_fundamental_div_mod_converse(x, s2, row, col * n + value);
    lemma_fundamental_div_mod_converse(x, n, row * n + col, value);
    lemma_fundamental_div_mod_converse(row * n + col, n, row, col);
}

/// Every index of `[0, size³)` decodes to a triple of `[0, size)³` whose
/// index it is.
pub proof fn lemma_var_triple_round_trip(size: int, idx: int)
    requires
        size > 0,
        0 <= idx < size * size * size,
    ensures
        ({
            let t = var_triple(size, idx);
            &&& 0 <= t.0 < size
            &&& 0 <= t.1 < size
            &&& 0 <= t.2 < size
            &&& var_index(size, t.0, t.1, t.2) == idx
        }),
{
    let n = size;
    let s2 = n * n;
    assert(s2 > 0) by (nonlinear_arith)
        requires
            n > 0,
            s2 == n * n,
    ;
    assert(s2 * n == size * size * size) by (nonlinear_arith)
        requires
            s2 == n * n,
            n == size,
    ;
    let q = idx / n;
    lemma_fundamental_div_mod(idx, n);
    lemma_mod_pos_bound(idx, n);
    lemma_div_pos_is_pos(idx, n);
    lemma_fundamental_div_mod(q, n);
    lemma_mod_pos_bound(q, n);
    lemma_div_denominator(idx, n, n);
    let t0 = idx / s2;
    lemma_div_pos_is_pos(idx, s2);
    assert(t0 < n) by (nonlinear_arith)
        requires
            0 <= idx < s2 * n,
            s2 > 0,
            t0 == idx / s2,
    ;
    assert(q / n == t0);
    assert(idx == n * (n * t0 + q % n) + idx % n);
    assert(idx == t0 * n * n + (q % n) * n + idx % n) by (nonlinear_arith)
        requires
            idx == n * (n * t0 + q % n) + idx % n,
    ;
}


/// The variable numbering is a bijection between the triples of
/// `[0, size)³` and the indices of `[0, size³)`: decoding the index of a
/// triple gives the triple back, and every index in range is the index of
/// the triple it decodes to.
pub proof fn lemma_var_index_bijective(size: int)
    requires
        size > 0,
    ensures
        forall|row: int, col: int, value: int|
            0 <= row < size && 0 <= col < size && 0 <= value < size ==> {
                let idx = #[trigger] var_index(size, row, col, value);
                &&& 0 <= idx < size * size * size
                &&& var_triple(size, idx) == (row, col, value)
            },
        forall|idx: int|
            0 <= idx < size * size * size ==> {
                let t = #[trigger] var_triple(size, idx);
                &&& 0 <= t.0 < size
                &&& 0 <= t.1 < size
                &&& 0 <= t.2 < size
                &&& var_index(size, t.0, t.1, t.2) == idx
            },
{
    assert forall|row: int, col: int, value: int|
        0 <= row < size && 0 <= col < size && 0 <= value < size implies {
            let idx = #[trigger] var_index(size, row, col, value);
            &&& 0 <= idx < size * size * size
            &&& var_triple(size, idx) == (row, col, value)
        } by {
        lemma_var_index_round_trip(size, row, col, value);
    }
    assert forall|idx: int| 0 <= idx < size * size * size implies {
            let t = #[trigger] var_triple(size, idx);
            &&& 0 <= t.0 < size
            &&& 0 <= t.1 < size
            &&& 0 <= t.2 < size
            &&& var_index(size, t.0, t.1, t.2) == idx
        } by {
        lemma_var_triple_round_trip(size, idx);
    }
}

/// Splitting a position of an `n × n` board into row and column stays on
/// the board.
pub proof fn lemma_split_position(n: int, j: int)
    requires
        0 < n,
        0 <= j < n * n,
    ensures
        0 <= j / n < n,
        0 <= j % n < n,
{
    lemma_fundamental_div_mod(j, n);
    lemma_mod_pos_bound(j, n);
    lemma_div_pos_is_pos(j, n);
    let q = j / n;
    let r = j % n;
    assert(q < n) by (nonlinear_arith)
        requires
            j == n * q + r,
            0 <= r,
            j < n * n,
            0 < n,
            0 <= q,
    ;
}

} // verus!
