//! Row-major grids as sequences, addressed by (row, column).
use vstd::prelude::*;

verus! {

/// The row-major grid of `rows` rows and `cols` columns whose cell at
/// (r, c) is `f(r, c)`.
pub open spec fn grid_from<T>(cols: nat, rows: nat, f: spec_fn(int, int) -> T) -> Seq<T> {
    Seq::new(cols * rows, |i: int| f(i / cols as int, i % cols as int))
}

/// Cells (r, c) of a `cols`-wide grid lie at distinct, in-range indices.
pub proof fn lemma_index_bounds(cols: nat, rows: nat, r: int, c: int)
    requires
        0 <= r < rows,
        0 <= c < cols,
    ensures
        0 <= r * cols <= r * cols + c < cols * rows,
        (r + 1) * cols == r * cols + cols,
        (r * cols + c) / cols as int == r,
        (r * cols + c) % cols as int == c,
{
    assert(0 <= r * cols + c < cols * rows) by (nonlinear_arith)
        requires
            0 <= r < rows,
            0 <= c < cols,
    ;
    assert(0 <= r * cols) by (nonlinear_arith)
        requires
            0 <= r,
    ;
    assert((r + 1) * cols == r * cols + cols) by (nonlinear_arith);
    vstd::arithmetic::div_mod::lemma_fundamental_div_mod_converse(r * cols + c, cols as int, r, c);
}

/// The cell at (r, c) of `grid_from` is `f(r, c)`.
pub proof fn lemma_grid_from_index<T>(cols: nat, rows: nat, f: spec_fn(int, int) -> T, r: int, c: int)
    requires
        0 <= r < rows,
        0 <= c < cols,
    ensures
        grid_from(cols, rows, f)[r * cols + c] == f(r, c),
        grid_from(cols, rows, f).len() == cols * rows,
{
    lemma_index_bounds(cols, rows, r, c);
}

/// A sequence of the right length that agrees with `f` on every cell is
/// `grid_from(cols, rows, f)`.
pub proof fn lemma_grid_ext<T>(s: Seq<T>, cols: nat, rows: nat, f: spec_fn(int, int) -> T)
    requires
        s.len() == cols * rows,
        forall|r: int, c: int| 0 <= r < rows && 0 <= c < cols ==> #[trigger] s[r * cols + c] == f(r, c),
    ensures
        s == grid_from(cols, rows, f),
{
    let g = grid_from(cols, rows, f);
    assert forall|i: int| 0 <= i < s.len() implies s[i] == g[i] by {
        let r = i / cols as int;
        let c = i % cols as int;
        assert(cols > 0) by (nonlinear_arith)
            requires
                0 <= i < cols * rows,
        ;
        vstd::arithmetic::div_mod::lemma_fundamental_div_mod(i, cols as int);
        assert(r * cols + c == i) by (nonlinear_arith)
            requires
                i == cols * r + c,
        ;
        assert(0 <= c < cols) by {
            vstd::arithmetic::div_mod::lemma_mod_bound(i, cols as int);
        }
        assert(0 <= r < rows) by (nonlinear_arith)
            requires
                i == r * cols + c,
                0 <= c < cols,
                0 <= i < cols * rows,
        ;
        assert(s[r * cols + c] == f(r, c));
    }
    assert(s =~= g);
}

} // verus!
