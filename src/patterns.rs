use crate::grid::{is_square, lemma_wrapped_close, wrapped};
use crate::rules::{live_at, live_neighbors, lives_on, next_generation};
use vstd::prelude::*;

verus! {

/// 1 for `true`, 0 for `false`.
pub open spec fn ind(b: bool) -> int {
    if b {
        1
    } else {
        0
    }
}

/// The board of side `n` where cell `(r, c)` is alive exactly when row `r`
/// and column `c` are both marked.
pub open spec fn product_board(
    n: int,
    rows: spec_fn(int) -> bool,
    cols: spec_fn(int) -> bool,
) -> Seq<Seq<bool>> {
    Seq::new(n as nat, |r: int| Seq::new(n as nat, |c: int| rows(r) && cols(c)))
}

/// How many of the three positions `i - 1`, `i`, `i + 1`, wrapped round a
/// ring of `n`, are marked.
pub open spec fn marks_around(n: int, marked: spec_fn(int) -> bool, i: int) -> int {
    ind(marked(wrapped(i, n, -1))) + ind(marked(wrapped(i, n, 0))) + ind(
        marked(wrapped(i, n, 1)),
    )
}

/// A 2 by 2 block of live cells in the corner of an otherwise dead board.
pub open spec fn block(n: int) -> Seq<Seq<bool>> {
    product_board(n, |r: int| r < 2, |c: int| c < 2)
}

/// Three live cells side by side in row 1, columns 0 to 2.
pub open spec fn horizontal_blinker(n: int) -> Seq<Seq<bool>> {
    product_board(n, |r: int| r == 1, |c: int| c < 3)
}

/// Three live cells one above another in column 1, rows 0 to 2.
pub open spec fn vertical_blinker(n: int) -> Seq<Seq<bool>> {
    product_board(n, |r: int| r < 3, |c: int| c == 1)
}

/// On a product board the 3 by 3 window round a cell holds the product of
/// the marked rows and the marked columns that it covers, so the live
/// neighbours are that product less the cell itself.
pub proof fn lemma_product_count(
    n: int,
    rows: spec_fn(int) -> bool,
    cols: spec_fn(int) -> bool,
    i: int,
    j: int,
)
    requires
        1 <= n <= i32::MAX,
        0 <= i < n,
        0 <= j < n,
    ensures
        is_square(product_board(n, rows, cols)),
        live_neighbors(product_board(n, rows, cols), i, j) == marks_around(n, rows, i)
            * marks_around(n, cols, j) - ind(rows(i) && cols(j)),
{
    let g = product_board(n, rows, cols);
    lemma_wrapped_close(i, n, -1);
    lemma_wrapped_close(i, n, 0);
    lemma_wrapped_close(i, n, 1);
    lemma_wrapped_close(j, n, -1);
    lemma_wrapped_close(j, n, 0);
    lemma_wrapped_close(j, n, 1);
    let a0 = ind(rows(wrapped(i, n, -1)));
    let a1 = ind(rows(wrapped(i, n, 0)));
    let a2 = ind(rows(wrapped(i, n, 1)));
    let b0 = ind(cols(wrapped(j, n, -1)));
    let b1 = ind(cols(wrapped(j, n, 0)));
    let b2 = ind(cols(wrapped(j, n, 1)));
    assert(live_at(g, i, j, -1, -1) == a0 * b0);
    assert(live_at(g, i, j, -1, 0) == a0 * b1);
    assert(live_at(g, i, j, -1, 1) == a0 * b2);
    assert(live_at(g, i, j, 0, -1) == a1 * b0);
    assert(live_at(g, i, j, 0, 1) == a1 * b2);
    assert(live_at(g, i, j, 1, -1) == a2 * b0);
    assert(live_at(g, i, j, 1, 0) == a2 * b1);
    assert(live_at(g, i, j, 1, 1) == a2 * b2);
    assert(ind(rows(i) && cols(j)) == a1 * b1);
    assert((a0 + a1 + a2) * (b0 + b1 + b2) == a0 * b0 + a0 * b1 + a0 * b2 + a1 * b0 + a1 * b1 + a1
        * b2 + a2 * b0 + a2 * b1 + a2 * b2) by (nonlinear_arith);
}

/// A 2 by 2 block is a still life: on every board of side at least 4 the
/// next generation of a lone block is the same block.
pub proof fn lemma_block_still_life(n: int)
    requires
        4 <= n <= i32::MAX,
    ensures
        is_square(block(n)),
        next_generation(block(n)) == block(n),
{
    let g = block(n);
    let rows = |r: int| r < 2;
    assert forall|i: int, j: int| 0 <= i < n && 0 <= j < n implies #[trigger] lives_on(g, i, j)
        == g[i][j] by {
        lemma_product_count(n, rows, rows, i, j);
        lemma_wrapped_close(i, n, -1);
        lemma_wrapped_close(i, n, 0);
        lemma_wrapped_close(i, n, 1);
        lemma_wrapped_close(j, n, -1);
        lemma_wrapped_close(j, n, 0);
        lemma_wrapped_close(j, n, 1);
        let a = marks_around(n, rows, i);
        let b = marks_around(n, rows, j);
        assert(a == 2 <==> i < 2);
        assert(b == 2 <==> j < 2);
        assert(0 <= a <= 2 && 0 <= b <= 2);
        assert(a * b != 3) by (nonlinear_arith)
            requires
                0 <= a <= 2,
                0 <= b <= 2,
        ;
        if a == 2 && b == 2 {
            assert(a * b == 4);
        }
    }
    lemma_product_count(n, rows, rows, 0, 0);
    assert forall|i: int| 0 <= i < n implies #[trigger] next_generation(g)[i] =~= g[i] by {
        assert forall|j: int| 0 <= j < n implies next_generation(g)[i][j] == g[i][j] by {
            assert(lives_on(g, i, j) == g[i][j]);
        }
    }
    assert(next_generation(g) =~= g);
}

/// One generation turns a horizontal blinker into a vertical one, on every
/// board of side at least 5.
pub proof fn lemma_blinker_turns_vertical(n: int)
    requires
        5 <= n <= i32::MAX,
    ensures
        is_square(horizontal_blinker(n)),
        next_generation(horizontal_blinker(n)) == vertical_blinker(n),
{
    let g = horizontal_blinker(n);
    let h = vertical_blinker(n);
    let rows = |r: int| r == 1;
    let cols = |c: int| c < 3;
    assert forall|i: int, j: int| 0 <= i < n && 0 <= j < n implies #[trigger] lives_on(g, i, j)
        == h[i][j] by {
        lemma_product_count(n, rows, cols, i, j);
        lemma_wrapped_close(i, n, -1);
        lemma_wrapped_close(i, n, 0);
        lemma_wrapped_close(i, n, 1);
        lemma_wrapped_close(j, n, -1);
        lemma_wrapped_close(j, n, 0);
        lemma_wrapped_close(j, n, 1);
        let a = marks_around(n, rows, i);
        let b = marks_around(n, cols, j);
        assert(a == 1 <==> i < 3);
        assert(a == 0 <==> i >= 3);
        assert(b == 3 <==> j == 1);
        assert(b == 2 <==> j == 0 || j == 2);
        assert(0 <= b <= 3);
        if a == 0 {
            assert(a * b == 0);
        } else {
            assert(a * b == b);
        }
    }
    lemma_product_count(n, rows, cols, 0, 0);
    assert forall|i: int| 0 <= i < n implies #[trigger] next_generation(g)[i] =~= h[i] by {
        assert forall|j: int| 0 <= j < n implies next_generation(g)[i][j] == h[i][j] by {
            assert(lives_on(g, i, j) == h[i][j]);
        }
    }
    assert(next_generation(g) =~= h);
}

/// One generation turns a vertical blinker back into a horizontal one, on
/// every board of side at least 5.
pub proof fn lemma_blinker_turns_horizontal(n: int)
    requires
        5 <= n <= i32::MAX,
    ensures
        is_square(vertical_blinker(n)),
        next_generation(vertical_blinker(n)) == horizontal_blinker(n),
{
    let g = vertical_blinker(n);
    let h = horizontal_blinker(n);
    let rows = |r: int| r < 3;
    let cols = |c: int| c == 1;
    assert forall|i: int, j: int| 0 <= i < n && 0 <= j < n implies #[trigger] lives_on(g, i, j)
        == h[i][j] by {
        lemma_product_count(n, rows, cols, i, j);
        lemma_wrapped_close(i, n, -1);
        lemma_wrapped_close(i, n, 0);
        lemma_wrapped_close(i, n, 1);
        lemma_wrapped_close(j, n, -1);
        lemma_wrapped_close(j, n, 0);
        lemma_wrapped_close(j, n, 1);
        let a = marks_around(n, rows, i);
        let b = marks_around(n, cols, j);
        assert(b == 1 <==> j < 3);
        assert(b == 0 <==> j >= 3);
        assert(a == 3 <==> i == 1);
        assert(a == 2 <==> i == 0 || i == 2);
        assert(0 <= a <= 3);
        if b == 0 {
            assert(a * b == 0);
        } else {
            assert(a * b == a);
        }
    }
    lemma_product_count(n, rows, cols, 0, 0);
    assert forall|i: int| 0 <= i < n implies #[trigger] next_generation(g)[i] =~= h[i] by {
        assert forall|j: int| 0 <= j < n implies next_generation(g)[i][j] == h[i][j] by {
            assert(lives_on(g, i, j) == h[i][j]);
        }
    }
    assert(next_generation(g) =~= h);
}

/// The blinker oscillates with period 2: two generations bring a
/// horizontal blinker back to itself, through the vertical one.
pub proof fn lemma_blinker_period_two(n: int)
    requires
        5 <= n <= i32::MAX,
    ensures
        next_generation(horizontal_blinker(n)) != horizontal_blinker(n),
        next_generation(next_generation(horizontal_blinker(n))) == horizontal_blinker(n),
{
    lemma_blinker_turns_vertical(n);
    lemma_blinker_turns_horizontal(n);
    assert(vertical_blinker(n)[0][1] != horizontal_blinker(n)[0][1]);
}

} // verus!
