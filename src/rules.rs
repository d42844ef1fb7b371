use crate::grid::{is_square, lemma_wrapped_close, wrap, wrapped, Grid};
use vstd::prelude::*;

verus! {

/// 1 where the cell `di` rows and `dj` columns away from `(i, j)`, with
/// both coordinates wrapped round the board, is alive; 0 where it is dead.
pub open spec fn live_at(g: Seq<Seq<bool>>, i: int, j: int, di: int, dj: int) -> int {
    if g[wrapped(i, g.len() as int, di)][wrapped(j, g.len() as int, dj)] {
        1
    } else {
        0
    }
}

/// How many of the eight cells round `(i, j)` (its Moore neighbourhood on
/// the torus) are alive. A neighbour is told apart by its offset, so on a
/// board narrower than three cells one cell may be counted more than once.
pub open spec fn live_neighbors(g: Seq<Seq<bool>>, i: int, j: int) -> int {
    live_at(g, i, j, -1, -1) + live_at(g, i, j, -1, 0) + live_at(g, i, j, -1, 1)
        + live_at(g, i, j, 0, -1) + live_at(g, i, j, 0, 1)
        + live_at(g, i, j, 1, -1) + live_at(g, i, j, 1, 0) + live_at(g, i, j, 1, 1)
}

/// Whether cell `(i, j)` is alive in the generation after `g`: it is born
/// with exactly three live neighbours and survives with two or three.
pub open spec fn lives_on(g: Seq<Seq<bool>>, i: int, j: int) -> bool {
    live_neighbors(g, i, j) == 3 || (live_neighbors(g, i, j) == 2 && g[i][j])
}

/// The generation after `g`, every cell computed from `g` alone.
pub open spec fn next_generation(g: Seq<Seq<bool>>) -> Seq<Seq<bool>> {
    Seq::new(g.len(), |i: int| Seq::new(g.len(), |j: int| lives_on(g, i, j)))
}

/// 1 if the neighbour of `(i, j)` at offset `di`, `dj` is alive, else 0.
fn live_at_offset(board: &Grid, i: usize, j: usize, di: i32, dj: i32) -> (c: u32)
    requires
        board.wf(),
        i < board@.len(),
        j < board@.len(),
        -1 <= di <= 1,
        -1 <= dj <= 1,
    ensures
        c as int == live_at(board@, i as int, j as int, di as int, dj as int),
{
    let n = board.len();
    let r = wrap(i as i32, n as i32, di);
    let c = wrap(j as i32, n as i32, dj);
    if board.get(r, c) {
        1
    } else {
        0
    }
}

/// Counts the live cells among the eight neighbours of `(i, j)`, each
/// coordinate wrapped round the board.
pub fn neighbor_count(i: usize, j: usize, board: &Grid) -> (count: u32)
    requires
        board.wf(),
        i < board@.len(),
        j < board@.len(),
    ensures
        count as int == live_neighbors(board@, i as int, j as int),
        count <= 8,
{
    let mut count: u32 = 0;
    count = count + live_at_offset(board, i, j, -1, -1);
    count = count + live_at_offset(board, i, j, -1, 0);
    count = count + live_at_offset(board, i, j, -1, 1);
    count = count + live_at_offset(board, i, j, 0, -1);
    count = count + live_at_offset(board, i, j, 0, 1);
    count = count + live_at_offset(board, i, j, 1, -1);
    count = count + live_at_offset(board, i, j, 1, 0);
    count = count + live_at_offset(board, i, j, 1, 1);
    count
}

/// Whether cell `(i, j)` of `board` is alive in the next generation.
pub fn is_alive(i: usize, j: usize, board: &Grid) -> (alive: bool)
    requires
        board.wf(),
        i < board@.len(),
        j < board@.len(),
    ensures
        alive == lives_on(board@, i as int, j as int),
{
    let neighbors_alive = neighbor_count(i, j, board);
    neighbors_alive == 3 || (neighbors_alive == 2 && board.get(i, j))
}

/// The rule cell by cell: three live neighbours make a cell alive whatever
/// it was; a live cell with two or three stays alive; a dead cell with any
/// count but three stays dead; and with fewer than two or more than three
/// every cell dies. In particular a cell with no live neighbour dies.
pub proof fn lemma_rule(g: Seq<Seq<bool>>, i: int, j: int)
    requires
        is_square(g),
        0 <= i < g.len(),
        0 <= j < g.len(),
    ensures
        0 <= live_neighbors(g, i, j) <= 8,
        live_neighbors(g, i, j) == 3 ==> next_generation(g)[i][j],
        g[i][j] && live_neighbors(g, i, j) == 2 ==> next_generation(g)[i][j],
        !g[i][j] && live_neighbors(g, i, j) != 3 ==> !next_generation(g)[i][j],
        live_neighbors(g, i, j) < 2 || live_neighbors(g, i, j) > 3 ==> !next_generation(g)[i][j],
        live_neighbors(g, i, j) == 0 ==> !next_generation(g)[i][j],
{
}

/// The next generation depends on the current one alone: equal boards step
/// to equal boards, with the same side.
pub proof fn lemma_step_deterministic(g1: Seq<Seq<bool>>, g2: Seq<Seq<bool>>)
    requires
        is_square(g1),
        g1 == g2,
    ensures
        next_generation(g1) == next_generation(g2),
        is_square(next_generation(g1)),
        next_generation(g1).len() == g1.len(),
{
}

/// On a board of one cell every neighbour wraps to that cell. A dead cell
/// sees no live neighbour and stays dead; a live one sees eight and dies.
/// Either way the cell is dead in the next generation and in every one after.
pub proof fn lemma_single_cell(g: Seq<Seq<bool>>)
    requires
        is_square(g),
        g.len() == 1,
    ensures
        !g[0][0] ==> live_neighbors(g, 0, 0) == 0,
        g[0][0] ==> live_neighbors(g, 0, 0) == 8,
        is_square(next_generation(g)),
        next_generation(g).len() == 1,
        !next_generation(g)[0][0],
{
    lemma_wrapped_close(0, 1, -1);
    lemma_wrapped_close(0, 1, 0);
    lemma_wrapped_close(0, 1, 1);
}

} // verus!
