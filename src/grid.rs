use vstd::arithmetic::div_mod::lemma_fundamental_div_mod_converse;
use vstd::prelude::*;

verus! {

/// Where a coordinate lands on a ring of `size` positions after moving by
/// `amt`: the non-negative remainder of `idx + amt` modulo `size`.
pub open spec fn wrapped(idx: int, size: int, amt: int) -> int {
    (idx + amt) % size
}

/// A board is square, holds at least one cell, and its side fits in an `i32`.
pub open spec fn is_square(g: Seq<Seq<bool>>) -> bool {
    &&& 1 <= g.len() <= i32::MAX as int
    &&& forall|r: int| 0 <= r < g.len() ==> #[trigger] g[r].len() == g.len()
}

/// Moving by at most one full turn either way lands on the value that the
/// branch-free remainder gives.
pub proof fn lemma_wrapped_close(idx: int, size: int, amt: int)
    requires
        1 <= size,
        0 <= idx < size,
        -size <= amt <= size,
    ensures
        0 <= wrapped(idx, size, amt) < size,
        idx + amt < 0 ==> wrapped(idx, size, amt) == size + idx + amt,
        0 <= idx + amt < size ==> wrapped(idx, size, amt) == idx + amt,
        size <= idx + amt ==> wrapped(idx, size, amt) == idx + amt - size,
{
    let x = idx + amt;
    if x < 0 {
        lemma_fundamental_div_mod_converse(x, size, -1, size + x);
    } else if x < size {
        lemma_fundamental_div_mod_converse(x, size, 0, x);
    } else {
        lemma_fundamental_div_mod_converse(x, size, 1, x - size);
    }
}

/// The neighbours one step before and after a coordinate, on a ring of at
/// least two positions: the first position's predecessor is the last one,
/// and the last position's successor is the first one.
pub proof fn lemma_wrap_edges(n: int)
    requires
        n >= 2,
    ensures
        forall|i: int|
            0 <= i < n ==> 0 <= #[trigger] wrapped(i, n, -1) < n && 0 <= wrapped(i, n, 1) < n,
        wrapped(0, n, -1) == n - 1,
        wrapped(n - 1, n, 1) == 0,
{
    assert forall|i: int| 0 <= i < n implies 0 <= #[trigger] wrapped(i, n, -1) < n && 0
        <= wrapped(i, n, 1) < n by {
        lemma_wrapped_close(i, n, -1);
        lemma_wrapped_close(i, n, 1);
    }
    lemma_wrapped_close(0, n, -1);
    lemma_wrapped_close(n - 1, n, 1);
}

/// Moves coordinate `idx` by `amt` on a ring of `size` positions, so that a
/// step off one edge comes back in at the opposite edge.
pub fn wrap(idx: i32, size: i32, amt: i32) -> (r: usize)
    requires
        1 <= size,
        0 <= idx < size,
        -size <= amt <= size,
    ensures
        r as int == wrapped(idx as int, size as int, amt as int),
        r < size,
{
    proof {
        lemma_wrapped_close(idx as int, size as int, amt as int);
    }
    let res: i64 = idx as i64 + amt as i64;
    if res < 0 {
        (size as i64 + res) as usize
    } else {
        (res % (size as i64)) as usize
    }
}

/// Why a board could not be built.
#[derive(Debug, Clone, Copy, PartialEq, Eq)]
pub enum GridError {
    /// The board has no cells.
    InvalidDimension,
    /// Some row is not as long as the board is tall.
    NotSquare,
}

/// The rows of a board as nested sequences.
pub open spec fn rows_view(rows: Seq<Vec<bool>>) -> Seq<Seq<bool>> {
    rows.map_values(|r: Vec<bool>| r@)
}

/// A square board of cells, each alive (`true`) or dead (`false`).
pub struct Grid {
    cells: Vec<Vec<bool>>,
}

impl View for Grid {
    type V = Seq<Seq<bool>>;

    closed spec fn view(&self) -> Seq<Seq<bool>> {
        rows_view(self.cells@)
    }
}

impl Grid {
    /// The board is square and not empty.
    pub open spec fn wf(&self) -> bool {
        is_square(self@)
    }

    /// Builds a board from its rows; row `r` holds the cells `(r, 0)`,
    /// `(r, 1)`, ... in order.
    pub fn from_rows(rows: Vec<Vec<bool>>) -> (r: Result<Grid, GridError>)
        requires
            rows@.len() <= i32::MAX,
        ensures
            rows@.len() == 0 <==> r == Err::<Grid, GridError>(GridError::InvalidDimension),
            is_square(rows_view(rows@)) <==> r.is_ok(),
            r.is_ok() ==> r.unwrap()@ == rows_view(rows@) && r.unwrap().wf(),
    {
        let n = rows.len();
        if n == 0 {
            return Err(GridError::InvalidDimension);
        }
        let mut k: usize = 0;
        while k < n
            invariant
                n == rows@.len(),
                k <= n,
                forall|r: int| 0 <= r < k ==> #[trigger] rows@[r]@.len() == n,
            decreases n - k,
        {
            if rows[k].len() != n {
                assert(rows_view(rows@)[k as int].len() != rows_view(rows@).len());
                return Err(GridError::NotSquare);
            }
            k = k + 1;
        }
        let g = Grid { cells: rows };
        assert forall|r: int| 0 <= r < g@.len() implies #[trigger] g@[r].len() == g@.len() by {
            assert(g.cells@[r]@.len() == n);
        }
        Ok(g)
    }

    /// A board of side `n` whose cells all hold `value`.
    pub fn filled(n: usize, value: bool) -> (g: Grid)
        requires
            1 <= n <= i32::MAX,
        ensures
            g.wf(),
            g@.len() == n,
            forall|i: int, j: int| 0 <= i < n && 0 <= j < n ==> #[trigger] g@[i][j] == value,
    {
        let mut cells: Vec<Vec<bool>> = Vec::new();
        let mut i: usize = 0;
        while i < n
            invariant
                i <= n,
                cells@.len() == i,
                forall|r: int| 0 <= r < i ==> (#[trigger] cells@[r])@ == Seq::new(n as nat, |c: int| value),
            decreases n - i,
        {
            let mut row: Vec<bool> = Vec::new();
            let mut j: usize = 0;
            while j < n
                invariant
                    j <= n,
                    row@ == Seq::new(j as nat, |c: int| value),
                decreases n - j,
            {
                row.push(value);
                j = j + 1;
                assert(row@ =~= Seq::new(j as nat, |c: int| value));
            }
            cells.push(row);
            i = i + 1;
        }
        Grid { cells }
    }

    /// The side of the board.
    pub fn len(&self) -> (n: usize)
        requires
            self.wf(),
        ensures
            n == self@.len(),
    {
        self.cells.len()
    }

    /// Whether the cell in `row`, `col` is alive.
    pub fn get(&self, row: usize, col: usize) -> (alive: bool)
        requires
            self.wf(),
            row < self@.len(),
            col < self@.len(),
        ensures
            alive == self@[row as int][col as int],
    {
        assert(self.cells@[row as int]@ == self@[row as int]);
        self.cells[row][col]
    }

    /// Makes the cell in `row`, `col` alive or dead, leaving the others as
    /// they were.
    pub fn set(&mut self, row: usize, col: usize, alive: bool)
        requires
            old(self).wf(),
            row < old(self)@.len(),
            col < old(self)@.len(),
        ensures
            final(self).wf(),
            final(self)@ == old(self)@.update(row as int, old(self)@[row as int].update(col as int, alive)),
    {
        assert(self.cells@[row as int]@ == self@[row as int]);
        self.cells[row][col] = alive;
        assert(self@ =~= old(self)@.update(row as int, old(self)@[row as int].update(col as int, alive)));
    }

    /// A copy of the rows of the board.
    pub fn to_rows(&self) -> (rows: Vec<Vec<bool>>)
        requires
            self.wf(),
        ensures
            rows_view(rows@) == self@,
    {
        let n = self.cells.len();
        let mut rows: Vec<Vec<bool>> = Vec::new();
        let mut i: usize = 0;
        while i < n
            invariant
                n == self@.len(),
                self.wf(),
                i <= n,
                rows@.len() == i,
                forall|r: int| 0 <= r < i ==> (#[trigger] rows@[r])@ == self@[r],
            decreases n - i,
        {
            let mut row: Vec<bool> = Vec::new();
            let mut j: usize = 0;
            while j < n
                invariant
                    n == self@.len(),
                    self.wf(),
                    i < n,
                    j <= n,
                    row@ == self@[i as int].subrange(0, j as int),
                decreases n - j,
            {
                row.push(self.cells[i][j]);
                j = j + 1;
                assert(row@ =~= self@[i as int].subrange(0, j as int));
            }
            assert(row@ =~= self@[i as int]);
            rows.push(row);
            i = i + 1;
        }
        assert(rows_view(rows@) =~= self@);
        rows
    }
}

} // verus!
