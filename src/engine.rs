use crate::grid::{is_square, Grid, GridError};
use crate::rules::{is_alive, lives_on, next_generation};
use vstd::prelude::*;

verus! {

/// `rand::random` (rand 0.8) returns a value drawn from the thread-local
/// generator; nothing is known of which one.
pub assume_specification<T>[ rand::random::<T> ]() -> (r: T)
    where
        rand::distributions::Standard: rand::distributions::Distribution<T>,
;

/// The draws as nested sequences.
pub open spec fn draws_view(d: Seq<Vec<u32>>) -> Seq<Seq<u32>> {
    d.map_values(|r: Vec<u32>| r@)
}

/// The board where a cell is alive exactly when its draw is below
/// `threshold`: with uniform 32-bit draws a cell lives with probability
/// `threshold / 2^32`.
pub open spec fn cells_of_draws(d: Seq<Seq<u32>>, threshold: u64) -> Seq<Seq<bool>> {
    d.map_values(|row: Seq<u32>| row.map_values(|x: u32| (x as u64) < threshold))
}

/// Whether `d` holds `n` rows of `n` draws each.
pub open spec fn draws_of_side(d: Seq<Seq<u32>>, n: int) -> bool {
    &&& d.len() == n
    &&& forall|r: int| 0 <= r < n ==> #[trigger] d[r].len() == n
}

/// Builds a board from one draw per cell: the cell is alive exactly when
/// its draw is below `threshold`. Fails as `Grid::from_rows` does where the
/// draws are not square.
pub fn grid_from_draws(draws: &Vec<Vec<u32>>, threshold: u64) -> (r: Result<Grid, GridError>)
    requires
        draws@.len() <= i32::MAX,
    ensures
        draws@.len() == 0 <==> r == Err::<Grid, GridError>(GridError::InvalidDimension),
        draws@.len() > 0 && draws_of_side(draws_view(draws@), draws@.len() as int) <==> r.is_ok(),
        r.is_ok() ==> r.unwrap().wf() && r.unwrap()@ == cells_of_draws(
            draws_view(draws@),
            threshold,
        ),
{
    let mut rows: Vec<Vec<bool>> = Vec::new();
    let mut i: usize = 0;
    while i < draws.len()
        invariant
            i <= draws@.len(),
            rows@.len() == i,
            forall|k: int|
                0 <= k < i ==> (#[trigger] rows@[k])@ == draws@[k]@.map_values(
                    |x: u32| (x as u64) < threshold,
                ),
        decreases draws@.len() - i,
    {
        let mut row: Vec<bool> = Vec::new();
        let mut j: usize = 0;
        while j < draws[i].len()
            invariant
                i < draws@.len(),
                j <= draws@[i as int]@.len(),
                row@ == draws@[i as int]@.subrange(0, j as int).map_values(
                    |x: u32| (x as u64) < threshold,
                ),
            decreases draws@[i as int]@.len() - j,
        {
            row.push((draws[i][j] as u64) < threshold);
            j = j + 1;
            assert(row@ =~= draws@[i as int]@.subrange(0, j as int).map_values(
                |x: u32| (x as u64) < threshold,
            ));
        }
        assert(draws@[i as int]@.subrange(0, j as int) =~= draws@[i as int]@);
        rows.push(row);
        i = i + 1;
    }
    let ghost cells = cells_of_draws(draws_view(draws@), threshold);
    assert(crate::grid::rows_view(rows@) =~~= cells);
    assert(draws@.len() > 0 && draws_of_side(draws_view(draws@), draws@.len() as int)
        <==> is_square(cells)) by {
        if draws_of_side(draws_view(draws@), draws@.len() as int) {
            assert forall|r: int| 0 <= r < cells.len() implies #[trigger] cells[r].len()
                == cells.len() by {
                assert(draws_view(draws@)[r].len() == draws@.len());
            }
        }
        if is_square(cells) && draws@.len() > 0 {
            assert forall|r: int| 0 <= r < draws@.len() implies #[trigger] draws_view(
                draws@,
            )[r].len() == draws@.len() by {
                assert(cells[r].len() == cells.len());
            }
        }
    }
    Grid::from_rows(rows)
}

/// The state of a run: the latest generation, and a second board of the
/// same side into which the next one is written.
pub struct SimulationState {
    curr: Grid,
    prev: Grid,
}

impl View for SimulationState {
    type V = Seq<Seq<bool>>;

    /// The latest completed generation.
    closed spec fn view(&self) -> Seq<Seq<bool>> {
        self.curr@
    }
}

impl SimulationState {
    /// Both boards are square and of one side.
    pub closed spec fn wf(&self) -> bool {
        &&& self.curr.wf()
        &&& self.prev.wf()
        &&& self.prev@.len() == self.curr@.len()
    }

    /// Starts a run from `initial`, with a dead board of the same side as
    /// scratch space.
    pub fn new(initial: Grid) -> (s: SimulationState)
        requires
            initial.wf(),
        ensures
            s.wf(),
            s@ == initial@,
    {
        let n = initial.len();
        SimulationState { curr: initial, prev: Grid::filled(n, false) }
    }

    /// Starts a run on a board of side `n` where each cell is alive exactly
    /// when a fresh random 32-bit draw falls below `threshold` (so with
    /// probability `threshold / 2^32`). Fails where `n` is 0.
    pub fn initialize(n: usize, threshold: u64) -> (r: Result<SimulationState, GridError>)
        requires
            n <= i32::MAX,
        ensures
            n == 0 <==> r == Err::<SimulationState, GridError>(GridError::InvalidDimension),
            n > 0 <==> r.is_ok(),
            r.is_ok() ==> r.unwrap().wf() && is_square(r.unwrap()@) && r.unwrap()@.len() == n
                && exists|d: Seq<Seq<u32>>|
                draws_of_side(d, n as int) && r.unwrap()@ == cells_of_draws(d, threshold),
    {
        if n == 0 {
            return Err(GridError::InvalidDimension);
        }
        let mut draws: Vec<Vec<u32>> = Vec::new();
        let mut i: usize = 0;
        while i < n
            invariant
                i <= n,
                draws@.len() == i,
                forall|k: int| 0 <= k < i ==> (#[trigger] draws@[k])@.len() == n,
            decreases n - i,
        {
            let mut row: Vec<u32> = Vec::new();
            let mut j: usize = 0;
            while j < n
                invariant
                    j <= n,
                    row@.len() == j,
                decreases n - j,
            {
                row.push(rand::random::<u32>());
                j = j + 1;
            }
            draws.push(row);
            i = i + 1;
        }
        assert(draws_of_side(draws_view(draws@), n as int));
        match grid_from_draws(&draws, threshold) {
            Ok(g) => Ok(SimulationState::new(g)),
            Err(e) => Err(e),
        }
    }

    /// The latest completed generation.
    pub fn current(&self) -> (g: &Grid)
        requires
            self.wf(),
        ensures
            g.wf(),
            g@ == self@,
    {
        &self.curr
    }

    /// Advances the run by one generation: every cell of the next board is
    /// computed from the current one alone, and then the two boards trade
    /// roles. What the scratch board held before has no bearing on the result.
    pub fn step(&mut self)
        requires
            old(self).wf(),
        ensures
            final(self).wf(),
            is_square(final(self)@),
            final(self)@ == next_generation(old(self)@),
    {
        let n = self.curr.len();
        let mut i: usize = 0;
        while i < n
            invariant
                self.curr == old(self).curr,
                self.curr.wf(),
                self.prev.wf(),
                n == self.curr@.len(),
                self.prev@.len() == n,
                i <= n,
                forall|r: int, c: int|
                    0 <= r < i && 0 <= c < n ==> #[trigger] self.prev@[r][c] == lives_on(
                        self.curr@,
                        r,
                        c,
                    ),
            decreases n - i,
        {
            let mut j: usize = 0;
            while j < n
                invariant
                    self.curr == old(self).curr,
                    self.curr.wf(),
                    self.prev.wf(),
                    n == self.curr@.len(),
                    self.prev@.len() == n,
                    i < n,
                    j <= n,
                    forall|r: int, c: int|
                        0 <= r < i && 0 <= c < n ==> #[trigger] self.prev@[r][c] == lives_on(
                            self.curr@,
                            r,
                            c,
                        ),
                    forall|c: int| 0 <= c < j ==> #[trigger] self.prev@[i as int][c] == lives_on(
                        self.curr@,
                        i as int,
                        c,
                    ),
                decreases n - j,
            {
                let alive = is_alive(i, j, &self.curr);
                self.prev.set(i, j, alive);
                j = j + 1;
            }
            i = i + 1;
        }
        std::mem::swap(&mut self.curr, &mut self.prev);
        let ghost g = old(self)@;
        assert forall|r: int| 0 <= r < n implies #[trigger] self@[r] =~= next_generation(g)[r] by {
            assert forall|c: int| 0 <= c < n implies self@[r][c] == next_generation(g)[r][c] by {
                assert(self.curr@[r][c] == lives_on(g, r, c));
            }
        }
        assert(self@ =~= next_generation(g));
    }
}

} // verus!
