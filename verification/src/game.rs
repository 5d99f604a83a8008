//! Conway's Game of Life on a square board whose edges wrap around.
//!
//! The board is deliberately stored as a vector of rows of booleans. A step is
//! computed in two phases: `next_step` lists the cells that change, and
//! `mutate` applies such a list.
use vstd::prelude::*;

verus! {

/// The state of the game: a `size` x `size` board of cells.
pub struct Game {
    size: usize,
    board: Vec<Vec<bool>>,
}

/// A position on the board: row, then column.
#[derive(Clone, Copy, Debug, PartialEq, Eq, Structural)]
pub struct XY(pub usize, pub usize);

/// A change of one cell.
#[derive(Clone, Copy, Debug, PartialEq, Eq, Structural)]
pub enum Mutation {
    /// The cell at the position becomes alive.
    On(XY),
    /// The cell at the position dies.
    Off(XY),
}

// ---------------------------------------------------------------------------
// Mathematical model
// ---------------------------------------------------------------------------

/// Every row has as many cells as there are rows.
pub open spec fn is_square(cells: Seq<Seq<bool>>) -> bool {
    forall|x: int| 0 <= x < cells.len() ==> #[trigger] cells[x].len() == cells.len()
}

/// The eight neighbour offsets, in the order in which they are visited.
pub open spec fn offset(k: int) -> (int, int) {
    if k == 0 {
        (1, -1)
    } else if k == 1 {
        (1, 0)
    } else if k == 2 {
        (1, 1)
    } else if k == 3 {
        (0, -1)
    } else if k == 4 {
        (0, 1)
    } else if k == 5 {
        (-1, -1)
    } else if k == 6 {
        (-1, 0)
    } else {
        (-1, 1)
    }
}

/// The coordinate `c + d` on a ring of `n` positions.
pub open spec fn wrap(c: int, d: int, n: int) -> int {
    (c + d) % n
}

/// Whether the `k`-th neighbour of `(x, y)` is alive, the board wrapping around.
pub open spec fn neighbour_alive(cells: Seq<Seq<bool>>, x: int, y: int, k: int) -> bool {
    let n = cells.len() as int;
    cells[wrap(x, offset(k).0, n)][wrap(y, offset(k).1, n)]
}

/// How many of the first `k` neighbours of `(x, y)` are alive.
pub open spec fn count_alive(cells: Seq<Seq<bool>>, x: int, y: int, k: nat) -> nat
    decreases k,
{
    if k == 0 {
        0
    } else {
        count_alive(cells, x, y, (k - 1) as nat) + if neighbour_alive(cells, x, y, k - 1) {
            1nat
        } else {
            0nat
        }
    }
}

/// The number of live neighbours of `(x, y)`.
pub open spec fn neighbours(cells: Seq<Seq<bool>>, x: int, y: int) -> nat {
    count_alive(cells, x, y, 8)
}

/// The rule of the game: a live cell survives with two or three live
/// neighbours; a dead cell comes alive with exactly three.
pub open spec fn next_state(alive: bool, n: nat) -> bool {
    if alive {
        n == 2 || n == 3
    } else {
        n == 3
    }
}

/// The board one generation later.
pub open spec fn life_step(cells: Seq<Seq<bool>>) -> Seq<Seq<bool>> {
    Seq::new(
        cells.len(),
        |x: int| Seq::new(cells.len(), |y: int| next_state(cells[x][y], neighbours(cells, x, y))),
    )
}

/// The mutation for cell `(x, y)`, if the cell changes in the next generation.
pub open spec fn cell_mutations(cells: Seq<Seq<bool>>, x: int, y: int) -> Seq<Mutation> {
    let alive = cells[x][y];
    let nb = neighbours(cells, x, y);
    if alive && nb != 2 && nb != 3 {
        seq![Mutation::Off(XY(x as usize, y as usize))]
    } else if !alive && nb == 3 {
        seq![Mutation::On(XY(x as usize, y as usize))]
    } else {
        seq![]
    }
}

/// The mutations of the first `j` cells of row `x`, in order.
pub open spec fn row_mutations(cells: Seq<Seq<bool>>, x: int, j: nat) -> Seq<Mutation>
    decreases j,
{
    if j == 0 {
        seq![]
    } else {
        row_mutations(cells, x, (j - 1) as nat) + cell_mutations(cells, x, j - 1)
    }
}

/// The mutations of the first `i` rows, row after row.
pub open spec fn rows_mutations(cells: Seq<Seq<bool>>, i: nat) -> Seq<Mutation>
    decreases i,
{
    if i == 0 {
        seq![]
    } else {
        rows_mutations(cells, (i - 1) as nat) + row_mutations(cells, i - 1, cells.len())
    }
}

/// The changes from one generation to the next, in row-major order.
pub open spec fn step_mutations(cells: Seq<Seq<bool>>) -> Seq<Mutation> {
    rows_mutations(cells, cells.len())
}

/// The cell a mutation addresses and the state it gives the cell.
pub open spec fn mutation_target(m: Mutation) -> (int, int, bool) {
    match m {
        Mutation::On(XY(x, y)) => (x as int, y as int, true),
        Mutation::Off(XY(x, y)) => (x as int, y as int, false),
    }
}

/// The mutation addresses a cell of an `n` x `n` board.
pub open spec fn in_bounds(m: Mutation, n: int) -> bool {
    0 <= mutation_target(m).0 < n && 0 <= mutation_target(m).1 < n
}

/// The board after one mutation.
pub open spec fn apply_mutation(cells: Seq<Seq<bool>>, m: Mutation) -> Seq<Seq<bool>> {
    let (x, y, v) = mutation_target(m);
    cells.update(x, cells[x].update(y, v))
}

/// The board after a list of mutations, applied first to last.
pub open spec fn apply_all(cells: Seq<Seq<bool>>, ms: Seq<Mutation>) -> Seq<Seq<bool>>
    decreases ms.len(),
{
    if ms.len() == 0 {
        cells
    } else {
        apply_mutation(apply_all(cells, ms.drop_last()), ms.last())
    }
}

/// An `n` x `n` board of dead cells.
pub open spec fn dead_board(n: nat) -> Seq<Seq<bool>> {
    Seq::new(n, |x: int| Seq::new(n, |y: int| false))
}

/// The byte that stands for a cell in the flat encoding.
pub open spec fn cell_byte(alive: bool) -> u8 {
    if alive {
        0xff
    } else {
        0
    }
}

/// The flat encoding of a board: its rows one after another, a byte per cell.
pub open spec fn encode_rows(cells: Seq<Seq<bool>>) -> Seq<u8>
    decreases cells.len(),
{
    if cells.len() == 0 {
        seq![]
    } else {
        encode_rows(cells.drop_last()) + cells.last().map_values(|b: bool| cell_byte(b))
    }
}

/// The `n` x `n` board that a flat byte string describes: a non-zero byte is a
/// live cell.
pub open spec fn decode_board(n: nat, flat: Seq<u8>) -> Seq<Seq<bool>> {
    Seq::new(n, |x: int| Seq::new(n, |y: int| flat[x * n + y] > 0))
}

/// Every byte of a flat board made `0xff` if non-zero, `0` otherwise.
pub open spec fn normalize(flat: Seq<u8>) -> Seq<u8> {
    flat.map_values(|b: u8| cell_byte(b > 0))
}

impl View for Game {
    type V = Seq<Seq<bool>>;

    closed spec fn view(&self) -> Seq<Seq<bool>> {
        self.board@.map_values(|row: Vec<bool>| row@)
    }
}

impl Game {
    /// The board has `size` rows of `size` cells.
    pub closed spec fn wf(&self) -> bool {
        &&& self.board@.len() == self.size
        &&& forall|x: int| 0 <= x < self.size ==> #[trigger] self.board@[x]@.len() == self.size
    }

    proof fn lemma_view(&self)
        requires
            self.wf(),
        ensures
            self@.len() == self.size,
            is_square(self@),
            forall|x: int| 0 <= x < self.size ==> #[trigger] self@[x] == self.board@[x]@,
    {
    }

    /// An empty (all dead) board of `size` x `size` cells.
    pub fn empty(size: u32) -> (game: Self)
        ensures
            game.wf(),
            game@ == dead_board(size as nat),
    {
        let size = size as usize;
        let mut board: Vec<Vec<bool>> = Vec::new();
        let mut i: usize = 0;
        while i < size
            invariant
                i <= size,
                board@.len() == i,
                forall|x: int| 0 <= x < i ==> #[trigger] board@[x]@ == Seq::new(size as nat, |y: int| false),
            decreases size - i,
        {
            let mut row: Vec<bool> = Vec::new();
            let mut j: usize = 0;
            while j < size
                invariant
                    j <= size,
                    row@ == Seq::new(j as nat, |y: int| false),
                decreases size - j,
            {
                row.push(false);
                j += 1;
                assert(row@ =~= Seq::new(j as nat, |y: int| false));
            }
            board.push(row);
            i += 1;
        }
        let game = Self { size, board };
        assert(game@ =~= dead_board(size as nat));
        game
    }

    /// The board of `size` x `size` cells that `flat` describes row by row: a
    /// non-zero byte is a live cell.
    pub fn new(size: u32, flat: &[u8]) -> (game: Self)
        requires
            size * size == flat@.len(),
        ensures
            game.wf(),
            game@ == decode_board(size as nat, flat@),
    {
        let mut game = Self::empty(size);
        let size = size as usize;
        let ghost n = size as nat;
        let flen = flat.len();
        proof {
            game.lemma_view();
            assert forall|i: int, j: int| 0 <= i < size && 0 <= j < size implies
                #[trigger] game.board@[i]@[j] == false by {
                assert(game@[i] == game.board@[i]@);
            }
        }
        let mut x: usize = 0;
        while x < size
            invariant
                x <= size,
                n == size,
                size * size == flat@.len(),
                flen == flat@.len(),
                game.wf(),
                game.size == size,
                forall|i: int, j: int|
                    0 <= i < size && 0 <= j < size ==> #[trigger] game.board@[i]@[j] == if i < x {
                        flat@[i * n + j] > 0
                    } else {
                        false
                    },
            decreases size - x,
        {
            let mut y: usize = 0;
            while y < size
                invariant
                    x < size,
                    y <= size,
                    n == size,
                    size * size == flat@.len(),
                    flen == flat@.len(),
                    game.wf(),
                    game.size == size,
                    forall|i: int, j: int|
                        0 <= i < size && 0 <= j < size ==> #[trigger] game.board@[i]@[j] == if i < x
                            || (i == x && j < y) {
                            flat@[i * n + j] > 0
                        } else {
                            false
                        },
                decreases size - y,
            {
                assert(x * size + y < size * size) by (nonlinear_arith)
                    requires
                        x < size,
                        y < size,
                ;
                assert(x * size + y < flen);
                let v = flat[x * size + y] > 0;
                game.board[x].set(y, v);
                y += 1;
            }
            x += 1;
        }
        proof {
            game.lemma_view();
            assert forall|i: int| 0 <= i < n implies #[trigger] game@[i] =~= decode_board(n, flat@)[i] by {
                assert forall|j: int| 0 <= j < n implies game@[i][j] == decode_board(n, flat@)[i][j] by {
                    assert(game.board@[i]@[j] == (flat@[i * n + j] > 0));
                }
            }
            assert(game@ =~= decode_board(n, flat@));
        }
        game
    }

    /// The board, row by row, one byte per cell: `0xff` alive, `0` dead.
    pub fn export(&self) -> (result: Vec<u8>)
        requires
            self.wf(),
        ensures
            result@ == encode_rows(self@),
    {
        proof {
            self.lemma_view();
        }
        let mut result: Vec<u8> = Vec::new();
        let mut x: usize = 0;
        while x < self.size
            invariant
                x <= self.size,
                self.wf(),
                self@.len() == self.size,
                forall|i: int| 0 <= i < self.size ==> #[trigger] self@[i] == self.board@[i]@,
                result@ == encode_rows(self@.take(x as int)),
            decreases self.size - x,
        {
            let row = &self.board[x];
            let mut y: usize = 0;
            while y < row.len()
                invariant
                    x < self.size,
                    row@ == self@[x as int],
                    y <= row@.len(),
                    result@ == encode_rows(self@.take(x as int)) + row@.take(y as int).map_values(
                        |b: bool| cell_byte(b),
                    ),
                decreases row.len() - y,
            {
                let b = row[y];
                result.push(if b {
                    0xff
                } else {
                    0
                });
                proof {
                    assert(row@.take(y + 1).map_values(|b: bool| cell_byte(b)) =~= row@.take(
                        y as int,
                    ).map_values(|b: bool| cell_byte(b)).push(cell_byte(b)));
                }
                y += 1;
            }
            proof {
                let t = self@.take(x + 1);
                assert(t.drop_last() =~= self@.take(x as int));
                assert(row@.take(y as int) =~= row@);
                assert(t.last() == row@);
            }
            x += 1;
        }
        assert(self@.take(x as int) =~= self@);
        result
    }

    /// The offset of the `k`-th neighbour.
    fn neighbour_offset(k: usize) -> (r: (i32, i32))
        requires
            k < 8,
        ensures
            r.0 == offset(k as int).0,
            r.1 == offset(k as int).1,
    {
        if k == 0 {
            (1, -1)
        } else if k == 1 {
            (1, 0)
        } else if k == 2 {
            (1, 1)
        } else if k == 3 {
            (0, -1)
        } else if k == 4 {
            (0, 1)
        } else if k == 5 {
            (-1, -1)
        } else if k == 6 {
            (-1, 0)
        } else {
            (-1, 1)
        }
    }

    /// The number of live neighbours of `pos`.
    ///
    /// A neighbour coordinate is computed as `(c + d) % size` with Rust's
    /// remainder, which is negative for `c == 0, d == -1` on a board of more
    /// than one row: the board is indexed there out of bounds. So the cell
    /// must not stand in the first row or column unless the board has a
    /// single cell.
    pub fn count_neighbours(&self, pos: XY) -> (count: u32)
        requires
            self.wf(),
            pos.0 < self@.len(),
            pos.1 < self@.len(),
            self@.len() <= i32::MAX,
            self@.len() == 1 || (pos.0 >= 1 && pos.1 >= 1),
        ensures
            count == neighbours(self@, pos.0 as int, pos.1 as int),
    {
        proof {
            self.lemma_view();
        }
        let ghost cells = self@;
        let ghost x = pos.0 as int;
        let ghost y = pos.1 as int;
        let n = self.size as i32;
        let mut count: u32 = 0;
        let mut k: usize = 0;
        while k < 8
            invariant
                self.wf(),
                cells == self@,
                cells.len() == self.size,
                is_square(cells),
                forall|i: int| 0 <= i < self.size ==> #[trigger] cells[i] == self.board@[i]@,
                n == self.size,
                0 < n <= i32::MAX,
                x == pos.0,
                y == pos.1,
                0 <= x < n,
                0 <= y < n,
                n == 1 || (x >= 1 && y >= 1),
                k <= 8,
                count == count_alive(cells, x, y, k as nat),
                count <= k,
            decreases 8 - k,
        {
            let (mod_x, mod_y) = Self::neighbour_offset(k);
            let n_x = (pos.0 as i32 + mod_x) % n;
            let n_y = (pos.1 as i32 + mod_y) % n;
            proof {
                assert(n_x == wrap(x, offset(k as int).0, n as int));
                assert(n_y == wrap(y, offset(k as int).1, n as int));
                assert(0 <= n_x < n);
                assert(0 <= n_y < n);
            }
            let is_alive = self.board[n_x as usize][n_y as usize];
            if is_alive {
                count += 1;
            }
            k += 1;
        }
        count
    }

    /// The mutations that take the board to its next generation, in row-major
    /// order.
    ///
    /// Every cell is visited, the first row and column included, so by the
    /// contract of `count_neighbours` the board must have at most one cell.
    pub fn next_step(&self) -> (mutations: Vec<Mutation>)
        requires
            self.wf(),
            self@.len() <= 1,
        ensures
            mutations@ == step_mutations(self@),
            forall|i: int|
                0 <= i < mutations@.len() ==> in_bounds(#[trigger] mutations@[i], self@.len() as int),
    {
        proof {
            self.lemma_view();
        }
        let ghost cells = self@;
        let mut mutations: Vec<Mutation> = Vec::new();
        let mut x: usize = 0;
        while x < self.size
            invariant
                self.wf(),
                cells == self@,
                cells.len() == self.size,
                self.size <= 1,
                is_square(cells),
                forall|i: int| 0 <= i < self.size ==> #[trigger] cells[i] == self.board@[i]@,
                x <= self.size,
                mutations@ == rows_mutations(cells, x as nat),
                forall|i: int|
                    0 <= i < mutations@.len() ==> in_bounds(#[trigger] mutations@[i], self.size as int),
            decreases self.size - x,
        {
            let mut y: usize = 0;
            while y < self.size
                invariant
                    self.wf(),
                    cells == self@,
                    cells.len() == self.size,
                    self.size <= 1,
                    is_square(cells),
                    forall|i: int| 0 <= i < self.size ==> #[trigger] cells[i] == self.board@[i]@,
                    x < self.size,
                    y <= self.size,
                    mutations@ == rows_mutations(cells, x as nat) + row_mutations(
                        cells,
                        x as int,
                        y as nat,
                    ),
                    forall|i: int|
                        0 <= i < mutations@.len() ==> in_bounds(
                            #[trigger] mutations@[i],
                            self.size as int,
                        ),
                decreases self.size - y,
            {
                let ghost before = mutations@;
                let current_is_alive = self.board[x][y];
                let no_of_neighbours = self.count_neighbours(XY(x, y));
                if current_is_alive {
                    if no_of_neighbours != 2 && no_of_neighbours != 3 {
                        mutations.push(Mutation::Off(XY(x, y)));
                    }
                } else {
                    if no_of_neighbours == 3 {
                        mutations.push(Mutation::On(XY(x, y)))
                    }
                }
                proof {
                    assert(mutations@ =~= before + cell_mutations(cells, x as int, y as int));
                    assert(rows_mutations(cells, x as nat) + row_mutations(
                        cells,
                        x as int,
                        (y + 1) as nat,
                    ) =~= rows_mutations(cells, x as nat) + row_mutations(cells, x as int, y as nat)
                        + cell_mutations(cells, x as int, y as int));
                }
                y += 1;
            }
            x += 1;
        }
        mutations
    }

    /// Applies the mutations in order.
    pub fn mutate(&mut self, mutations: &[Mutation])
        requires
            old(self).wf(),
            forall|i: int|
                0 <= i < mutations@.len() ==> in_bounds(#[trigger] mutations@[i], old(self)@.len() as int),
        ensures
            final(self).wf(),
            final(self)@ == apply_all(old(self)@, mutations@),
    {
        proof {
            self.lemma_view();
        }
        let ghost start = self@;
        let mut i: usize = 0;
        while i < mutations.len()
            invariant
                self.wf(),
                self@.len() == start.len(),
                self.size == start.len(),
                i <= mutations@.len(),
                forall|k: int|
                    0 <= k < mutations@.len() ==> in_bounds(#[trigger] mutations@[k], start.len() as int),
                self@ == apply_all(start, mutations@.take(i as int)),
            decreases mutations.len() - i,
        {
            let ghost before = self@;
            let m = mutations[i];
            assert(in_bounds(mutations@[i as int], start.len() as int));
            match m {
                Mutation::On(XY(x, y)) => self.board[x].set(y, true),
                Mutation::Off(XY(x, y)) => self.board[x].set(y, false),
            }
            proof {
                self.lemma_view();
                assert(self@ =~= apply_mutation(before, m));
                assert(mutations@.take(i + 1).drop_last() =~= mutations@.take(i as int));
            }
            i += 1;
        }
        assert(mutations@.take(i as int) =~= mutations@);
    }
}


// ---------------------------------------------------------------------------
// Laws
// ---------------------------------------------------------------------------

/// The state a cell takes in the next generation.
pub open spec fn step_cell(cells: Seq<Seq<bool>>, x: int, y: int) -> bool {
    next_state(cells[x][y], neighbours(cells, x, y))
}

proof fn lemma_apply_all_concat(c: Seq<Seq<bool>>, a: Seq<Mutation>, b: Seq<Mutation>)
    ensures
        apply_all(c, a + b) == apply_all(apply_all(c, a), b),
    decreases b.len(),
{
    if b.len() == 0 {
        assert(a + b =~= a);
    } else {
        assert((a + b).drop_last() =~= a + b.drop_last());
        assert((a + b).last() == b.last());
        lemma_apply_all_concat(c, a, b.drop_last());
    }
}

/// Applying the mutation of one cell of `cells` to a board `c` of the same shape.
proof fn lemma_apply_cell(cells: Seq<Seq<bool>>, c: Seq<Seq<bool>>, x: int, y: int)
    requires
        is_square(cells),
        cells.len() <= usize::MAX,
        c.len() == cells.len(),
        is_square(c),
        0 <= x < cells.len(),
        0 <= y < cells.len(),
    ensures
        ({
            let r = apply_all(c, cell_mutations(cells, x, y));
            &&& r.len() == c.len()
            &&& is_square(r)
            &&& forall|i: int, j: int|
                0 <= i < c.len() && 0 <= j < c.len() ==> #[trigger] r[i][j] == if i == x && j == y
                    && step_cell(cells, x, y) != cells[x][y] {
                    step_cell(cells, x, y)
                } else {
                    c[i][j]
                }
        }),
{
    let ms = cell_mutations(cells, x, y);
    if ms.len() == 0 {
        assert(apply_all(c, ms) == c);
    } else {
        assert(ms.drop_last() =~= Seq::<Mutation>::empty());
        assert(apply_all(c, ms.drop_last()) == c);
        let r = apply_all(c, ms);
        assert(r == apply_mutation(c, ms.last()));
        assert forall|i: int| 0 <= i < r.len() implies #[trigger] r[i].len() == r.len() by {
            if i != x {
                assert(r[i] == c[i]);
            }
        }
    }
}

/// Applying the mutations of the first `j` cells of row `x` of `cells` to `c`.
proof fn lemma_apply_row(cells: Seq<Seq<bool>>, c: Seq<Seq<bool>>, x: int, j: nat)
    requires
        is_square(cells),
        cells.len() <= usize::MAX,
        c.len() == cells.len(),
        is_square(c),
        0 <= x < cells.len(),
        j <= cells.len(),
    ensures
        ({
            let r = apply_all(c, row_mutations(cells, x, j));
            &&& r.len() == c.len()
            &&& is_square(r)
            &&& forall|i: int, k: int|
                0 <= i < c.len() && 0 <= k < c.len() ==> #[trigger] r[i][k] == if i == x && k < j
                    && step_cell(cells, x, k) != cells[x][k] {
                    step_cell(cells, x, k)
                } else {
                    c[i][k]
                }
        }),
    decreases j,
{
    if j == 0 {
        assert(row_mutations(cells, x, j) =~= Seq::<Mutation>::empty());
    } else {
        let prev = apply_all(c, row_mutations(cells, x, (j - 1) as nat));
        lemma_apply_row(cells, c, x, (j - 1) as nat);
        lemma_apply_all_concat(
            c,
            row_mutations(cells, x, (j - 1) as nat),
            cell_mutations(cells, x, j - 1),
        );
        lemma_apply_cell(cells, prev, x, j - 1);
    }
}

/// Applying the mutations of the first `i` rows of `cells` to `cells`.
proof fn lemma_apply_rows(cells: Seq<Seq<bool>>, i: nat)
    requires
        is_square(cells),
        cells.len() <= usize::MAX,
        i <= cells.len(),
    ensures
        ({
            let r = apply_all(cells, rows_mutations(cells, i));
            &&& r.len() == cells.len()
            &&& is_square(r)
            &&& forall|a: int, b: int|
                0 <= a < cells.len() && 0 <= b < cells.len() ==> #[trigger] r[a][b] == if a < i {
                    step_cell(cells, a, b)
                } else {
                    cells[a][b]
                }
        }),
    decreases i,
{
    if i == 0 {
        assert(rows_mutations(cells, i) =~= Seq::<Mutation>::empty());
    } else {
        let prev = apply_all(cells, rows_mutations(cells, (i - 1) as nat));
        lemma_apply_rows(cells, (i - 1) as nat);
        lemma_apply_all_concat(
            cells,
            rows_mutations(cells, (i - 1) as nat),
            row_mutations(cells, i - 1, cells.len()),
        );
        lemma_apply_row(cells, prev, i - 1, cells.len());
    }
}

/// Applying the mutations that `next_step` lists, with `mutate`, gives the
/// next generation of the game: every cell takes the state that the rule of
/// the game gives it.
pub proof fn lemma_next_step_then_mutate(game: Game)
    requires
        game.wf(),
    ensures
        apply_all(game@, step_mutations(game@)) == life_step(game@),
{
    game.lemma_view();
    let cells = game@;
    lemma_apply_rows(cells, cells.len());
    let r = apply_all(cells, step_mutations(cells));
    let l = life_step(cells);
    assert forall|a: int| 0 <= a < cells.len() implies #[trigger] r[a] =~= l[a] by {
        assert forall|b: int| 0 <= b < cells.len() implies r[a][b] == l[a][b] by {
            assert(r[a][b] == step_cell(cells, a, b));
        }
    }
    assert(r =~= l);
}

proof fn lemma_dead_count(n: nat, x: int, y: int, k: nat)
    requires
        n > 0,
    ensures
        count_alive(dead_board(n), x, y, k) == 0,
    decreases k,
{
    if k > 0 {
        lemma_dead_count(n, x, y, (k - 1) as nat);
        let (dx, dy) = offset(k - 1);
        let a = wrap(x, dx, n as int);
        let b = wrap(y, dy, n as int);
        assert(0 <= a < n && 0 <= b < n);
        assert(dead_board(n)[a][b] == false);
    }
}

proof fn lemma_dead_rows(n: nat, i: nat)
    requires
        n > 0,
        i <= n,
    ensures
        rows_mutations(dead_board(n), i) =~= Seq::<Mutation>::empty(),
    decreases i,
{
    if i > 0 {
        lemma_dead_rows(n, (i - 1) as nat);
        lemma_dead_row(n, i - 1, n);
    }
}

proof fn lemma_dead_row(n: nat, x: int, j: nat)
    requires
        n > 0,
        0 <= x < n,
        j <= n,
    ensures
        row_mutations(dead_board(n), x, j) =~= Seq::<Mutation>::empty(),
    decreases j,
{
    if j > 0 {
        lemma_dead_row(n, x, (j - 1) as nat);
        lemma_dead_count(n, x, j - 1, 8);
        assert(cell_mutations(dead_board(n), x, j - 1) =~= Seq::<Mutation>::empty());
    }
}

/// On a board where every cell is dead, `next_step` lists no mutation: an
/// empty board stays empty.
pub proof fn lemma_empty_board_stays_empty(n: nat)
    ensures
        step_mutations(dead_board(n)) == Seq::<Mutation>::empty(),
{
    if n == 0 {
        assert(step_mutations(dead_board(n)) =~= Seq::<Mutation>::empty());
    } else {
        lemma_dead_rows(n, n);
    }
}

/// The flat encoding has `n` bytes per row, and the byte of cell `(x, y)`
/// stands at `x * n + y`.
proof fn lemma_encode_rows(cells: Seq<Seq<bool>>, n: nat)
    requires
        forall|x: int| 0 <= x < cells.len() ==> #[trigger] cells[x].len() == n,
    ensures
        encode_rows(cells).len() == cells.len() * n,
        forall|x: int, y: int|
            0 <= x < cells.len() && 0 <= y < n ==> #[trigger] encode_rows(cells)[x * n + y]
                == cell_byte(cells[x][y]),
    decreases cells.len(),
{
    let k = cells.len();
    if k > 0 {
        let init = cells.drop_last();
        lemma_encode_rows(init, n);
        let last = cells.last().map_values(|b: bool| cell_byte(b));
        assert(cells.last().len() == n);
        assert((k - 1) * n + n == k * n) by (nonlinear_arith);
        assert forall|x: int, y: int| 0 <= x < k && 0 <= y < n implies #[trigger] encode_rows(
            cells,
        )[x * n + y] == cell_byte(cells[x][y]) by {
            if x < k - 1 {
                assert(x * n + y < (k - 1) * n) by (nonlinear_arith)
                    requires
                        x < k - 1,
                        y < n,
                ;
                assert(init[x] == cells[x]);
            } else {
                assert(x * n + y - (k - 1) * n == y) by (nonlinear_arith)
                    requires
                        x == k - 1,
                ;
                assert(x * n + y >= (k - 1) * n) by (nonlinear_arith)
                    requires
                        x == k - 1,
                        y >= 0,
                ;
            }
        }
    }
}

/// The flat encoding of a square board has one byte per cell, and decoding
/// it gives the board back.
pub proof fn lemma_decode_encode(cells: Seq<Seq<bool>>)
    requires
        is_square(cells),
    ensures
        encode_rows(cells).len() == cells.len() * cells.len(),
        decode_board(cells.len(), encode_rows(cells)) == cells,
{
    let n = cells.len();
    lemma_encode_rows(cells, n);
    let d = decode_board(n, encode_rows(cells));
    assert forall|x: int| 0 <= x < n implies #[trigger] d[x] =~= cells[x] by {
        assert forall|y: int| 0 <= y < n implies d[x][y] == cells[x][y] by {
            assert(encode_rows(cells)[x * n + y] == cell_byte(cells[x][y]));
        }
    }
    assert(d =~= cells);
}

/// Exporting a game and building a game of the same size from the bytes gives
/// the same board back.
pub proof fn lemma_export_then_new(game: Game)
    requires
        game.wf(),
    ensures
        decode_board(game@.len(), encode_rows(game@)) == game@,
{
    game.lemma_view();
    lemma_decode_encode(game@);
}

/// Building a game from `n * n` bytes and exporting it gives the bytes back,
/// each made `0xff` if it was non-zero and `0` otherwise.
pub proof fn lemma_new_then_export(n: nat, flat: Seq<u8>)
    requires
        flat.len() == n * n,
    ensures
        encode_rows(decode_board(n, flat)) == normalize(flat),
{
    let d = decode_board(n, flat);
    lemma_encode_rows(d, n);
    let e = encode_rows(d);
    assert(d.len() == n);
    assert forall|idx: int| 0 <= idx < n * n implies #[trigger] e[idx] == normalize(flat)[idx] by {
        let x = idx / n as int;
        let y = idx % n as int;
        assert(n > 0) by (nonlinear_arith)
            requires
                0 <= idx < n * n,
        ;
        assert(idx == x * n + y && 0 <= y < n && 0 <= x < n) by (nonlinear_arith)
            requires
                n > 0,
                0 <= idx < n * n,
                x == idx / n as int,
                y == idx % n as int,
        ;
        assert(e[x * n + y] == cell_byte(d[x][y]));
    }
    assert(e =~= normalize(flat));
}

proof fn lemma_count_alive_shift(
    g: Seq<Seq<bool>>,
    h: Seq<Seq<bool>>,
    a: int,
    b: int,
    x: int,
    y: int,
    k: nat,
)
    requires
        is_square(g),
        h.len() == g.len(),
        g.len() > 0,
        0 <= a < g.len(),
        0 <= b < g.len(),
        forall|i: int, j: int|
            0 <= i < g.len() && 0 <= j < g.len() ==> #[trigger] h[i][j] == g[(i + a) % (g.len() as int)][(j
                + b) % (g.len() as int)],
        k <= 8,
    ensures
        count_alive(h, x, y, k) == count_alive(
            g,
            (x + a) % (g.len() as int),
            (y + b) % (g.len() as int),
            k,
        ),
    decreases k,
{
    let n = g.len() as int;
    if k > 0 {
        lemma_count_alive_shift(g, h, a, b, x, y, (k - 1) as nat);
        let (dx, dy) = offset(k - 1);
        let i = wrap(x, dx, n);
        let j = wrap(y, dy, n);
        assert(0 <= i < n && 0 <= j < n);
        vstd::arithmetic::div_mod::lemma_add_mod_noop_right(a, x + dx, n);
        vstd::arithmetic::div_mod::lemma_add_mod_noop_right(dx, x + a, n);
        vstd::arithmetic::div_mod::lemma_add_mod_noop_right(b, y + dy, n);
        vstd::arithmetic::div_mod::lemma_add_mod_noop_right(dy, y + b, n);
        assert((i + a) % n == wrap((x + a) % n, dx, n));
        assert((j + b) % n == wrap((y + b) % n, dy, n));
        assert(h[i][j] == g[(i + a) % n][(j + b) % n]);
    }
}

/// The board wraps around, so it has no edges: on a board `h` that is `g`
/// shifted by `(a, b)`, each cell has as many live neighbours as the cell it
/// came from.
pub proof fn lemma_neighbours_shift(
    g: Seq<Seq<bool>>,
    h: Seq<Seq<bool>>,
    a: int,
    b: int,
    x: int,
    y: int,
)
    requires
        is_square(g),
        h.len() == g.len(),
        g.len() > 0,
        0 <= a < g.len(),
        0 <= b < g.len(),
        forall|i: int, j: int|
            0 <= i < g.len() && 0 <= j < g.len() ==> #[trigger] h[i][j] == g[(i + a) % (g.len() as int)][(j
                + b) % (g.len() as int)],
    ensures
        neighbours(h, x, y) == neighbours(g, (x + a) % (g.len() as int), (y + b) % (g.len() as int)),
{
    lemma_count_alive_shift(g, h, a, b, x, y, 8);
}

/// 1 if the cell `dx` rows and `dy` columns away from `(x, y)`, wrapping
/// around, is alive; 0 otherwise.
pub open spec fn alive_at(cells: Seq<Seq<bool>>, x: int, y: int, dx: int, dy: int) -> nat {
    let n = cells.len() as int;
    if cells[(x + dx) % n][(y + dy) % n] {
        1
    } else {
        0
    }
}

/// The neighbours of a cell are the eight cells around it, each counted
/// once: the three of the row above, the two beside it, and the three of the
/// row below, the board wrapping around. The cell itself is not one of them.
pub proof fn lemma_neighbours_are_the_surrounding_cells(cells: Seq<Seq<bool>>, x: int, y: int)
    ensures
        neighbours(cells, x, y) == alive_at(cells, x, y, -1, -1) + alive_at(cells, x, y, -1, 0)
            + alive_at(cells, x, y, -1, 1) + alive_at(cells, x, y, 0, -1) + alive_at(cells, x, y, 0, 1)
            + alive_at(cells, x, y, 1, -1) + alive_at(cells, x, y, 1, 0) + alive_at(cells, x, y, 1, 1),
{
    assert(count_alive(cells, x, y, 0) == 0);
    assert(count_alive(cells, x, y, 1) == alive_at(cells, x, y, 1, -1));
    assert(count_alive(cells, x, y, 2) == count_alive(cells, x, y, 1) + alive_at(cells, x, y, 1, 0));
    assert(count_alive(cells, x, y, 3) == count_alive(cells, x, y, 2) + alive_at(cells, x, y, 1, 1));
    assert(count_alive(cells, x, y, 4) == count_alive(cells, x, y, 3) + alive_at(cells, x, y, 0, -1));
    assert(count_alive(cells, x, y, 5) == count_alive(cells, x, y, 4) + alive_at(cells, x, y, 0, 1));
    assert(count_alive(cells, x, y, 6) == count_alive(cells, x, y, 5) + alive_at(cells, x, y, -1, -1));
    assert(count_alive(cells, x, y, 7) == count_alive(cells, x, y, 6) + alive_at(cells, x, y, -1, 0));
    assert(count_alive(cells, x, y, 8) == count_alive(cells, x, y, 7) + alive_at(cells, x, y, -1, 1));
}

/// On a ring of at least three positions, one step forward or back never
/// lands where it started, and no step stays put.
proof fn lemma_ring_steps(c: int, n: int)
    requires
        n >= 3,
        0 <= c < n,
    ensures
        (c + 0) % n == c,
        (c + 1) % n != c,
        (c + -1) % n != c,
        0 <= (c + 1) % n < n,
        0 <= (c + -1) % n < n,
{
    vstd::arithmetic::div_mod::lemma_small_mod(c as nat, n as nat);
    if c + 1 < n {
        vstd::arithmetic::div_mod::lemma_small_mod((c + 1) as nat, n as nat);
    } else {
        vstd::arithmetic::div_mod::lemma_mod_self_0(n);
    }
    if c >= 1 {
        vstd::arithmetic::div_mod::lemma_small_mod((c - 1) as nat, n as nat);
    } else {
        vstd::arithmetic::div_mod::lemma_mod_add_multiples_vanish(-1, n);
        vstd::arithmetic::div_mod::lemma_small_mod((n - 1) as nat, n as nat);
    }
}

/// On a board of at least three rows, a live cell with no other live cell
/// on the board has no live neighbour: it is not its own neighbour.
pub proof fn lemma_lone_cell_has_no_neighbours(cells: Seq<Seq<bool>>, x: int, y: int)
    requires
        is_square(cells),
        cells.len() >= 3,
        0 <= x < cells.len(),
        0 <= y < cells.len(),
        forall|i: int, j: int|
            0 <= i < cells.len() && 0 <= j < cells.len() && (i != x || j != y) ==> !#[trigger] cells[i][j],
    ensures
        neighbours(cells, x, y) == 0,
{
    let n = cells.len() as int;
    lemma_ring_steps(x, n);
    lemma_ring_steps(y, n);
    lemma_neighbours_are_the_surrounding_cells(cells, x, y);
    assert(!cells[(x + -1) % n][(y + -1) % n]);
    assert(!cells[(x + -1) % n][(y + 0) % n]);
    assert(!cells[(x + -1) % n][(y + 1) % n]);
    assert(!cells[(x + 0) % n][(y + -1) % n]);
    assert(!cells[(x + 0) % n][(y + 1) % n]);
    assert(!cells[(x + 1) % n][(y + -1) % n]);
    assert(!cells[(x + 1) % n][(y + 0) % n]);
    assert(!cells[(x + 1) % n][(y + 1) % n]);
}

} // verus!
