use vstd::prelude::*;

use crate::tetris::piece::Pos;

pub mod piece;

verus! {

/// Number of rows of the playfield; row 0 is the top.
pub const ROWS: usize = 20;

/// Number of columns of the playfield.
pub const COLS: usize = 10;

/// The mathematical value of a grid: its rows, each a sequence of cells.
pub open spec fn rows_view(g: Seq<Vec<i8>>) -> Seq<Seq<i8>> {
    g.map_values(|row: Vec<i8>| row@)
}

/// `g` has `ROWS` rows of `COLS` cells.
pub open spec fn has_dims(g: Seq<Seq<i8>>) -> bool {
    &&& g.len() == ROWS
    &&& forall|i: int| 0 <= i < g.len() ==> #[trigger] g[i].len() == COLS
}

pub open spec fn in_grid(g: Seq<Seq<i8>>, r: int, c: int) -> bool {
    0 <= r < g.len() && 0 <= c < g[r].len()
}

/// The cell at `(r, c)`; every cell outside the grid reads as empty (0).
pub open spec fn cell_at(g: Seq<Seq<i8>>, r: int, c: int) -> i8 {
    if in_grid(g, r, c) {
        g[r][c]
    } else {
        0
    }
}

/// `g` with the cell at `(r, c)` replaced by `v`, when that cell is in the grid.
pub open spec fn with_cell(g: Seq<Seq<i8>>, r: int, c: int, v: i8) -> Seq<Seq<i8>> {
    if in_grid(g, r, c) {
        g.update(r, g[r].update(c, v))
    } else {
        g
    }
}

/// A row is full when every one of its cells is occupied (1).
pub open spec fn is_full(row: Seq<i8>) -> bool {
    forall|j: int| 0 <= j < row.len() ==> row[j] == 1
}

pub open spec fn full_row() -> spec_fn(Seq<i8>) -> bool {
    |row: Seq<i8>| is_full(row)
}

pub open spec fn kept_row() -> spec_fn(Seq<i8>) -> bool {
    |row: Seq<i8>| !is_full(row)
}

/// Number of full rows of `g`.
pub open spec fn count_full(g: Seq<Seq<i8>>) -> nat {
    g.filter(full_row()).len()
}

pub open spec fn empty_row() -> Seq<i8> {
    Seq::new(COLS as nat, |j: int| 0i8)
}

pub open spec fn empty_rows(n: nat) -> Seq<Seq<i8>> {
    Seq::new(n, |i: int| empty_row())
}

/// `g` after its full rows are removed: one empty row on top for each removed
/// row, then the other rows in their order.
pub open spec fn cleared(g: Seq<Seq<i8>>) -> Seq<Seq<i8>> {
    empty_rows(count_full(g)) + g.filter(kept_row())
}

/// The playfield: a fixed grid of cells, 0 for empty and 1 for occupied.
#[derive(Debug)]
pub struct Tetris {
    grid: Vec<Vec<i8>>,
}

impl View for Tetris {
    type V = Seq<Seq<i8>>;

    closed spec fn view(&self) -> Seq<Seq<i8>> {
        rows_view(self.grid@)
    }
}

fn new_empty_row() -> (r: Vec<i8>)
    ensures
        r@ == empty_row(),
{
    let mut row: Vec<i8> = Vec::new();
    let mut j: usize = 0;
    while j < COLS
        invariant
            j <= COLS,
            row@ == Seq::new(j as nat, |k: int| 0i8),
        decreases COLS - j,
    {
        row.push(0);
        j += 1;
        assert(row@ =~= Seq::new(j as nat, |k: int| 0i8));
    }
    row
}

fn row_is_full(row: &Vec<i8>) -> (r: bool)
    ensures
        r == is_full(row@),
{
    let mut j: usize = 0;
    while j < row.len()
        invariant
            j <= row.len(),
            forall|k: int| 0 <= k < j ==> row@[k] == 1,
        decreases row.len() - j,
    {
        if row[j] != 1 {
            return false;
        }
        j += 1;
    }
    true
}

impl Tetris {
    /// The grid has its fixed dimensions.
    pub open spec fn wf(&self) -> bool {
        has_dims(self@)
    }

    /// An empty playfield of `ROWS` by `COLS` cells.
    pub fn new() -> (r: Tetris)
        ensures
            r.wf(),
            r@ == empty_rows(ROWS as nat),
    {
        let mut grid: Vec<Vec<i8>> = Vec::new();
        let mut i: usize = 0;
        while i < ROWS
            invariant
                i <= ROWS,
                grid@.len() == i,
                rows_view(grid@) == empty_rows(i as nat),
            decreases ROWS - i,
        {
            let row = new_empty_row();
            grid.push(row);
            i += 1;
            assert forall|k: int| 0 <= k < i implies #[trigger] rows_view(grid@)[k] == empty_rows(
                i as nat,
            )[k] by {
                if k < i - 1 {
                    assert(rows_view(grid@)[k] == grid@[k]@);
                    assert(empty_rows((i - 1) as nat)[k] == empty_row());
                }
            }
            assert(rows_view(grid@) =~= empty_rows(i as nat));
        }
        let r = Tetris { grid };
        assert(has_dims(r@));
        r
    }

    /// The grid, row by row from the top.
    pub fn return_grid(&self) -> (r: &Vec<Vec<i8>>)
        ensures
            rows_view(r@) == self@,
    {
        &self.grid
    }

    /// Writes `value` at `pos`. A position outside the grid, including one
    /// with a negative coordinate, is ignored.
    pub fn set_grid(&mut self, pos: Pos, value: i8)
        requires
            old(self).wf(),
        ensures
            final(self).wf(),
            final(self)@ == with_cell(old(self)@, pos.0 as int, pos.1 as int, value),
    {
        if pos.0 < 0 || pos.1 < 0 {
            // A cell above or left of the field is never written.
        } else if self.get_grid_pos(pos) != value {
            let r = pos.0 as usize;
            let c = pos.1 as usize;
            if r < self.grid.len() && c < self.grid[r].len() {
                self.grid[r].set(c, value);
            }
        }
        proof {
            let g = old(self)@;
            if in_grid(g, pos.0 as int, pos.1 as int) {
                assert(self@ =~~= g.update(pos.0 as int, g[pos.0 as int].update(pos.1 as int, value)));
            } else {
                assert(self@ =~= g);
            }
        }
    }

    /// Removes every full row, inserting an empty row at the top for each, and
    /// returns how many were removed. Rows are examined from the bottom up.
    pub fn check_lines(&mut self) -> (total: u8)
        requires
            old(self).wf(),
        ensures
            final(self).wf(),
            total == count_full(old(self)@),
            final(self)@ == cleared(old(self)@),
    {
        let ghost g = self@;
        let mut row: usize = ROWS;
        let mut total: u8 = 0;
        // Rows above `total` are empty rows inserted by this call.
        while row > total as usize
            invariant
                has_dims(g),
                total as int <= row <= ROWS,
                self@.len() == ROWS,
                self.grid@.len() == ROWS,
                total == count_full(g.subrange(row - total, ROWS as int)),
                self@ == empty_rows(total as nat) + g.subrange(0, row - total) + g.subrange(
                    row - total,
                    ROWS as int,
                ).filter(kept_row()),
            decreases row - total,
        {
            let ghost q = row - total;
            let ghost tail = g.subrange(q, ROWS as int);
            proof {
                lemma_filter_prepend(g[q - 1], tail, full_row());
                lemma_filter_prepend(g[q - 1], tail, kept_row());
                assert(g.subrange(q - 1, ROWS as int) =~= seq![g[q - 1]] + tail);
                assert(self@[row - 1] == g[q - 1]);
            }
            if row_is_full(&self.grid[row - 1]) {
                let ghost before = self@;
                assert(is_full(g[q - 1]));
                assert(tail.filter(kept_row()) == g.subrange(q - 1, ROWS as int).filter(kept_row()));
                self.grid.remove(row - 1);
                assert(self@ =~= before.remove(row - 1));
                assert(before.remove(row - 1) =~= empty_rows(total as nat) + g.subrange(0, q - 1)
                    + tail.filter(kept_row()));
                let fresh = new_empty_row();
                self.grid.insert(0, fresh);
                total += 1;
                proof {
                    assert(empty_rows(total as nat) =~= seq![empty_row()] + empty_rows((total - 1) as nat));
                    assert(self@ =~= seq![empty_row()] + before.remove(row - 1));
                    assert(self@ =~= empty_rows(total as nat) + g.subrange(0, row - total) + g.subrange(
                        row - total,
                        ROWS as int,
                    ).filter(kept_row()));
                }
            } else {
                row -= 1;
                proof {
                    assert(self@ =~= empty_rows(total as nat) + g.subrange(0, row - total) + g.subrange(
                        row - total,
                        ROWS as int,
                    ).filter(kept_row()));
                }
            }
        }
        proof {
            assert(g.subrange(0, ROWS as int) =~= g);
            assert(g.subrange(0, 0) =~= Seq::<Seq<i8>>::empty());
            assert(self@ =~= cleared(g));
            lemma_cleared_dims(g);
        }
        total
    }

    /// The value at `pos`; 0 (empty) outside the grid.
    pub fn get_grid_pos(&self, pos: Pos) -> (r: i8)
        ensures
            r == cell_at(self@, pos.0 as int, pos.1 as int),
            !in_grid(self@, pos.0 as int, pos.1 as int) ==> r == 0,
    {
        if pos.0 < 0 || pos.1 < 0 {
            return 0;
        }
        let r = pos.0 as usize;
        let c = pos.1 as usize;
        if r < self.grid.len() && c < self.grid[r].len() {
            self.grid[r][c]
        } else {
            0
        }
    }
}

/// Reading a cell of the grid right after writing `v` there gives `v`.
pub proof fn lemma_set_then_get(g: Seq<Seq<i8>>, r: int, c: int, v: i8)
    requires
        has_dims(g),
        in_grid(g, r, c),
    ensures
        cell_at(with_cell(g, r, c, v), r, c) == v,
        has_dims(with_cell(g, r, c, v)),
{
}

/// Writing the same value twice leaves the grid as one write does.
pub proof fn lemma_set_idempotent(g: Seq<Seq<i8>>, r: int, c: int, v: i8)
    ensures
        with_cell(with_cell(g, r, c, v), r, c, v) == with_cell(g, r, c, v),
{
    let once = with_cell(g, r, c, v);
    if in_grid(g, r, c) {
        assert(once[r].update(c, v) =~= once[r]);
        assert(once.update(r, once[r]) =~= once);
    }
}

/// When row `i` is the only full row, clearing removes just that row: an
/// empty row appears on top, the rows above `i` move down by one, and the rows
/// below `i` stay where they were.
pub proof fn lemma_clear_single_row(g: Seq<Seq<i8>>, i: int)
    requires
        has_dims(g),
        0 <= i < ROWS,
        is_full(g[i]),
        forall|j: int| 0 <= j < ROWS && j != i ==> !is_full(#[trigger] g[j]),
    ensures
        count_full(g) == 1,
        cleared(g).len() == ROWS,
        cleared(g)[0] == empty_row(),
        forall|j: int| 0 <= j < i ==> #[trigger] cleared(g)[j + 1] == g[j],
        forall|j: int| i < j < ROWS ==> #[trigger] cleared(g)[j] == g[j],
{
    let above = g.subrange(0, i);
    let below = g.subrange(i + 1, ROWS as int);
    assert(g =~= above + (seq![g[i]] + below));
    lemma_filter_all_or_none(above);
    lemma_filter_all_or_none(below);
    lemma_filter_prepend(g[i], below, full_row());
    lemma_filter_prepend(g[i], below, kept_row());
    Seq::filter_distributes_over_add(above, seq![g[i]] + below, full_row());
    Seq::filter_distributes_over_add(above, seq![g[i]] + below, kept_row());
    assert(g.filter(kept_row()) =~= above + below);
    assert(g.filter(full_row()) =~= seq![g[i]]);
    let c = cleared(g);
    assert(c =~= seq![empty_row()] + (above + below));
    assert forall|j: int| 0 <= j < i implies #[trigger] c[j + 1] == g[j] by {
        assert(c[j + 1] == above[j]);
    }
    assert forall|j: int| i < j < ROWS implies #[trigger] c[j] == g[j] by {
        assert(c[j] == below[j - i - 1]);
    }
}

/// Clearing `k` full rows at once leaves `k` empty rows on top and the other
/// rows below them in their former order.
pub proof fn lemma_clear_rows(g: Seq<Seq<i8>>)
    requires
        has_dims(g),
    ensures
        cleared(g).len() == ROWS,
        forall|j: int| 0 <= j < count_full(g) ==> #[trigger] cleared(g)[j] == empty_row(),
        cleared(g).subrange(count_full(g) as int, ROWS as int) == g.filter(kept_row()),
        forall|j: int| count_full(g) <= j < ROWS ==> !is_full(#[trigger] cleared(g)[j]),
{
    lemma_count_plus_kept(g);
    let k = count_full(g) as int;
    assert(cleared(g).subrange(k, ROWS as int) =~= g.filter(kept_row()));
    assert forall|j: int| k <= j < ROWS implies !is_full(#[trigger] cleared(g)[j]) by {
        g.lemma_filter_pred(kept_row(), j - k);
        assert(cleared(g)[j] == g.filter(kept_row())[j - k]);
    }
}

/// A run of rows with no full row keeps every row, and counts none as full.
proof fn lemma_filter_all_or_none(s: Seq<Seq<i8>>)
    requires
        forall|j: int| 0 <= j < s.len() ==> !is_full(#[trigger] s[j]),
    ensures
        s.filter(kept_row()) == s,
        s.filter(full_row()).len() == 0,
    decreases s.len(),
{
    reveal_with_fuel(Seq::filter, 1);
    if s.len() > 0 {
        let front = s.drop_last();
        assert forall|j: int| 0 <= j < front.len() implies !is_full(#[trigger] front[j]) by {
            assert(front[j] == s[j]);
        }
        lemma_filter_all_or_none(front);
        assert(front.push(s.last()) =~= s);
    } else {
        assert(s.filter(kept_row()) =~= s);
    }
}

proof fn lemma_filter_prepend(x: Seq<i8>, s: Seq<Seq<i8>>, p: spec_fn(Seq<i8>) -> bool)
    ensures
        (seq![x] + s).filter(p) == if p(x) {
            seq![x] + s.filter(p)
        } else {
            s.filter(p)
        },
{
    Seq::filter_distributes_over_add(seq![x], s, p);
    reveal_with_fuel(Seq::filter, 2);
    assert(seq![x].drop_last() =~= Seq::<Seq<i8>>::empty());
}

proof fn lemma_cleared_dims(g: Seq<Seq<i8>>)
    requires
        has_dims(g),
    ensures
        has_dims(cleared(g)),
{
    lemma_count_plus_kept(g);
    let c = cleared(g);
    assert forall|i: int| 0 <= i < c.len() implies #[trigger] c[i].len() == COLS by {
        if i >= count_full(g) {
            let k = i - count_full(g);
            let r = g.filter(kept_row())[k];
            assert(g.filter(kept_row()).contains(r));
            g.lemma_filter_contains_rev(kept_row(), r);
        }
    }
}

/// Every row is either full or kept.
proof fn lemma_count_plus_kept(g: Seq<Seq<i8>>)
    ensures
        count_full(g) + g.filter(kept_row()).len() == g.len(),
    decreases g.len(),
{
    reveal_with_fuel(Seq::filter, 1);
    if g.len() > 0 {
        lemma_count_plus_kept(g.drop_last());
    }
}

} // verus!
