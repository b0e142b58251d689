use vstd::prelude::*;

use crate::tetris::piece::{pos_view, stamped, Piece, Pos};
use crate::tetris::rows_view;

verus! {

fn covers(bits: &Vec<Pos>, y: usize, x: usize) -> (r: bool)
    ensures
        r == pos_view(bits@).contains((y as int, x as int)),
{
    let ghost target = (y as int, x as int);
    let mut k: usize = 0;
    while k < bits.len()
        invariant
            k <= bits.len(),
            target == (y as int, x as int),
            forall|j: int| 0 <= j < k ==> #[trigger] pos_view(bits@)[j] != target,
        decreases bits.len() - k,
    {
        let b = bits[k];
        assert(pos_view(bits@)[k as int] == b@);
        if b.0 >= 0 && b.1 >= 0 && b.0 as usize == y && b.1 as usize == x {
            assert(b@ == target);
            return true;
        }
        k += 1;
    }
    false
}

/// The grid as it is shown: each cell that the piece covers reads 1, every
/// other cell as in `grid`.
pub fn compose(grid: &Vec<Vec<i8>>, piece: &Piece) -> (r: Vec<Vec<i8>>)
    requires
        piece.wf(),
    ensures
        rows_view(r@) == stamped(rows_view(grid@), piece.bits()),
{
    let ghost g = rows_view(grid@);
    let ghost want = stamped(g, piece.bits());
    let bits = piece.get_bits_pos();
    let mut out: Vec<Vec<i8>> = Vec::new();
    let mut y: usize = 0;
    while y < grid.len()
        invariant
            y <= grid.len(),
            g == rows_view(grid@),
            want == stamped(g, piece.bits()),
            pos_view(bits@) == piece.bits(),
            out@.len() == y,
            forall|i: int| 0 <= i < y ==> #[trigger] rows_view(out@)[i] == want[i],
        decreases grid.len() - y,
    {
        let mut row: Vec<i8> = Vec::new();
        let mut x: usize = 0;
        while x < grid[y].len()
            invariant
                y < grid.len(),
                x <= grid@[y as int]@.len(),
                g == rows_view(grid@),
                want == stamped(g, piece.bits()),
                pos_view(bits@) == piece.bits(),
                row@.len() == x,
                forall|j: int| 0 <= j < x ==> #[trigger] row@[j] == want[y as int][j],
            decreases grid@[y as int]@.len() - x,
        {
            let v = if covers(&bits, y, x) {
                1
            } else {
                grid[y][x]
            };
            row.push(v);
            x += 1;
        }
        assert(row@ =~= want[y as int]);
        let ghost prev = out@;
        out.push(row);
        assert forall|i: int| 0 <= i < y + 1 implies #[trigger] rows_view(out@)[i] == want[i] by {
            if i < y {
                assert(out@[i] == prev[i]);
                assert(rows_view(prev)[i] == prev[i]@);
            }
        }
        y += 1;
    }
    assert(rows_view(out@) =~= want);
    out
}

} // verus!
