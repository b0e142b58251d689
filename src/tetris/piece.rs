use vstd::prelude::*;

use crate::tetris::{cell_at, in_grid, rows_view, Tetris, COLS, ROWS};
use rand::Rng;

verus! {

/// A grid position: `(row, column)`, row 0 at the top. The row is negative
/// above the visible field.
#[derive(Copy, Clone, Debug, PartialEq, Eq, Structural)]
pub struct Pos(pub i8, pub i8);

impl View for Pos {
    type V = (int, int);

    open spec fn view(&self) -> (int, int) {
        (self.0 as int, self.1 as int)
    }
}

pub open spec fn fits_i8(v: int) -> bool {
    i8::MIN <= v <= i8::MAX
}

impl core::ops::Add for Pos {
    type Output = Pos;

    fn add(self, other: Pos) -> (r: Pos) {
        Pos(self.0 + other.0, self.1 + other.1)
    }
}

impl vstd::std_specs::ops::AddSpecImpl for Pos {
    open spec fn obeys_add_spec() -> bool {
        true
    }

    open spec fn add_req(self, other: Pos) -> bool {
        fits_i8(self.0 + other.0) && fits_i8(self.1 + other.1)
    }

    open spec fn add_spec(self, other: Pos) -> Pos {
        Pos((self.0 + other.0) as i8, (self.1 + other.1) as i8)
    }
}

impl core::ops::Sub for Pos {
    type Output = Pos;

    fn sub(self, other: Pos) -> (r: Pos) {
        Pos(self.0 - other.0, self.1 - other.1)
    }
}

impl vstd::std_specs::ops::SubSpecImpl for Pos {
    open spec fn obeys_sub_spec() -> bool {
        true
    }

    open spec fn sub_req(self, other: Pos) -> bool {
        fits_i8(self.0 - other.0) && fits_i8(self.1 - other.1)
    }

    open spec fn sub_spec(self, other: Pos) -> Pos {
        Pos((self.0 - other.0) as i8, (self.1 - other.1) as i8)
    }
}

/// A turn of a piece: `Right` is clockwise.
#[derive(Copy, Clone, Debug, PartialEq, Eq, Structural)]
pub enum Rotate {
    Left,
    Right,
}

/// A step of a piece; `Stay` keeps it in place.
#[derive(Copy, Clone, Debug, PartialEq, Eq, Structural)]
pub enum Dir {
    Stay,
    Down,
    Left,
    Right,
}

impl Dir {
    /// The step as a `(row, column)` offset.
    pub open spec fn offset(self) -> (int, int) {
        match self {
            Dir::Stay => (0, 0),
            Dir::Down => (1, 0),
            Dir::Left => (0, -1),
            Dir::Right => (0, 1),
        }
    }

    fn get(&self) -> (r: Pos)
        ensures
            r@ == self.offset(),
    {
        match self {
            Dir::Stay => Pos(0, 0),
            Dir::Down => Pos(1, 0),
            Dir::Left => Pos(0, -1),
            Dir::Right => Pos(0, 1),
        }
    }
}

/// The seven kinds of piece.
#[derive(Copy, Clone, Debug, PartialEq, Eq, Structural)]
pub enum Pieces {
    NormalL,
    ReverseL,
    Cube,
    Tee,
    Diag,
    ReverseDiag,
    Straight,
}

/// Number of kinds of piece.
pub const KINDS: u8 = 7;

/// The kind numbered `n`; numbers from `KINDS` on give `NormalL`.
pub open spec fn kind_of(n: u8) -> Pieces {
    if n == 0 {
        Pieces::NormalL
    } else if n == 1 {
        Pieces::ReverseL
    } else if n == 2 {
        Pieces::Cube
    } else if n == 3 {
        Pieces::Tee
    } else if n == 4 {
        Pieces::Diag
    } else if n == 5 {
        Pieces::ReverseDiag
    } else if n == 6 {
        Pieces::Straight
    } else {
        Pieces::NormalL
    }
}

/// The outer ring of every shape is empty but for the straight piece's tip.
pub open spec fn empty_outer() -> Seq<i8> {
    seq![0i8, 0, 0, 0, 0, 0, 0, 0, 0, 0, 0, 0, 0, 0, 0, 0]
}

/// Relies on rand's `thread_rng` and `Rng::gen_range`: a value of the
/// half-open range `0..n`, which is not empty.
#[verifier::external_body]
fn random_below(n: u8) -> (r: u8)
    requires
        n > 0,
    ensures
        r < n,
{
    rand::thread_rng().gen_range(0..n)
}

impl Pieces {
    /// A kind drawn at random.
    pub fn random() -> (r: Pieces)
        ensures
            exists|n: u8| n < KINDS && r == kind_of(n),
    {
        let n = random_below(KINDS);
        Pieces::from_index(n)
    }

    /// The kind numbered `n` (see `kind_of`).
    pub fn from_index(n: u8) -> (r: Pieces)
        ensures
            r == kind_of(n),
    {
        match n {
            0 => Pieces::NormalL,
            1 => Pieces::ReverseL,
            2 => Pieces::Cube,
            3 => Pieces::Tee,
            4 => Pieces::Diag,
            5 => Pieces::ReverseDiag,
            6 => Pieces::Straight,
            _ => Pieces::NormalL,
        }
    }

    /// The shape as three rings of cells: the outer ring of the 5 by 5 area,
    /// the inner ring, and the center. Each ring runs clockwise from its top
    /// left corner.
    pub open spec fn rings(self) -> Seq<Seq<i8>> {
        let inner = match self {
            Pieces::NormalL => seq![0i8, 1, 0, 0, 0, 1, 1, 0],
            Pieces::ReverseL => seq![0i8, 1, 0, 0, 1, 1, 0, 0],
            Pieces::Cube => seq![0i8, 1, 1, 1, 0, 0, 0, 0],
            Pieces::Tee => seq![0i8, 1, 0, 1, 0, 0, 0, 1],
            Pieces::Diag => seq![1i8, 1, 0, 1, 0, 0, 0, 0],
            Pieces::ReverseDiag => seq![0i8, 1, 1, 0, 0, 0, 0, 1],
            Pieces::Straight => seq![0i8, 1, 0, 0, 0, 1, 0, 0],
        };
        let outer = match self {
            Pieces::Straight => empty_outer().update(2, 1i8),
            _ => empty_outer(),
        };
        seq![outer, inner, seq![1i8]]
    }

    fn get(&self) -> (r: Vec<Vec<i8>>)
        ensures
            rows_view(r@) == self.rings(),
    {
        let mut outer: Vec<i8> = vec![0, 0, 0, 0, 0, 0, 0, 0, 0, 0, 0, 0, 0, 0, 0, 0];
        let inner: Vec<i8> = match self {
            Pieces::NormalL => vec![0, 1, 0, 0, 0, 1, 1, 0],
            Pieces::ReverseL => vec![0, 1, 0, 0, 1, 1, 0, 0],
            Pieces::Cube => vec![0, 1, 1, 1, 0, 0, 0, 0],
            Pieces::Tee => vec![0, 1, 0, 1, 0, 0, 0, 1],
            Pieces::Diag => vec![1, 1, 0, 1, 0, 0, 0, 0],
            Pieces::ReverseDiag => vec![0, 1, 1, 0, 0, 0, 0, 1],
            Pieces::Straight => vec![0, 1, 0, 0, 0, 1, 0, 0],
        };
        if let Pieces::Straight = self {
            outer.set(2, 1);
        }
        let r = vec![outer, inner, vec![1]];
        assert(rows_view(r@) =~~= self.rings());
        r
    }
}

/// The smaller of `a` and `b`.
pub open spec fn min(a: int, b: int) -> int {
    if a <= b {
        a
    } else {
        b
    }
}

/// Ring of the 5 by 5 area that holds `(y, x)`: 0 outer, 1 inner, 2 center.
pub open spec fn ring_of(y: int, x: int) -> int {
    min(min(y, x), min(4 - y, 4 - x))
}

/// Index of `(y, x)` along its ring, clockwise from the ring's top left
/// corner: along the top row, down the right side, back along the bottom row,
/// up the left side.
pub open spec fn index_in_ring(y: int, x: int) -> int {
    let r = ring_of(y, x);
    let n = 4 - 2 * r;
    if r == 2 {
        0
    } else if y == r && x < r + n {
        x - r
    } else if x == r + n && y < r + n {
        n + (y - r)
    } else if y == r + n && x > r {
        2 * n + (r + n - x)
    } else {
        3 * n + (r + n - y)
    }
}

/// The cell `(y, x)` of the 5 by 5 area of a shape given by its rings.
pub open spec fn local_at(rings: Seq<Seq<i8>>, y: int, x: int) -> i8 {
    rings[ring_of(y, x)][index_in_ring(y, x)]
}

/// The 5 by 5 area of a shape, row by row.
pub open spec fn local_grid(rings: Seq<Seq<i8>>) -> Seq<Seq<i8>> {
    Seq::new(5, |y: int| Seq::new(5, |x: int| local_at(rings, y, x)))
}

/// Rings of 16, 8 and 1 cells, the center filled.
pub open spec fn rings_ok(rings: Seq<Seq<i8>>) -> bool {
    &&& rings.len() == 3
    &&& rings[0].len() == 16
    &&& rings[1].len() == 8
    &&& rings[2] == seq![1i8]
}

/// An anchor from which every cell of the area, and every cell one step
/// away, has coordinates that fit in an `i8`.
pub open spec fn anchor_ok(p: Pos) -> bool {
    -127 <= p.0 <= 123 && -127 <= p.1 <= 122
}

/// Whether cell `k` of the area, counted row by row, is filled.
pub open spec fn filled(rings: Seq<Seq<i8>>, k: int) -> bool {
    local_at(rings, k / 5, k % 5) == 1
}

/// Where cell `k` of the area lies on the grid: the area's second row and
/// first column lie on the anchor `a`.
pub open spec fn cell_pos(a: (int, int), k: int) -> (int, int) {
    (a.0 + k / 5 - 1, a.1 + k % 5)
}

/// The grid positions of the filled cells of the area from cell `k` on, row
/// by row.
pub open spec fn cells_from(rings: Seq<Seq<i8>>, a: (int, int), k: int) -> Seq<(int, int)>
    decreases 25 - k,
{
    if 0 <= k < 25 {
        if filled(rings, k) {
            seq![cell_pos(a, k)] + cells_from(rings, a, k + 1)
        } else {
            cells_from(rings, a, k + 1)
        }
    } else {
        Seq::empty()
    }
}

/// The grid positions of all the filled cells of a shape, row by row.
pub open spec fn cells_of(rings: Seq<Seq<i8>>, a: (int, int)) -> Seq<(int, int)> {
    cells_from(rings, a, 0)
}

pub open spec fn pos_view(v: Seq<Pos>) -> Seq<(int, int)> {
    v.map_values(|p: Pos| p@)
}

/// What a cell of a piece meets when it takes a step.
pub enum Hit {
    /// An empty cell between the walls and above the floor.
    Free,
    /// An occupied cell beside the piece, or a side wall: the step is refused.
    Blocked,
    /// An occupied cell below the piece, or the floor: the piece lands.
    Fatal,
}

/// What the cell at `c` meets when it steps by `dir`.
pub open spec fn hit_at(g: Seq<Seq<i8>>, c: (int, int), dir: Dir) -> Hit {
    let r = c.0 + dir.offset().0;
    let col = c.1 + dir.offset().1;
    if cell_at(g, r, col) == 1 {
        if dir == Dir::Down {
            Hit::Fatal
        } else {
            Hit::Blocked
        }
    } else if r >= ROWS {
        Hit::Fatal
    } else if col < 0 || col >= COLS {
        Hit::Blocked
    } else {
        Hit::Free
    }
}

/// What the first of the cells `cs` that meets anything meets, or `Free`.
pub open spec fn first_hit(g: Seq<Seq<i8>>, cs: Seq<(int, int)>, dir: Dir) -> Hit
    decreases cs.len(),
{
    if cs.len() == 0 {
        Hit::Free
    } else if hit_at(g, cs[0], dir) != Hit::Free {
        hit_at(g, cs[0], dir)
    } else {
        first_hit(g, cs.drop_first(), dir)
    }
}

/// `h` has the dimensions of `g`.
pub open spec fn has_dims_of(h: Seq<Seq<i8>>, g: Seq<Seq<i8>>) -> bool {
    h.len() == g.len() && forall|i: int| 0 <= i < g.len() ==> #[trigger] h[i].len() == g[i].len()
}

/// `g` with a 1 in each of its cells that `cs` lists.
pub open spec fn stamped(g: Seq<Seq<i8>>, cs: Seq<(int, int)>) -> Seq<Seq<i8>> {
    Seq::new(
        g.len(),
        |i: int| Seq::new(g[i].len(), |j: int| if cs.contains((i, j)) { 1i8 } else { g[i][j] }),
    )
}

/// The cells of a piece, within and beside the shape's area, stay close to
/// the anchor; listed row by row, their rows never decrease.
proof fn lemma_cells_shape(rings: Seq<Seq<i8>>, a: (int, int), k: int)
    requires
        0 <= k <= 25,
    ensures
        forall|i: int|
            0 <= i < cells_from(rings, a, k).len() ==> {
                let c = #[trigger] cells_from(rings, a, k)[i];
                &&& a.0 + k / 5 - 1 <= c.0 <= a.0 + 3
                &&& a.1 <= c.1 <= a.1 + 4
            },
        forall|i: int, j: int|
            0 <= i < j < cells_from(rings, a, k).len() ==> (#[trigger] cells_from(rings, a, k)[i]).0
                <= (#[trigger] cells_from(rings, a, k)[j]).0,
    decreases 25 - k,
{
    if k < 25 {
        lemma_cells_shape(rings, a, k + 1);
        assert(k / 5 <= (k + 1) / 5);
        assert(k / 5 <= 4 && k % 5 <= 4);
        let rest = cells_from(rings, a, k + 1);
        if filled(rings, k) {
            let cs = cells_from(rings, a, k);
            assert(cs == seq![cell_pos(a, k)] + rest);
            assert forall|i: int| 0 < i < cs.len() implies #[trigger] cs[i] == rest[i - 1] by {}
        }
    }
}

/// The cells of a piece include every filled cell of the area from `k` on.
proof fn lemma_cells_contain(rings: Seq<Seq<i8>>, a: (int, int), k: int, j: int)
    requires
        0 <= k <= j < 25,
        filled(rings, j),
    ensures
        cells_from(rings, a, k).contains(cell_pos(a, j)),
    decreases j - k,
{
    let cs = cells_from(rings, a, k);
    if k == j {
        assert(cs[0] == cell_pos(a, j));
    } else {
        lemma_cells_contain(rings, a, k + 1, j);
        let rest = cells_from(rings, a, k + 1);
        let i = choose|i: int| 0 <= i < rest.len() && rest[i] == cell_pos(a, j);
        if filled(rings, k) {
            assert(cs[i + 1] == rest[i]);
        }
    }
}

/// The center of the area is filled, so a piece covers at least one cell,
/// the one below its anchor and two columns right.
proof fn lemma_center(rings: Seq<Seq<i8>>, a: (int, int))
    requires
        rings_ok(rings),
    ensures
        cells_of(rings, a).contains((a.0 + 1, a.1 + 2)),
        cells_of(rings, a).len() > 0,
{
    assert(filled(rings, 12));
    lemma_cells_contain(rings, a, 0, 12);
}

/// Where no cell meets anything, each cell is free.
proof fn lemma_first_hit_free(g: Seq<Seq<i8>>, cs: Seq<(int, int)>, dir: Dir, i: int)
    requires
        first_hit(g, cs, dir) == Hit::Free,
        0 <= i < cs.len(),
    ensures
        hit_at(g, cs[i], dir) == Hit::Free,
    decreases i,
{
    if i > 0 {
        lemma_first_hit_free(g, cs.drop_first(), dir, i - 1);
    }
}

/// Where every cell is either free or meets `h`, and one is not free, the
/// cells meet `h`.
proof fn lemma_first_hit_is(g: Seq<Seq<i8>>, cs: Seq<(int, int)>, dir: Dir, h: Hit, i: int)
    requires
        h != Hit::Free,
        forall|j: int|
            0 <= j < cs.len() ==> #[trigger] hit_at(g, cs[j], dir) == Hit::Free || hit_at(
                g,
                cs[j],
                dir,
            ) == h,
        0 <= i < cs.len(),
        hit_at(g, cs[i], dir) != Hit::Free,
    ensures
        first_hit(g, cs, dir) == h,
    decreases i,
{
    if hit_at(g, cs[0], dir) == Hit::Free {
        let rest = cs.drop_first();
        assert forall|j: int| 0 <= j < rest.len() implies #[trigger] hit_at(g, rest[j], dir)
            == Hit::Free || hit_at(g, rest[j], dir) == h by {
            assert(rest[j] == cs[j + 1]);
        }
        assert(rest[i - 1] == cs[i]);
        lemma_first_hit_is(g, rest, dir, h, i - 1);
    }
}

/// Every cell lies between the side walls.
pub open spec fn cols_inside(cs: Seq<(int, int)>) -> bool {
    forall|i: int| 0 <= i < cs.len() ==> 0 <= #[trigger] cs[i].1 < COLS
}

/// Every cell lies above the floor.
pub open spec fn rows_inside(cs: Seq<(int, int)>) -> bool {
    forall|i: int| 0 <= i < cs.len() ==> #[trigger] cs[i].0 < ROWS
}

/// The cell below `c` is occupied, or is the floor.
pub open spec fn lands(g: Seq<Seq<i8>>, c: (int, int)) -> bool {
    cell_at(g, c.0 + 1, c.1) == 1 || c.0 + 1 >= ROWS
}

/// The cell beside `c` in the direction `dir` is occupied, or is a wall.
pub open spec fn bumps(g: Seq<Seq<i8>>, c: (int, int), dir: Dir) -> bool {
    let col = c.1 + dir.offset().1;
    cell_at(g, c.0, col) == 1 || col < 0 || col >= COLS
}

/// A ring turned a quarter: each cell moves a quarter of the ring along it,
/// clockwise for `Right`. A ring of one cell stays as it is.
pub open spec fn turned(s: Seq<i8>, r: Rotate) -> Seq<i8> {
    let n = s.len() / 4;
    Seq::new(
        s.len(),
        |i: int|
            match r {
                Rotate::Right => if i >= n {
                    s[i - n]
                } else {
                    s[i - n + s.len()]
                },
                Rotate::Left => if i + n < s.len() {
                    s[i + n]
                } else {
                    s[i + n - s.len()]
                },
            },
    )
}

/// A shape turned a quarter: each ring turned on its own.
pub open spec fn turned_rings(rings: Seq<Seq<i8>>, r: Rotate) -> Seq<Seq<i8>> {
    rings.map_values(|s: Seq<i8>| turned(s, r))
}

/// Turning a shape one way and then the other gives the shape back.
pub proof fn lemma_turns_cancel(rings: Seq<Seq<i8>>, r: Rotate)
    ensures
        turned_rings(turned_rings(rings, r), if r == Rotate::Right {
            Rotate::Left
        } else {
            Rotate::Right
        }) == rings,
{
    let back = if r == Rotate::Right {
        Rotate::Left
    } else {
        Rotate::Right
    };
    assert forall|k: int| 0 <= k < rings.len() implies #[trigger] turned(
        turned(rings[k], r),
        back,
    ) == rings[k] by {
        assert(turned(turned(rings[k], r), back) =~= rings[k]);
    }
    assert(turned_rings(turned_rings(rings, r), back) =~= rings);
}

fn turn_ring(ring: &Vec<i8>, r: Rotate) -> (out: Vec<i8>)
    ensures
        out@ == turned(ring@, r),
{
    let len = ring.len();
    let n = len / 4;
    let mut out: Vec<i8> = Vec::new();
    let mut i: usize = 0;
    while i < len
        invariant
            len == ring@.len(),
            n == len / 4,
            i <= len,
            out@ == turned(ring@, r).subrange(0, i as int),
        decreases len - i,
    {
        let from = match r {
            Rotate::Right => if i >= n {
                i - n
            } else {
                len - n + i
            },
            Rotate::Left => if i < len - n {
                i + n
            } else {
                i - (len - n)
            },
        };
        out.push(ring[from]);
        i += 1;
        assert(out@ =~= turned(ring@, r).subrange(0, i as int));
    }
    assert(out@ =~= turned(ring@, r));
    out
}

fn turn_rings(rings: &Vec<Vec<i8>>, r: Rotate) -> (out: Vec<Vec<i8>>)
    ensures
        rows_view(out@) == turned_rings(rows_view(rings@), r),
{
    let mut out: Vec<Vec<i8>> = Vec::new();
    let mut k: usize = 0;
    while k < rings.len()
        invariant
            k <= rings.len(),
            out@.len() == k,
            forall|j: int|
                0 <= j < k ==> #[trigger] rows_view(out@)[j] == turned_rings(rows_view(rings@), r)[j],
        decreases rings.len() - k,
    {
        let ring = turn_ring(&rings[k], r);
        let ghost prev = out@;
        out.push(ring);
        assert forall|j: int| 0 <= j < k + 1 implies #[trigger] rows_view(out@)[j] == turned_rings(
            rows_view(rings@),
            r,
        )[j] by {
            if j < k {
                assert(out@[j] == prev[j]);
                assert(rows_view(prev)[j] == prev[j]@);
            }
        }
        k += 1;
    }
    assert(rows_view(out@) =~= turned_rings(rows_view(rings@), r));
    out
}

/// The falling piece: its shape as rings, its anchor on the grid, and whether
/// it is still falling.
pub struct Piece {
    area: Vec<Vec<i8>>,
    position: Pos,
    alive: bool,
}

fn ring_index(y: usize, x: usize) -> (r: (usize, usize))
    requires
        y < 5,
        x < 5,
    ensures
        r.0 == ring_of(y as int, x as int),
        r.1 == index_in_ring(y as int, x as int),
        r.0 < 3,
        r.0 == 0 ==> r.1 < 16,
        r.0 == 1 ==> r.1 < 8,
        r.0 == 2 ==> r.1 == 0,
{
    let a = if y <= x { y } else { x };
    let b = if 4 - y <= 4 - x { 4 - y } else { 4 - x };
    let r = if a <= b { a } else { b };
    let n = 4 - 2 * r;
    if r == 2 {
        (r, 0)
    } else if y == r && x < r + n {
        (r, x - r)
    } else if x == r + n && y < r + n {
        (r, n + (y - r))
    } else if y == r + n && x > r {
        (r, 2 * n + (r + n - x))
    } else {
        (r, 3 * n + (r + n - y))
    }
}

impl Piece {
    /// The shape's rings.
    pub closed spec fn rings(&self) -> Seq<Seq<i8>> {
        rows_view(self.area@)
    }

    /// The anchor: where the area's second row and first column lie.
    pub closed spec fn anchor(&self) -> Pos {
        self.position
    }

    pub closed spec fn alive(&self) -> bool {
        self.alive
    }

    pub open spec fn wf(&self) -> bool {
        rings_ok(self.rings()) && anchor_ok(self.anchor())
    }

    /// The grid positions that the piece covers, row by row.
    pub open spec fn bits(&self) -> Seq<(int, int)> {
        cells_of(self.rings(), self.anchor()@)
    }

    /// A falling piece of the given kind, anchored at `pos`.
    pub fn new(kind: Pieces, pos: Pos) -> (r: Piece)
        requires
            anchor_ok(pos),
        ensures
            r.wf(),
            r.rings() == kind.rings(),
            r.anchor() == pos,
            r.alive(),
    {
        Piece { area: kind.get(), position: pos, alive: true }
    }

    /// A falling piece of a kind drawn at random, anchored at `pos`.
    pub fn random(pos: Pos) -> (r: Piece)
        requires
            anchor_ok(pos),
        ensures
            r.wf(),
            exists|n: u8| n < KINDS && r.rings() == kind_of(n).rings(),
            r.anchor() == pos,
            r.alive(),
    {
        let piece = Pieces::random();
        Piece::new(piece, pos)
    }

    /// The 5 by 5 area of the shape.
    fn get_area(&self) -> (r: Vec<Vec<i8>>)
        requires
            rings_ok(self.rings()),
        ensures
            rows_view(r@) == local_grid(self.rings()),
    {
        let ghost rings = self.rings();
        let mut array: Vec<Vec<i8>> = Vec::new();
        let mut y: usize = 0;
        while y < 5
            invariant
                y <= 5,
                rings == self.rings(),
                rings_ok(rings),
                array@.len() == y,
                forall|i: int| 0 <= i < y ==> #[trigger] rows_view(array@)[i] == local_grid(rings)[i],
            decreases 5 - y,
        {
            let mut row: Vec<i8> = Vec::new();
            let mut x: usize = 0;
            while x < 5
                invariant
                    y < 5,
                    x <= 5,
                    rings == self.rings(),
                    rings_ok(rings),
                    row@.len() == x,
                    forall|j: int| 0 <= j < x ==> #[trigger] row@[j] == local_at(rings, y as int, j),
                decreases 5 - x,
            {
                let (ring, index) = ring_index(y, x);
                assert(self.area@[ring as int]@ == rings[ring as int]);
                row.push(self.area[ring][index]);
                x += 1;
            }
            assert(row@ =~= local_grid(rings)[y as int]);
            let ghost prev = array@;
            array.push(row);
            assert forall|i: int| 0 <= i < y + 1 implies #[trigger] rows_view(array@)[i] == local_grid(
                rings,
            )[i] by {
                if i < y {
                    assert(array@[i] == prev[i]);
                    assert(rows_view(prev)[i] == prev[i]@);
                }
            }
            y += 1;
        }
        assert(rows_view(array@) =~= local_grid(rings));
        array
    }

    /// The grid positions that the piece covers, row by row.
    pub fn get_bits_pos(&self) -> (r: Vec<Pos>)
        requires
            self.wf(),
        ensures
            pos_view(r@) == self.bits(),
    {
        let area = self.get_area();
        let ghost rings = self.rings();
        let ghost a = self.anchor()@;
        let mut piece_pos_vec: Vec<Pos> = Vec::new();
        let mut k: usize = 0;
        while k < 25
            invariant
                k <= 25,
                self.wf(),
                rings == self.rings(),
                a == self.anchor()@,
                rows_view(area@) == local_grid(rings),
                pos_view(piece_pos_vec@) + cells_from(rings, a, k as int) == cells_of(rings, a),
            decreases 25 - k,
        {
            let y = k / 5;
            let x = k % 5;
            assert(y < 5 && x < 5);
            assert(area@.len() == rows_view(area@).len());
            assert(area@[y as int]@ == local_grid(rings)[y as int]);
            if area[y][x] == 1 {
                let p = self.position + Pos(y as i8 - 1, x as i8);
                proof {
                    assert(p@ == cell_pos(a, k as int));
                    assert(pos_view(piece_pos_vec@.push(p)) =~= pos_view(piece_pos_vec@) + seq![p@]);
                }
                piece_pos_vec.push(p);
            }
            k += 1;
        }
        assert(cells_from(rings, a, 25) =~= Seq::<(int, int)>::empty());
        assert(pos_view(piece_pos_vec@) =~= cells_of(rings, a));
        piece_pos_vec
    }

    // Whether each cell of the piece can take the step `dir`. The first cell
    // that meets something decides: below, the piece lands and dies; beside
    // it, the step is refused. A dead piece takes no step.
    fn hit_detect(&mut self, dir: &Dir, grid: &Tetris) -> (r: Result<(), ()>)
        requires
            old(self).wf(),
            grid.wf(),
        ensures
            final(self).rings() == old(self).rings(),
            final(self).anchor() == old(self).anchor(),
            r is Ok <==> old(self).alive() && first_hit(grid@, old(self).bits(), *dir) == Hit::Free,
            final(self).alive() == (old(self).alive() && first_hit(grid@, old(self).bits(), *dir)
                != Hit::Fatal),
    {
        let ghost g = grid@;
        let ghost cs = self.bits();
        let bits = self.get_bits_pos();
        let d = dir.get();
        proof {
            lemma_cells_shape(self.rings(), self.anchor()@, 0);
            lemma_center(self.rings(), self.anchor()@);
            assert(cs.subrange(0, cs.len() as int) =~= cs);
        }
        let mut i: usize = 0;
        while i < bits.len()
            invariant
                pos_view(bits@) == cs,
                cs == old(self).bits(),
                *self == *old(self),
                self.wf(),
                grid.wf(),
                g == grid@,
                d@ == dir.offset(),
                i <= bits.len(),
                i > 0 ==> self.alive(),
                first_hit(g, cs, *dir) == first_hit(g, cs.subrange(i as int, cs.len() as int), *dir),
                forall|j: int|
                    0 <= j < cs.len() ==> {
                        let c = #[trigger] cs[j];
                        &&& self.anchor().0 - 1 <= c.0 <= self.anchor().0 + 3
                        &&& self.anchor().1 <= c.1 <= self.anchor().1 + 4
                    },
            decreases bits.len() - i,
        {
            let ghost rest = cs.subrange(i as int, cs.len() as int);
            assert(bits@[i as int]@ == cs[i as int]);
            let new_pos = bits[i] + d;
            assert(rest[0] == cs[i as int]);
            assert(rest.drop_first() =~= cs.subrange(i + 1, cs.len() as int));
            if self.is_alive() {
                let v = grid.get_grid_pos(new_pos);
                if v == 1 && matches!(dir, Dir::Down) {
                    self.kill();
                    return Err(());
                } else if v == 1 {
                    return Err(());
                } else if new_pos.0 as i16 >= ROWS as i16 {
                    self.kill();
                    return Err(());
                } else if new_pos.1 as i16 >= COLS as i16 || new_pos.1 < 0 {
                    return Err(());
                }
            } else {
                return Err(());
            }
            i += 1;
        }
        assert(cs.subrange(i as int, cs.len() as int).len() == 0);
        Ok(())
    }

    fn apply_dir(&mut self, dir: &Dir)
        requires
            fits_i8(old(self).anchor().0 + dir.offset().0),
            fits_i8(old(self).anchor().1 + dir.offset().1),
        ensures
            final(self).anchor()@ == (old(self).anchor()@.0 + dir.offset().0, old(self).anchor()@.1
                + dir.offset().1),
            final(self).rings() == old(self).rings(),
            final(self).alive() == old(self).alive(),
    {
        self.position = self.position + dir.get();
    }

    /// Moves the piece one step in `dir`, where every cell can take it (see
    /// `Hit`). A cell that meets an occupied cell below, or the floor, kills
    /// the piece; one that meets an occupied cell beside it, or a wall, only
    /// refuses the step.
    pub fn move_dir(&mut self, dir: Dir, grid: &Tetris)
        requires
            old(self).wf(),
            grid.wf(),
        ensures
            final(self).wf(),
            final(self).rings() == old(self).rings(),
            final(self).alive() == (old(self).alive() && first_hit(grid@, old(self).bits(), dir)
                != Hit::Fatal),
            final(self).anchor()@ == if old(self).alive() && first_hit(grid@, old(self).bits(), dir)
                == Hit::Free {
                (old(self).anchor()@.0 + dir.offset().0, old(self).anchor()@.1 + dir.offset().1)
            } else {
                old(self).anchor()@
            },
            // Landing: a step down onto an occupied cell or past the floor kills
            // the piece where it stands.
            old(self).alive() && dir == Dir::Down && cols_inside(old(self).bits()) && (exists|i: int|
                0 <= i < old(self).bits().len() && lands(grid@, #[trigger] old(self).bits()[i]))
                ==> !final(self).alive() && final(self).anchor() == old(self).anchor(),
            // A step sideways into an occupied cell or a wall is refused, and
            // the piece lives on.
            old(self).alive() && (dir == Dir::Left || dir == Dir::Right) && rows_inside(
                old(self).bits(),
            ) && (exists|i: int|
                0 <= i < old(self).bits().len() && bumps(grid@, #[trigger] old(self).bits()[i], dir))
                ==> final(self).alive() && final(self).anchor() == old(self).anchor(),
    {
        let ghost cs = self.bits();
        let ghost g = grid@;
        match self.hit_detect(&dir, grid) {
            Ok(_) => {
                proof {
                    let a = self.anchor()@;
                    lemma_center(self.rings(), a);
                    let i = choose|i: int| 0 <= i < cs.len() && cs[i] == (a.0 + 1, a.1 + 2);
                    lemma_first_hit_free(g, cs, dir, i);
                }
                self.apply_dir(&dir);
            },
            Err(_) => (),
        }
        proof {
            if old(self).alive() && dir == Dir::Down && cols_inside(cs) && (exists|i: int|
                0 <= i < cs.len() && lands(g, #[trigger] cs[i])) {
                let i = choose|i: int| 0 <= i < cs.len() && lands(g, #[trigger] cs[i]);
                lemma_first_hit_is(g, cs, dir, Hit::Fatal, i);
            }
            if old(self).alive() && (dir == Dir::Left || dir == Dir::Right) && rows_inside(cs) && (
            exists|i: int| 0 <= i < cs.len() && bumps(g, #[trigger] cs[i], dir)) {
                let i = choose|i: int| 0 <= i < cs.len() && bumps(g, #[trigger] cs[i], dir);
                lemma_first_hit_is(g, cs, dir, Hit::Blocked, i);
            }
        }
    }

    /// Turns the shape a quarter in the direction `r`. The turn is kept only
    /// where each cell of the turned shape is free where it stands; else the
    /// shape stays as it was. A turned cell past the floor kills the piece
    /// even so.
    pub fn rotate(&mut self, r: Rotate, tetris: &Tetris)
        requires
            old(self).wf(),
            tetris.wf(),
        ensures
            final(self).wf(),
            final(self).anchor() == old(self).anchor(),
            final(self).rings() == if old(self).alive() && first_hit(
                tetris@,
                cells_of(turned_rings(old(self).rings(), r), old(self).anchor()@),
                Dir::Stay,
            ) == Hit::Free {
                turned_rings(old(self).rings(), r)
            } else {
                old(self).rings()
            },
            final(self).alive() == (old(self).alive() && first_hit(
                tetris@,
                cells_of(turned_rings(old(self).rings(), r), old(self).anchor()@),
                Dir::Stay,
            ) != Hit::Fatal),
            // A turn into an occupied cell or out of the field leaves the shape
            // as it was.
            first_hit(
                tetris@,
                cells_of(turned_rings(old(self).rings(), r), old(self).anchor()@),
                Dir::Stay,
            ) != Hit::Free ==> final(self).rings() == old(self).rings(),
    {
        let mut area = turn_rings(&self.area, r);
        proof {
            let t = rows_view(area@);
            assert(t[0].len() == 16 && t[1].len() == 8);
            assert(t[2] =~= seq![1i8]);
        }
        std::mem::swap(&mut self.area, &mut area);
        match self.hit_detect(&Dir::Stay, tetris) {
            Ok(()) => (),
            Err(()) => self.area = area,
        }
    }

    /// Writes the piece into the grid, each covered cell set to 1, and returns
    /// true; but where a cell lies above the field, the piece dies, nothing is
    /// written, and the result is false: the game is lost.
    pub fn apply_to_grid(&mut self, grid: &mut Tetris) -> (r: bool)
        requires
            old(self).wf(),
            old(grid).wf(),
        ensures
            final(grid).wf(),
            final(self).rings() == old(self).rings(),
            final(self).anchor() == old(self).anchor(),
            r == (forall|i: int| 0 <= i < old(self).bits().len() ==> #[trigger] old(self).bits()[i].0 >= 0),
            r ==> final(grid)@ == stamped(old(grid)@, old(self).bits()) && final(self).alive() == old(self).alive(),
            // Each covered cell of the grid is occupied after a write.
            r ==> forall|i: int|
                0 <= i < old(self).bits().len() && in_grid(
                    old(grid)@,
                    #[trigger] old(self).bits()[i].0,
                    old(self).bits()[i].1,
                ) ==> final(grid)@[old(self).bits()[i].0][old(self).bits()[i].1] == 1,
            !r ==> final(grid)@ == old(grid)@,
            !r ==> !final(self).alive(),
    {
        let ghost g = grid@;
        let ghost cs = self.bits();
        let bits = self.get_bits_pos();
        proof {
            lemma_cells_shape(self.rings(), self.anchor()@, 0);
            assert(stamped(g, cs.take(0)) =~~= g);
        }
        let mut i: usize = 0;
        while i < bits.len()
            invariant
                pos_view(bits@) == cs,
                cs == old(self).bits(),
                *self == *old(self),
                grid.wf(),
                g == old(grid)@,
                has_dims_of(grid@, g),
                i <= bits.len(),
                forall|j: int| 0 <= j < i ==> #[trigger] cs[j].0 >= 0,
                forall|j: int, k: int| 0 <= j < k < cs.len() ==> (#[trigger] cs[j]).0 <= (#[trigger] cs[k]).0,
                grid@ == stamped(g, cs.take(i as int)),
                stamped(g, cs.take(0)) == g,
            decreases bits.len() - i,
        {
            let pos = bits[i];
            assert(pos@ == cs[i as int]);
            if pos.0 < 0 {
                self.kill();
                proof {
                    if i > 0 {
                        assert(cs[0].0 <= cs[i as int].0);
                        assert(cs[0].0 >= 0);
                    }
                    assert(i == 0);
                }
                return false;
            }
            let ghost before = grid@;
            grid.set_grid(pos, 1);
            proof {
                let next = cs.take(i + 1);
                assert(next =~= cs.take(i as int).push(cs[i as int]));
                assert forall|x: (int, int)| next.contains(x) <==> cs.take(i as int).contains(x) || x == cs[i as int] by {
                    vstd::seq_lib::lemma_seq_contains_after_push(cs.take(i as int), cs[i as int], x);
                }
                assert(grid@ =~~= stamped(g, next));
            }
            i += 1;
        }
        assert(cs.take(cs.len() as int) =~= cs);
        assert forall|i: int| 0 <= i < cs.len() && in_grid(g, #[trigger] cs[i].0, cs[i].1) implies grid@[cs[i].0][cs[i].1] == 1 by {
            assert(cs.contains(cs[i]));
        }
        true
    }

    pub fn get_pos(&self) -> (r: Pos)
        ensures
            r == self.anchor(),
    {
        self.position
    }

    /// Moves the anchor to `p`, leaving the shape and the aliveness as they are.
    pub fn set_pos(&mut self, p: Pos)
        requires
            anchor_ok(p),
        ensures
            final(self).anchor() == p,
            final(self).rings() == old(self).rings(),
            final(self).alive() == old(self).alive(),
    {
        self.position = p;
    }

    pub fn is_alive(&self) -> (r: bool)
        ensures
            r == self.alive(),
    {
        self.alive
    }

    fn kill(&mut self)
        ensures
            !final(self).alive(),
            final(self).rings() == old(self).rings(),
            final(self).anchor() == old(self).anchor(),
    {
        self.alive = false
    }
}

} // verus!
