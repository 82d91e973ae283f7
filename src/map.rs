use vstd::prelude::*;
use vstd::arithmetic::div_mod::{lemma_fundamental_div_mod, lemma_fundamental_div_mod_converse};
use vstd::arithmetic::div_mod::lemma_mod_pos_bound;
use crate::player::Direction;
use crate::random::random_bool;
use rand_chacha::ChaCha8Rng;

verus! {

/// Sizes that generation accepts: odd, at least 5, and small enough that
/// every cell has a `u32` index.
pub open spec fn valid_size(width: int, height: int) -> bool {
    &&& 5 <= width && 5 <= height
    &&& width % 2 == 1 && height % 2 == 1
    &&& width * height <= u32::MAX
}

/// Pillars are the interior cells with both coordinates even. Pillar `(i, j)`
/// stands at `(2 + 2i, 2 + 2j)`; these count its columns and rows.
pub open spec fn pillar_columns(width: int) -> int {
    (width - 3) / 2
}

pub open spec fn pillar_rows(height: int) -> int {
    (height - 3) / 2
}

/// Generation reads two random choices per pillar.
pub open spec fn choice_count(width: int, height: int) -> int {
    2 * (pillar_columns(width) * pillar_rows(height))
}

/// The side on which pillar `(i, j)` puts a wall, read from its two choices
/// (pillars are taken column by column). Pillars of the first column may
/// turn to any side; the others never turn back to the west.
pub open spec fn knock_direction(c: Seq<bool>, height: int, i: int, j: int) -> Direction {
    let n = 2 * (i * pillar_rows(height) + j);
    if c[n] {
        if i == 0 && !c[n + 1] {
            Direction::West
        } else {
            Direction::East
        }
    } else if c[n + 1] {
        Direction::South
    } else {
        Direction::North
    }
}

/// The cell next to pillar `(i, j)` that it turns into a wall.
pub open spec fn knock_target(c: Seq<bool>, height: int, i: int, j: int) -> (int, int) {
    let (px, py) = (2 + 2 * i, 2 + 2 * j);
    match knock_direction(c, height, i, j) {
        Direction::West => (px - 1, py),
        Direction::East => (px + 1, py),
        Direction::North => (px, py - 1),
        Direction::South => (px, py + 1),
    }
}

/// Pillar `(i, j)` comes before pillar `(i0, j0)` in generation order.
pub open spec fn comes_before(i0: int, j0: int, i: int, j: int) -> bool {
    i < i0 || (i == i0 && j < j0)
}

/// `(x, y)` is a seam that one of the pillars before `(i0, j0)` walled up.
/// A seam between two rooms of one column can only be walled by the pillar
/// west of it (turning east) or, in the first column, by the pillar east of
/// it (turning west); a seam between two columns only by the pillar above
/// (turning south) or below it (turning north).
pub open spec fn knocked(
    width: int,
    height: int,
    c: Seq<bool>,
    i0: int,
    j0: int,
    x: int,
    y: int,
) -> bool {
    ||| x % 2 == 1 && y % 2 == 0 && 2 <= y <= height - 3 && (
        (3 <= x <= width - 2 && comes_before(i0, j0, (x - 3) / 2, (y - 2) / 2)
            && knock_direction(c, height, (x - 3) / 2, (y - 2) / 2) == Direction::East)
        || (x == 1 && comes_before(i0, j0, 0, (y - 2) / 2)
            && knock_direction(c, height, 0, (y - 2) / 2) == Direction::West))
    ||| x % 2 == 0 && y % 2 == 1 && 2 <= x <= width - 3 && (
        (3 <= y && comes_before(i0, j0, (x - 2) / 2, (y - 3) / 2)
            && knock_direction(c, height, (x - 2) / 2, (y - 3) / 2) == Direction::South)
        || (y <= height - 4 && comes_before(i0, j0, (x - 2) / 2, (y - 1) / 2)
            && knock_direction(c, height, (x - 2) / 2, (y - 1) / 2) == Direction::North))
}

/// The border and the pillars are walls before any choice is read.
pub open spec fn lattice_wall(width: int, height: int, x: int, y: int) -> bool {
    x == 0 || y == 0 || x == width - 1 || y == height - 1 || (x % 2 == 0 && y % 2 == 0)
}

/// The tile at `(x, y)` once the pillars before `(i0, j0)` have been handled.
pub open spec fn stage_tile(
    width: int,
    height: int,
    c: Seq<bool>,
    i0: int,
    j0: int,
    x: int,
    y: int,
) -> Tile {
    if lattice_wall(width, height, x, y) || knocked(width, height, c, i0, j0, x, y) {
        Tile::Wall
    } else {
        Tile::Floor
    }
}

/// The tile at `(x, y)` of the maze generated from the choices `c`.
pub open spec fn maze_tile(width: int, height: int, c: Seq<bool>, x: int, y: int) -> Tile {
    stage_tile(width, height, c, pillar_columns(width), 0, x, y)
}

proof fn lemma_cell_of_index(width: int, height: int, m: int)
    requires
        0 < width,
        0 <= m < width * height,
    ensures
        0 <= m % width < width,
        0 <= m / width < height,
        m == m % width + (m / width) * width,
{
    lemma_fundamental_div_mod(m, width);
    lemma_mod_pos_bound(m, width);
    let q = m / width;
    let r = m % width;
    assert(q * width == width * q) by (nonlinear_arith);
    assert(0 <= q && q < height) by (nonlinear_arith)
        requires
            m == width * q + r,
            0 <= r < width,
            0 <= m < width * height,
            0 < width,
    ;
}

/// Walling up the target of pillar `(i, j)` is the one change between the
/// stage before it and the stage after it.
proof fn lemma_knock_step(width: int, height: int, c: Seq<bool>, i: int, j: int, x: int, y: int)
    requires
        valid_size(width, height),
        0 <= i < pillar_columns(width),
        0 <= j < pillar_rows(height),
        0 <= x < width,
        0 <= y < height,
    ensures
        knocked(width, height, c, i, j + 1, x, y) == (knocked(width, height, c, i, j, x, y)
            || (x, y) == knock_target(c, height, i, j)),
{
}

/// `p` and `q` are side by side on the grid.
pub open spec fn adjacent(p: (int, int), q: (int, int)) -> bool {
    ||| p.0 == q.0 && (p.1 - q.1 == 1 || q.1 - p.1 == 1)
    ||| p.1 == q.1 && (p.0 - q.0 == 1 || q.0 - p.0 == 1)
}

/// One cell of the grid.
#[derive(Clone, Copy, PartialEq, Eq, Structural, Debug)]
pub enum Tile {
    Floor,
    Wall,
}

/// A maze: a `width` by `height` grid of tiles stored row by row, with the
/// cell where the player starts and the cell to reach.
pub struct Maze {
    pub width: u32,
    pub height: u32,
    pub start_x: u32,
    pub start_y: u32,
    pub goal_x: u32,
    pub goal_y: u32,
    pub data: Vec<Tile>,
}

impl View for Maze {
    type V = Seq<Tile>;

    open spec fn view(&self) -> Seq<Tile> {
        self.data@
    }
}

impl Maze {
    /// The tile at `(x, y)`, for a cell inside the grid.
    pub open spec fn tile(&self, x: int, y: int) -> Tile {
        self@[x + y * self.width]
    }

    pub open spec fn in_bounds(&self, x: int, y: int) -> bool {
        0 <= x < self.width && 0 <= y < self.height
    }

    /// The tile at `(x, y)`, where every cell off the grid counts as a wall.
    pub open spec fn tile_or_wall(&self, x: int, y: int) -> Tile {
        if self.in_bounds(x, y) {
            self.tile(x, y)
        } else {
            Tile::Wall
        }
    }

    /// This is the maze that generation builds at the given size from the
    /// choices `c`.
    pub open spec fn is_maze(&self, width: int, height: int, c: Seq<bool>) -> bool {
        &&& self.wf()
        &&& self.width == width && self.height == height
        &&& self.start_x == 1 && self.start_y == 1
        &&& self.goal_x == width - 2 && self.goal_y == height - 2
        &&& forall|x: int, y: int|
            0 <= x < width && 0 <= y < height ==> #[trigger] self.tile(x, y) == maze_tile(
                width,
                height,
                c,
                x,
                y,
            )
    }

    /// `p` is a floor of the grid.
    pub open spec fn is_open(&self, p: (int, int)) -> bool {
        self.tile_or_wall(p.0, p.1) == Tile::Floor
    }

    /// `s` is a walk over floors, each cell beside the one before.
    pub open spec fn is_walk(&self, s: Seq<(int, int)>) -> bool {
        &&& s.len() > 0
        &&& forall|i: int| 0 <= i < s.len() ==> #[trigger] self.is_open(s[i])
        &&& forall|i: int| 0 <= i < s.len() - 1 ==> #[trigger] adjacent(s[i], s[i + 1])
    }

    /// Some walk over floors leads from `a` to `b`.
    pub open spec fn connected(&self, a: (int, int), b: (int, int)) -> bool {
        exists|s: Seq<(int, int)>| #[trigger] self.is_walk(s) && s[0] == a && s.last() == b
    }

    pub open spec fn wf(&self) -> bool {
        &&& self@.len() == self.width * self.height
        &&& self.width * self.height <= u32::MAX
        &&& self.width <= i32::MAX && self.height <= i32::MAX
    }

    /// Where `(x, y)` lies in the row-by-row storage, if it is on the grid.
    fn index_of(&self, x: i32, y: i32) -> (r: Option<usize>)
        requires
            self.wf(),
        ensures
            match r {
                Some(i) => self.in_bounds(x as int, y as int) && i == x + y * self.width && i < self@.len(),
                None => !self.in_bounds(x as int, y as int),
            },
    {
        if x < 0 || x as u32 >= self.width {
            return None;
        }
        if y < 0 || y as u32 >= self.height {
            return None;
        }
        proof {
            assert((x as int) + (y as int) * (self.width as int) < (self.width as int) * (self.height as int)) by (nonlinear_arith)
                requires 0 <= x < self.width, 0 <= y < self.height;
        }
        Some(((x as u32) + (y as u32) * self.width) as usize)
    }

    /// Generates a maze of the given size, drawing two random bits per pillar
    /// from `rng` (see `from_choices`).
    pub fn new(rng: &mut ChaCha8Rng, width: u32, height: u32) -> (r: Maze)
        requires
            valid_size(width as int, height as int),
        ensures
            exists|c: Seq<bool>|
                c.len() == choice_count(width as int, height as int) && #[trigger] r.is_maze(
                    width as int,
                    height as int,
                    c,
                ),
    {
        proof {
            let (w, h) = (width as int, height as int);
            let (a, b) = ((w - 3) / 2, (h - 3) / 2);
            assert(0 <= 2 * (a * b) <= w * h) by (nonlinear_arith)
                requires 5 <= w, 5 <= h, 0 <= a, 0 <= b, 2 * a <= w, b <= h;
        }
        let count: u32 = 2 * (((width - 3) / 2) * ((height - 3) / 2));
        let mut choices: Vec<bool> = Vec::new();
        let mut k: u32 = 0;
        while k < count
            invariant
                k <= count,
                choices@.len() == k,
            decreases count - k,
        {
            choices.push(random_bool(rng));
            k = k + 1;
        }
        let r = Maze::from_choices(width, height, &choices);
        assert(r.is_maze(width as int, height as int, choices@));
        r
    }

    /// Builds the maze of the given size from two random choices per pillar.
    ///
    /// Every interior cell that is not a pillar starts as floor. Then each
    /// pillar, column by column, walls up one neighbouring cell: the first
    /// choice picks between a horizontal and a vertical neighbour, the second
    /// picks the side. Pillars after the first column always take the east
    /// neighbour when horizontal. The player starts at `(1, 1)`; the goal is
    /// the opposite interior corner.
    pub fn from_choices(width: u32, height: u32, choices: &Vec<bool>) -> (r: Maze)
        requires
            valid_size(width as int, height as int),
            choices@.len() == choice_count(width as int, height as int),
        ensures
            r.is_maze(width as int, height as int, choices@),
    {
        let ghost w = width as int;
        let ghost h = height as int;
        let ghost c = choices@;
        let n: u32 = width * height;
        let mut data: Vec<Tile> = Vec::new();
        let mut k: u32 = 0;
        while k < n
            invariant
                w == width,
                h == height,
                n == w * h,
                valid_size(w, h),
                k <= n,
                data@.len() == k,
                forall|m: int|
                    0 <= m < k ==> #[trigger] data@[m] == stage_tile(w, h, c, 0, 0, m % w, m / w),
            decreases n - k,
        {
            let x = k % width;
            let y = k / width;
            let t = if x == 0 || y == 0 || x == width - 1 || y == height - 1 || (x % 2 == 0 && y
                % 2 == 0) {
                Tile::Wall
            } else {
                Tile::Floor
            };
            data.push(t);
            k = k + 1;
        }
        let columns: u32 = (width - 3) / 2;
        let rows: u32 = (height - 3) / 2;
        let mut i: u32 = 0;
        let total: usize = choices.len();
        let mut next: usize = 0;
        while i < columns
            invariant
                w == width,
                h == height,
                n == w * h,
                valid_size(w, h),
                c == choices@,
                c.len() == choice_count(w, h),
                total == c.len(),
                columns == pillar_columns(w),
                rows == pillar_rows(h),
                i <= columns,
                next == 2 * (i * rows),
                data@.len() == n,
                forall|m: int|
                    0 <= m < n ==> #[trigger] data@[m] == stage_tile(w, h, c, i as int, 0, m % w, m / w),
            decreases columns - i,
        {
            let mut j: u32 = 0;
            while j < rows
                invariant
                    w == width,
                    h == height,
                    n == w * h,
                    valid_size(w, h),
                    c == choices@,
                    c.len() == choice_count(w, h),
                    total == c.len(),
                    columns == pillar_columns(w),
                    rows == pillar_rows(h),
                    i < columns,
                    j <= rows,
                    next == 2 * (i * rows + j),
                    data@.len() == n,
                    forall|m: int|
                        0 <= m < n ==> #[trigger] data@[m] == stage_tile(w, h, c, i as int, j as int, m % w, m / w),
                decreases rows - j,
            {
                proof {
                    assert(i * rows + j < columns * rows) by (nonlinear_arith)
                        requires i < columns, j < rows;
                }
                assert(next + 2 <= choices@.len());
                let horizontal = choices[next];
                let forward = choices[next + 1];
                let px = 2 + 2 * i;
                let py = 2 + 2 * j;
                let (tx, ty) = if i == 0 {
                    if horizontal {
                        if forward { (px + 1, py) } else { (px - 1, py) }
                    } else {
                        if forward { (px, py + 1) } else { (px, py - 1) }
                    }
                } else if horizontal {
                    (px + 1, py)
                } else if forward {
                    (px, py + 1)
                } else {
                    (px, py - 1)
                };
                assert((tx as int, ty as int) == knock_target(c, h, i as int, j as int));
                proof {
                    assert((tx as int) + (ty as int) * w < w * h) by (nonlinear_arith)
                        requires 0 <= tx < w, 0 <= ty < h;
                }
                let t = tx + ty * width;
                let ghost before = data@;
                data.set(t as usize, Tile::Wall);
                assert(data@.len() == n);
                proof {
                    assert forall|m: int| 0 <= m < n implies #[trigger] data@[m] == stage_tile(
                        w,
                        h,
                        c,
                        i as int,
                        j + 1,
                        m % w,
                        m / w,
                    ) by {
                        lemma_cell_of_index(w, h, m);
                        lemma_knock_step(w, h, c, i as int, j as int, m % w, m / w);
                        if m == t {
                            lemma_fundamental_div_mod_converse(m, w, ty as int, tx as int);
                        } else {
                            assert(before[m] == data@[m]);
                        }
                    }
                    assert(2 * (i * rows + j) + 2 == 2 * (i * rows + (j + 1)));
                }
                next = next + 2;
                j = j + 1;
            }
            proof {
                assert(2 * (i * rows + rows) == 2 * ((i + 1) * rows)) by (nonlinear_arith);
                assert forall|m: int| 0 <= m < n implies #[trigger] data@[m] == stage_tile(
                    w,
                    h,
                    c,
                    i + 1,
                    0,
                    m % w,
                    m / w,
                ) by {
                    lemma_cell_of_index(w, h, m);
                }
            }
            i = i + 1;
        }
        proof {
            assert(w <= i32::MAX && h <= i32::MAX) by (nonlinear_arith)
                requires 5 <= w, 5 <= h, w * h <= u32::MAX;
        }
        let r = Maze {
            width,
            height,
            start_x: 1,
            start_y: 1,
            goal_x: width - 2,
            goal_y: height - 2,
            data,
        };
        proof {
            assert forall|x: int, y: int|
                0 <= x < width && 0 <= y < height implies #[trigger] r.tile(x, y) == maze_tile(
                w,
                h,
                c,
                x,
                y,
            ) by {
                assert(x + y * w < w * h) by (nonlinear_arith)
                    requires 0 <= x < w, 0 <= y < h;
                lemma_fundamental_div_mod_converse(x + y * w, w, y, x);
            }
        }
        r
    }

    /// The tile at `(x, y)`, or `None` off the grid.
    pub fn get(&self, x: i32, y: i32) -> (r: Option<Tile>)
        requires
            self.wf(),
        ensures
            r == if self.in_bounds(x as int, y as int) {
                Some(self.tile(x as int, y as int))
            } else {
                None
            },
    {
        match self.index_of(x, y) {
            Some(i) => Some(self.data[i]),
            None => None,
        }
    }
}

} // verus!
