//! Every floor of a generated maze can be reached from its start.
use crate::map::{adjacent, choice_count, knock_direction, valid_size, Maze};
use crate::player::Direction;
use vstd::prelude::*;

verus! {

proof fn lemma_walk_single(m: Maze, a: (int, int))
    requires
        m.is_open(a),
    ensures
        m.connected(a, a),
{
    let s = seq![a];
    assert(m.is_walk(s));
}

proof fn lemma_walk_extend(m: Maze, a: (int, int), b: (int, int), d: (int, int))
    requires
        m.connected(a, b),
        adjacent(b, d),
        m.is_open(d),
    ensures
        m.connected(a, d),
{
    let s = choose|s: Seq<(int, int)>| #[trigger] m.is_walk(s) && s[0] == a && s.last() == b;
    let t = s.push(d);
    assert forall|i: int| 0 <= i < t.len() implies #[trigger] m.is_open(t[i]) by {
        if i < s.len() {
            assert(t[i] == s[i]);
        }
    }
    assert forall|i: int| 0 <= i < t.len() - 1 implies #[trigger] adjacent(t[i], t[i + 1]) by {
        if i < s.len() - 1 {
            assert(t[i] == s[i] && t[i + 1] == s[i + 1]);
        }
    }
    assert(m.is_walk(t));
}

proof fn lemma_walk_join(m: Maze, a: (int, int), b: (int, int), d: (int, int))
    requires
        m.connected(a, b),
        m.connected(b, d),
    ensures
        m.connected(a, d),
{
    let s = choose|s: Seq<(int, int)>| #[trigger] m.is_walk(s) && s[0] == a && s.last() == b;
    let u = choose|u: Seq<(int, int)>| #[trigger] m.is_walk(u) && u[0] == b && u.last() == d;
    let t = s + u.subrange(1, u.len() as int);
    assert forall|i: int| 0 <= i < t.len() implies #[trigger] m.is_open(t[i]) by {
        if i < s.len() {
            assert(t[i] == s[i]);
        } else {
            assert(t[i] == u[i - s.len() + 1]);
        }
    }
    assert forall|i: int| 0 <= i < t.len() - 1 implies #[trigger] adjacent(t[i], t[i + 1]) by {
        if i < s.len() - 1 {
            assert(t[i] == s[i] && t[i + 1] == s[i + 1]);
        } else if i == s.len() - 1 {
            assert(t[i] == s.last() && t[i + 1] == u[1]);
            assert(adjacent(u[0], u[1]));
        } else {
            let k = i - s.len() + 1;
            assert(t[i] == u[k] && t[i + 1] == u[k + 1]);
            assert(adjacent(u[k], u[k + 1]));
        }
    }
    assert(m.is_walk(t));
    if u.len() == 1 {
        assert(t.last() == s.last());
    } else {
        assert(t.last() == u.last());
    }
}

proof fn lemma_walk_reverse(m: Maze, a: (int, int), b: (int, int))
    requires
        m.connected(a, b),
    ensures
        m.connected(b, a),
{
    let s = choose|s: Seq<(int, int)>| #[trigger] m.is_walk(s) && s[0] == a && s.last() == b;
    let n = s.len() as int;
    let t = Seq::new(n as nat, |i: int| s[n - 1 - i]);
    assert forall|i: int| 0 <= i < t.len() implies #[trigger] m.is_open(t[i]) by {
        assert(m.is_open(s[n - 1 - i]));
    }
    assert forall|i: int| 0 <= i < t.len() - 1 implies #[trigger] adjacent(t[i], t[i + 1]) by {
        assert(adjacent(s[n - 2 - i], s[n - 2 - i + 1]));
    }
    assert(m.is_walk(t));
}

/// `m` is the maze generated at its size from the choices `c`.
pub open spec fn generated_by(m: Maze, c: Seq<bool>) -> bool {
    &&& valid_size(m.width as int, m.height as int)
    &&& c.len() == choice_count(m.width as int, m.height as int)
    &&& m.is_maze(m.width as int, m.height as int, c)
}

/// The side that the pillar at `(x, y)` walled up.
spec fn pillar_side(m: Maze, c: Seq<bool>, x: int, y: int) -> Direction {
    knock_direction(c, m.height as int, (x - 2) / 2, (y - 2) / 2)
}

spec fn is_room(m: Maze, x: int, y: int) -> bool {
    x % 2 == 1 && y % 2 == 1 && 1 <= x <= m.width - 2 && 1 <= y <= m.height - 2
}

proof fn lemma_room_open(m: Maze, c: Seq<bool>, x: int, y: int)
    requires
        generated_by(m, c),
        is_room(m, x, y),
    ensures
        m.is_open((x, y)),
{
    assert(m.tile(x, y) == crate::map::maze_tile(m.width as int, m.height as int, c, x, y));
}

/// A seam between two rooms of one column is open unless the pillar west of
/// it turned east, or, in the first column, the pillar east of it turned west.
proof fn lemma_rail(m: Maze, c: Seq<bool>, x: int, y: int)
    requires
        generated_by(m, c),
        x % 2 == 1,
        1 <= x <= m.width - 2,
        y % 2 == 0,
        2 <= y <= m.height - 3,
    ensures
        m.is_open((x, y)) == if x == 1 {
            pillar_side(m, c, 2, y) != Direction::West
        } else {
            pillar_side(m, c, x - 1, y) != Direction::East
        },
{
    assert(m.tile(x, y) == crate::map::maze_tile(m.width as int, m.height as int, c, x, y));
}

/// A seam between two columns is open unless the pillar above it turned
/// south or the pillar below it turned north.
proof fn lemma_rung(m: Maze, c: Seq<bool>, x: int, y: int)
    requires
        generated_by(m, c),
        x % 2 == 0,
        2 <= x <= m.width - 3,
        y % 2 == 1,
        1 <= y <= m.height - 2,
    ensures
        m.is_open((x, y)) == (!(3 <= y && pillar_side(m, c, x, y - 1) == Direction::South) && !(y
            <= m.height - 4 && pillar_side(m, c, x, y + 1) == Direction::North)),
{
    assert(m.tile(x, y) == crate::map::maze_tile(m.width as int, m.height as int, c, x, y));
}

/// Two floors on either side of an open seam are connected both ways.
proof fn lemma_seam(m: Maze, p: (int, int), seam: (int, int), q: (int, int))
    requires
        m.is_open(p),
        m.is_open(seam),
        m.is_open(q),
        adjacent(p, seam),
        adjacent(seam, q),
    ensures
        m.connected(p, q),
        m.connected(q, p),
{
    lemma_walk_single(m, p);
    lemma_walk_extend(m, p, p, seam);
    lemma_walk_extend(m, p, seam, q);
    lemma_walk_reverse(m, p, q);
}

/// The rooms of the first two columns, down to row `r`: each is connected to
/// one of the two rooms of row `r`, and those two are connected unless the
/// pillar below them turned north (so that rooms further down join them).
proof fn lemma_ladder(m: Maze, c: Seq<bool>, r: int)
    requires
        generated_by(m, c),
        r % 2 == 1,
        1 <= r <= m.height - 2,
    ensures
        forall|x: int, s: int|
            (x == 1 || x == 3) && s % 2 == 1 && 1 <= s <= r ==> #[trigger] m.connected((x, s), (1, r))
                || m.connected((x, s), (3, r)),
        m.connected((1, r), (3, r)) || (r + 1 <= m.height - 3 && pillar_side(m, c, 2, r + 1)
            == Direction::North),
    decreases r,
{
    let h = m.height as int;
    lemma_room_open(m, c, 1, r);
    lemma_room_open(m, c, 3, r);
    lemma_walk_single(m, (1, r));
    lemma_walk_single(m, (3, r));
    lemma_rung(m, c, 2, r);
    if m.is_open((2, r)) {
        lemma_seam(m, (1, r), (2, r), (3, r));
    }
    if r == 1 {
        assert forall|x: int, s: int|
            (x == 1 || x == 3) && s % 2 == 1 && 1 <= s <= r implies #[trigger] m.connected(
            (x, s),
            (1, r),
        ) || m.connected((x, s), (3, r)) by {
            assert(s == 1);
        }
        return;
    }
    let p = r - 2;
    let y = r - 1;
    lemma_ladder(m, c, p);
    lemma_room_open(m, c, 1, p);
    lemma_room_open(m, c, 3, p);
    lemma_rail(m, c, 1, y);
    lemma_rail(m, c, 3, y);
    let side = pillar_side(m, c, 2, y);
    if side != Direction::West {
        lemma_seam(m, (1, p), (1, y), (1, r));
    }
    if side != Direction::East {
        lemma_seam(m, (3, p), (3, y), (3, r));
    }
    if side == Direction::South {
        lemma_walk_join(m, (1, r), (1, p), (3, p));
        lemma_walk_join(m, (1, r), (3, p), (3, r));
    }
    assert forall|x: int, s: int|
        (x == 1 || x == 3) && s % 2 == 1 && 1 <= s <= r implies #[trigger] m.connected((x, s), (1, r))
        || m.connected((x, s), (3, r)) by {
        if s == r {
        } else {
            assert(m.connected((x, s), (1, p)) || m.connected((x, s), (3, p)));
            if side == Direction::West {
                lemma_walk_join(m, (1, p), (3, p), (3, r));
                if m.connected((x, s), (1, p)) {
                    lemma_walk_join(m, (x, s), (1, p), (3, r));
                } else {
                    lemma_walk_join(m, (x, s), (3, p), (3, r));
                }
            } else if side == Direction::East {
                lemma_walk_reverse(m, (1, p), (3, p));
                lemma_walk_join(m, (3, p), (1, p), (1, r));
                if m.connected((x, s), (1, p)) {
                    lemma_walk_join(m, (x, s), (1, p), (1, r));
                } else {
                    lemma_walk_join(m, (x, s), (3, p), (1, r));
                }
            } else {
                if m.connected((x, s), (1, p)) {
                    lemma_walk_join(m, (x, s), (1, p), (1, r));
                } else {
                    lemma_walk_join(m, (x, s), (3, p), (3, r));
                }
            }
        }
    }
}

/// The rooms of column `x + 1`, down to row `r`, where `x` is a pillar
/// column after the first and every room of column `x - 1` is reached from
/// the start: each is reached from the start or connected to room
/// `(x + 1, r)`, and that room is reached unless the pillar below it turned
/// north.
proof fn lemma_column(m: Maze, c: Seq<bool>, x: int, r: int)
    requires
        generated_by(m, c),
        x % 2 == 0,
        4 <= x <= m.width - 3,
        r % 2 == 1,
        1 <= r <= m.height - 2,
        forall|s: int|
            s % 2 == 1 && 1 <= s <= m.height - 2 ==> #[trigger] m.connected((1, 1), (x - 1, s)),
    ensures
        m.connected((1, 1), (x + 1, r)) || (r + 1 <= m.height - 3 && pillar_side(m, c, x, r + 1)
            == Direction::North),
        forall|s: int|
            s % 2 == 1 && 1 <= s <= r ==> #[trigger] m.connected((1, 1), (x + 1, s))
                || m.connected((x + 1, s), (x + 1, r)),
    decreases r,
{
    lemma_room_open(m, c, x - 1, r);
    lemma_room_open(m, c, x + 1, r);
    lemma_walk_single(m, (x + 1, r));
    lemma_rung(m, c, x, r);
    assert(m.connected((1, 1), (x - 1, r)));
    if m.is_open((x, r)) {
        lemma_seam(m, (x - 1, r), (x, r), (x + 1, r));
        lemma_walk_join(m, (1, 1), (x - 1, r), (x + 1, r));
    }
    if r == 1 {
        return;
    }
    let p = r - 2;
    let y = r - 1;
    lemma_column(m, c, x, p);
    lemma_room_open(m, c, x + 1, p);
    lemma_rail(m, c, x + 1, y);
    let side = pillar_side(m, c, x, y);
    if side != Direction::East {
        lemma_seam(m, (x + 1, p), (x + 1, y), (x + 1, r));
    }
    if side == Direction::South {
        lemma_walk_join(m, (1, 1), (x + 1, p), (x + 1, r));
    }
    assert forall|s: int| s % 2 == 1 && 1 <= s <= r implies #[trigger] m.connected(
        (1, 1),
        (x + 1, s),
    ) || m.connected((x + 1, s), (x + 1, r)) by {
        if s < r && !m.connected((1, 1), (x + 1, s)) {
            assert(m.connected((x + 1, s), (x + 1, p)));
            if side != Direction::East {
                lemma_walk_join(m, (x + 1, s), (x + 1, p), (x + 1, r));
            } else {
                lemma_walk_reverse(m, (x + 1, s), (x + 1, p));
                lemma_walk_join(m, (1, 1), (x + 1, p), (x + 1, s));
            }
        }
    }
}

/// Every room of column `x` is reached from the start.
proof fn lemma_rooms(m: Maze, c: Seq<bool>, x: int)
    requires
        generated_by(m, c),
        x % 2 == 1,
        1 <= x <= m.width - 2,
    ensures
        forall|s: int| s % 2 == 1 && 1 <= s <= m.height - 2 ==> #[trigger] m.connected((1, 1), (x, s)),
    decreases x,
{
    let b = m.height - 2;
    if x <= 3 {
        lemma_ladder(m, c, b);
        assert(m.connected((1, 1), (1, b)) || m.connected((1, 1), (3, b)));
        if m.connected((1, 1), (1, b)) {
            lemma_walk_join(m, (1, 1), (1, b), (3, b));
        } else {
            lemma_walk_reverse(m, (1, b), (3, b));
            lemma_walk_join(m, (1, 1), (3, b), (1, b));
        }
        assert forall|s: int| s % 2 == 1 && 1 <= s <= m.height - 2 implies #[trigger] m.connected(
            (1, 1),
            (x, s),
        ) by {
            assert(m.connected((x, s), (1, b)) || m.connected((x, s), (3, b)));
            if m.connected((x, s), (1, b)) {
                lemma_walk_reverse(m, (x, s), (1, b));
                lemma_walk_join(m, (1, 1), (1, b), (x, s));
            } else {
                lemma_walk_reverse(m, (x, s), (3, b));
                lemma_walk_join(m, (1, 1), (3, b), (x, s));
            }
        }
    } else {
        lemma_rooms(m, c, x - 2);
        lemma_column(m, c, x - 1, b);
        assert forall|s: int| s % 2 == 1 && 1 <= s <= m.height - 2 implies #[trigger] m.connected(
            (1, 1),
            (x, s),
        ) by {
            if !m.connected((1, 1), (x, s)) {
                assert(m.connected((x, s), (x, b)));
                lemma_walk_reverse(m, (x, s), (x, b));
                lemma_walk_join(m, (1, 1), (x, b), (x, s));
            }
        }
    }
}

/// Every floor of a generated maze, and the goal in particular, can be
/// reached from the start by a walk over floors.
pub proof fn lemma_generated_maze_connected(m: Maze, c: Seq<bool>, x: int, y: int)
    requires
        generated_by(m, c),
        m.is_open((x, y)),
    ensures
        m.connected((m.start_x as int, m.start_y as int), (x, y)),
        m.connected((m.start_x as int, m.start_y as int), (m.goal_x as int, m.goal_y as int)),
{
    let (w, h) = (m.width as int, m.height as int);
    assert(m.tile(x, y) == crate::map::maze_tile(w, h, c, x, y));
    let rx = if x % 2 == 1 { x } else { x - 1 };
    let ry = if x % 2 == 1 && y % 2 == 0 { y - 1 } else { y };
    lemma_rooms(m, c, rx);
    assert(m.connected((1, 1), (rx, ry)));
    if (rx, ry) != (x, y) {
        lemma_room_open(m, c, rx, ry);
        lemma_walk_extend(m, (1, 1), (rx, ry), (x, y));
    }
    lemma_rooms(m, c, w - 2);
    assert(m.connected((1, 1), (w - 2, h - 2)));
}

} // verus!
