use crate::map::{Maze, Tile};
use vstd::prelude::*;

verus! {

/// The way the player faces.
#[derive(Clone, Copy, PartialEq, Eq, Structural, Debug)]
pub enum Direction {
    West,
    North,
    East,
    South,
}

impl Direction {
    /// A quarter turn counter-clockwise.
    pub open spec fn left(self) -> Direction {
        match self {
            Direction::West => Direction::South,
            Direction::North => Direction::West,
            Direction::East => Direction::North,
            Direction::South => Direction::East,
        }
    }

    /// A quarter turn clockwise.
    pub open spec fn right(self) -> Direction {
        match self {
            Direction::West => Direction::North,
            Direction::North => Direction::East,
            Direction::East => Direction::South,
            Direction::South => Direction::West,
        }
    }

    /// A half turn.
    pub open spec fn back(self) -> Direction {
        match self {
            Direction::West => Direction::East,
            Direction::North => Direction::South,
            Direction::East => Direction::West,
            Direction::South => Direction::North,
        }
    }
}

/// Turning right four times, back twice, or left then right, faces the
/// player the way it started.
pub proof fn lemma_turn_cycle(d: Direction)
    ensures
        d.right().right().right().right() == d,
        d.back().back() == d,
        d.left().right() == d,
        d.right().left() == d,
        d.right().right() == d.back(),
{
}

/// The grid offset of the cell `forward` steps ahead and `lateral` steps to
/// the right (to the left when negative) of a player facing `d`; north is
/// towards smaller `y`.
pub open spec fn rotate(d: Direction, forward: int, lateral: int) -> (int, int) {
    match d {
        Direction::West => (-forward, -lateral),
        Direction::North => (lateral, -forward),
        Direction::East => (forward, lateral),
        Direction::South => (-lateral, forward),
    }
}

/// `rotate` on machine integers; every result fits an `i64`.
pub(crate) fn offset(d: Direction, forward: u32, lateral: i32) -> (r: (i64, i64))
    ensures
        (r.0 as int, r.1 as int) == rotate(d, forward as int, lateral as int),
{
    let f = forward as i64;
    let l = lateral as i64;
    match d {
        Direction::West => (-f, -l),
        Direction::North => (l, -f),
        Direction::East => (f, l),
        Direction::South => (-l, f),
    }
}

/// A position on the grid and the way the player faces there.
pub struct Player {
    pub x: u32,
    pub y: u32,
    pub direction: Direction,
}

/// The tile at `(x, y)` of `maze`, where cells off the grid are walls.
pub(crate) fn tile_at(maze: &Maze, x: i64, y: i64) -> (r: Tile)
    requires
        maze.wf(),
    ensures
        r == maze.tile_or_wall(x as int, y as int),
{
    if x < 0 || x >= maze.width as i64 || y < 0 || y >= maze.height as i64 {
        return Tile::Wall;
    }
    match maze.get(x as i32, y as i32) {
        Some(t) => t,
        None => Tile::Wall,
    }
}

/// The view from a player standing in a maze.
pub struct Sight<'a, 'b> {
    pub map: &'a Maze,
    pub player: &'b Player,
}

impl Player {
    /// The view from this player in `map`.
    pub fn sight<'a, 'b>(&'b self, map: &'a Maze) -> (r: Sight<'a, 'b>)
        ensures
            r.map == map,
            r.player == self,
    {
        Sight { map, player: self }
    }
}

impl<'a, 'b> Sight<'a, 'b> {
    /// The tile `forward` cells ahead of the player and `horizontal` cells to
    /// its right (to its left when negative). Cells off the grid, however
    /// far, are walls.
    pub fn get(&self, forward: u32, horizontal: i32) -> (r: Tile)
        requires
            self.map.wf(),
        ensures
            r == self.map.tile_or_wall(
                self.player.x + rotate(self.player.direction, forward as int, horizontal as int).0,
                self.player.y + rotate(self.player.direction, forward as int, horizontal as int).1,
            ),
    {
        let (dx, dy) = offset(self.player.direction, forward, horizontal);
        tile_at(self.map, self.player.x as i64 + dx, self.player.y as i64 + dy)
    }
}

} // verus!
