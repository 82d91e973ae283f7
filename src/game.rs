use crate::map::{choice_count, valid_size, Maze, Tile};
use crate::player::{offset, rotate, tile_at, Direction, Player};
use crate::random::{entropy_seed, random_below, seeded_rng};
use rand_chacha::ChaCha8Rng;
use vstd::prelude::*;

verus! {

/// The size of the maze of a new session.
pub const MAZE_WIDTH: u32 = 21;

pub const MAZE_HEIGHT: u32 = 21;

/// The random part of the score is drawn below this bound.
pub const RANDOM_BONUS_BOUND: u32 = 30;

/// What a session holds besides its maze.
pub struct GameState {
    pub x: u32,
    pub y: u32,
    pub direction: Direction,
    pub shows_mini_map: bool,
    pub is_goal: bool,
    pub score: u32,
    pub mini_map_view_count: u32,
    pub key_press_count: u32,
}

/// One more, stopping at the largest `u32`.
pub open spec fn bump(n: u32) -> u32 {
    if n < u32::MAX {
        (n + 1) as u32
    } else {
        n
    }
}

/// The score for reaching the goal: 5000 shared out over the key presses,
/// 50 for never opening the mini map (else 10 shared out over its views),
/// and the random bonus.
pub open spec fn score_of(key_press_count: u32, mini_map_view_count: u32, random_bonus: u32) -> int {
    5000int / (key_press_count as int) + (if mini_map_view_count == 0 {
        50int
    } else {
        10int / (mini_map_view_count as int)
    }) + random_bonus
}

/// The state after turning to face `d`; nothing changes at the goal.
pub open spec fn turned(s: GameState, d: Direction) -> GameState {
    if s.is_goal {
        s
    } else {
        GameState { direction: d, key_press_count: bump(s.key_press_count), ..s }
    }
}

/// The cell one step ahead of the player.
pub open spec fn destination(s: GameState) -> (int, int) {
    (s.x + rotate(s.direction, 1, 0).0, s.y + rotate(s.direction, 1, 0).1)
}

/// A step ahead is taken: the session is not over and the cell ahead is on
/// the grid and a floor.
pub open spec fn can_move(s: GameState, m: Maze) -> bool {
    !s.is_goal && m.tile_or_wall(destination(s).0, destination(s).1) == Tile::Floor
}

/// The state after a step ahead, with `random_bonus` as the random part of
/// the score should the step reach the goal.
pub open spec fn moved(s: GameState, m: Maze, random_bonus: u32) -> GameState {
    if !can_move(s, m) {
        s
    } else {
        let (nx, ny) = destination(s);
        let k = bump(s.key_press_count);
        let at_goal = nx == m.goal_x && ny == m.goal_y;
        GameState {
            x: nx as u32,
            y: ny as u32,
            key_press_count: k,
            is_goal: at_goal,
            score: if at_goal {
                score_of(k, s.mini_map_view_count, random_bonus) as u32
            } else {
                s.score
            },
            ..s
        }
    }
}

/// The state after showing or hiding the mini map; nothing changes at the goal.
pub open spec fn toggled(s: GameState) -> GameState {
    if s.is_goal {
        s
    } else {
        GameState {
            shows_mini_map: !s.shows_mini_map,
            mini_map_view_count: bump(s.mini_map_view_count),
            ..s
        }
    }
}

/// A player input.
#[derive(Clone, Copy, PartialEq, Eq, Structural, Debug)]
pub enum Command {
    TurnLeft,
    TurnRight,
    TurnBack,
    MoveForward,
    ToggleMiniMap,
}

/// The state after the command `c`.
pub open spec fn step(s: GameState, m: Maze, c: Command, random_bonus: u32) -> GameState {
    match c {
        Command::TurnLeft => turned(s, s.direction.left()),
        Command::TurnRight => turned(s, s.direction.right()),
        Command::TurnBack => turned(s, s.direction.back()),
        Command::MoveForward => moved(s, m, random_bonus),
        Command::ToggleMiniMap => toggled(s),
    }
}

/// The state after the commands `cs` in order, the `i`-th move drawing
/// `bonuses[i]` should it reach the goal.
pub open spec fn run(s: GameState, m: Maze, cs: Seq<Command>, bonuses: Seq<u32>) -> GameState
    decreases cs.len(),
{
    if cs.len() == 0 {
        s
    } else {
        run(step(s, m, cs[0], bonuses[0]), m, cs.drop_first(), bonuses.drop_first())
    }
}

/// The state of a new session: at the start, facing south, nothing counted.
pub open spec fn initial_state() -> GameState {
    GameState {
        x: 1,
        y: 1,
        direction: Direction::South,
        shows_mini_map: false,
        is_goal: false,
        score: 0,
        mini_map_view_count: 0,
        key_press_count: 0,
    }
}

/// Once the goal is reached, no sequence of commands changes the state.
pub proof fn lemma_goal_freeze(s: GameState, m: Maze, cs: Seq<Command>, bonuses: Seq<u32>)
    requires
        s.is_goal,
    ensures
        run(s, m, cs, bonuses) == s,
    decreases cs.len(),
{
    if cs.len() > 0 {
        lemma_goal_freeze(step(s, m, cs[0], bonuses[0]), m, cs.drop_first(), bonuses.drop_first());
    }
}

/// Before the goal, a step ahead moves the player exactly when the cell
/// ahead is on the grid and a floor, and then onto that cell; otherwise
/// nothing changes, the count of key presses included. The player keeps
/// facing the same way.
pub proof fn lemma_move_legality(s: GameState, m: Maze, random_bonus: u32)
    requires
        !s.is_goal,
        m.wf(),
    ensures
        ((moved(s, m, random_bonus).x, moved(s, m, random_bonus).y) != (s.x, s.y)) <==> (
        m.in_bounds(destination(s).0, destination(s).1) && m.tile(
            destination(s).0,
            destination(s).1,
        ) == Tile::Floor),
        can_move(s, m) ==> (moved(s, m, random_bonus).x as int, moved(s, m, random_bonus).y as int)
            == destination(s),
        !can_move(s, m) ==> moved(s, m, random_bonus) == s,
        moved(s, m, random_bonus).direction == s.direction,
{
}

/// A session: a maze, the player in it, and the counts that make the score.
pub struct Game {
    rng: ChaCha8Rng,
    map: Maze,
    player: Player,
    shows_mini_map: bool,
    is_goal: bool,
    score: u32,
    mini_map_view_count: u32,
    key_press_count: u32,
}

impl View for Game {
    type V = GameState;

    closed spec fn view(&self) -> GameState {
        GameState {
            x: self.player.x,
            y: self.player.y,
            direction: self.player.direction,
            shows_mini_map: self.shows_mini_map,
            is_goal: self.is_goal,
            score: self.score,
            mini_map_view_count: self.mini_map_view_count,
            key_press_count: self.key_press_count,
        }
    }
}

/// The score for reaching the goal after `key_press_count` presses and
/// `mini_map_view_count` mini map toggles, with `random_bonus` drawn below 30.
/// `n` plus one, stopping at the largest `u32`.
fn count_press(n: u32) -> (r: u32)
    ensures
        r == bump(n),
{
    if n < u32::MAX {
        n + 1
    } else {
        n
    }
}

pub fn score_for(key_press_count: u32, mini_map_view_count: u32, random_bonus: u32) -> (r: u32)
    requires
        key_press_count > 0,
        random_bonus < RANDOM_BONUS_BOUND,
    ensures
        r == score_of(key_press_count, mini_map_view_count, random_bonus),
{
    let bonus = if mini_map_view_count == 0 {
        50
    } else {
        10 / mini_map_view_count
    };
    5000 / key_press_count + bonus + random_bonus
}

impl Game {
    /// The maze of this session.
    pub closed spec fn maze(&self) -> Maze {
        self.map
    }

    /// The player stands on a floor of a generated maze, and the session is
    /// over exactly when the player stands on the goal.
    pub closed spec fn wf(&self) -> bool {
        &&& self.map.wf()
        &&& valid_size(self.map.width as int, self.map.height as int)
        &&& self.map.goal_x == self.map.width - 2 && self.map.goal_y == self.map.height - 2
        &&& self.map.in_bounds(self.player.x as int, self.player.y as int)
        &&& self.map.tile(self.player.x as int, self.player.y as int) == Tile::Floor
        &&& self.is_goal == (self.player.x == self.map.goal_x && self.player.y == self.map.goal_y)
    }

    /// A session on the maze generated at the given size from a generator
    /// seeded with `seed`. The player starts at the maze's start, facing south.
    pub fn from_seed(seed: [u8; 32], width: u32, height: u32) -> (r: Game)
        requires
            valid_size(width as int, height as int),
        ensures
            r.wf(),
            exists|c: Seq<bool>|
                c.len() == choice_count(width as int, height as int) && #[trigger] r.maze().is_maze(
                    width as int,
                    height as int,
                    c,
                ),
            r@ == initial_state(),
    {
        let mut rng = seeded_rng(seed);
        let map = Maze::new(&mut rng, width, height);
        let player = Player { x: map.start_x, y: map.start_y, direction: Direction::South };
        let r = Game {
            rng,
            map,
            player,
            shows_mini_map: false,
            is_goal: false,
            score: 0,
            mini_map_view_count: 0,
            key_press_count: 0,
        };
        proof {
            let c = choose|c: Seq<bool>|
                c.len() == choice_count(width as int, height as int) && #[trigger] r.map.is_maze(
                    width as int,
                    height as int,
                    c,
                );
            assert(r.maze().is_maze(width as int, height as int, c));
            assert(r.map.tile(1, 1) == Tile::Floor);
        }
        r
    }

    /// A session on a maze of the default size, seeded from the operating
    /// system.
    pub fn new() -> (r: Game)
        ensures
            r.wf(),
            exists|c: Seq<bool>|
                c.len() == choice_count(MAZE_WIDTH as int, MAZE_HEIGHT as int)
                    && #[trigger] r.maze().is_maze(MAZE_WIDTH as int, MAZE_HEIGHT as int, c),
            r@ == initial_state(),
    {
        Game::from_seed(entropy_seed(), MAZE_WIDTH, MAZE_HEIGHT)
    }

    /// A fresh session, with a new maze and a new seed.
    pub fn new_game(&self) -> (r: Game)
        ensures
            r.wf(),
            exists|c: Seq<bool>|
                c.len() == choice_count(MAZE_WIDTH as int, MAZE_HEIGHT as int)
                    && #[trigger] r.maze().is_maze(MAZE_WIDTH as int, MAZE_HEIGHT as int, c),
            r@ == initial_state(),
    {
        Game::new()
    }

    /// Turns a quarter counter-clockwise; counts one key press.
    pub fn turn_left(&mut self)
        requires
            old(self).wf(),
        ensures
            final(self).wf(),
            final(self).maze() == old(self).maze(),
            final(self)@ == turned(old(self)@, old(self)@.direction.left()),
    {
        if self.is_goal {
            return;
        }
        self.player.direction = match self.player.direction {
            Direction::West => Direction::South,
            Direction::North => Direction::West,
            Direction::East => Direction::North,
            Direction::South => Direction::East,
        };
        self.key_press_count = count_press(self.key_press_count);
    }

    /// Turns a quarter clockwise; counts one key press.
    pub fn turn_right(&mut self)
        requires
            old(self).wf(),
        ensures
            final(self).wf(),
            final(self).maze() == old(self).maze(),
            final(self)@ == turned(old(self)@, old(self)@.direction.right()),
    {
        if self.is_goal {
            return;
        }
        self.player.direction = match self.player.direction {
            Direction::West => Direction::North,
            Direction::North => Direction::East,
            Direction::East => Direction::South,
            Direction::South => Direction::West,
        };
        self.key_press_count = count_press(self.key_press_count);
    }

    /// Turns around; counts one key press.
    pub fn turn_back(&mut self)
        requires
            old(self).wf(),
        ensures
            final(self).wf(),
            final(self).maze() == old(self).maze(),
            final(self)@ == turned(old(self)@, old(self)@.direction.back()),
    {
        if self.is_goal {
            return;
        }
        self.player.direction = match self.player.direction {
            Direction::West => Direction::East,
            Direction::North => Direction::South,
            Direction::East => Direction::West,
            Direction::South => Direction::North,
        };
        self.key_press_count = count_press(self.key_press_count);
    }

    /// Steps one cell ahead if that cell is a floor, counting one key press.
    /// Reaching the goal ends the session and sets the score, drawing its
    /// random part from the session's generator.
    pub fn move_forward(&mut self)
        requires
            old(self).wf(),
        ensures
            final(self).wf(),
            final(self).maze() == old(self).maze(),
            exists|b: u32|
                b < RANDOM_BONUS_BOUND && final(self)@ == #[trigger] moved(
                    old(self)@,
                    old(self).maze(),
                    b,
                ),
    {
        if self.is_goal {
            assert(self@ == moved(old(self)@, old(self).maze(), 0));
            return;
        }
        let (dx, dy) = offset(self.player.direction, 1, 0);
        let nx = self.player.x as i64 + dx;
        let ny = self.player.y as i64 + dy;
        if tile_at(&self.map, nx, ny) == Tile::Wall {
            assert(self@ == moved(old(self)@, old(self).maze(), 0));
            return;
        }
        self.player.x = nx as u32;
        self.player.y = ny as u32;
        self.key_press_count = count_press(self.key_press_count);
        if self.player.x == self.map.goal_x && self.player.y == self.map.goal_y {
            self.is_goal = true;
            let bonus = random_below(&mut self.rng, RANDOM_BONUS_BOUND);
            self.score = score_for(self.key_press_count, self.mini_map_view_count, bonus);
            assert(self@ == moved(old(self)@, old(self).maze(), bonus));
        } else {
            assert(self@ == moved(old(self)@, old(self).maze(), 0));
        }
    }

    /// Shows or hides the mini map; counts one view.
    pub fn toggle_mini_map(&mut self)
        requires
            old(self).wf(),
        ensures
            final(self).wf(),
            final(self).maze() == old(self).maze(),
            final(self)@ == toggled(old(self)@),
    {
        if self.is_goal {
            return;
        }
        self.shows_mini_map = !self.shows_mini_map;
        self.mini_map_view_count = count_press(self.mini_map_view_count);
    }

    /// Carries out one player input.
    pub fn apply(&mut self, c: Command)
        requires
            old(self).wf(),
        ensures
            final(self).wf(),
            final(self).maze() == old(self).maze(),
            exists|b: u32|
                b < RANDOM_BONUS_BOUND && final(self)@ == #[trigger] step(
                    old(self)@,
                    old(self).maze(),
                    c,
                    b,
                ),
    {
        match c {
            Command::TurnLeft => self.turn_left(),
            Command::TurnRight => self.turn_right(),
            Command::TurnBack => self.turn_back(),
            Command::MoveForward => self.move_forward(),
            Command::ToggleMiniMap => self.toggle_mini_map(),
        }
        proof {
            if c != Command::MoveForward {
                assert(self@ == step(old(self)@, old(self).maze(), c, 0));
            } else {
                let b = choose|b: u32|
                    b < RANDOM_BONUS_BOUND && self@ == #[trigger] moved(
                        old(self)@,
                        old(self).maze(),
                        b,
                    );
                assert(self@ == step(old(self)@, old(self).maze(), c, b));
            }
        }
    }

    /// The tile `forward` cells ahead of the player and `lateral` cells to
    /// its right (left when negative); cells off the grid are walls.
    pub fn current_tile_at(&self, forward: u32, lateral: i32) -> (r: Tile)
        requires
            self.wf(),
        ensures
            r == self.maze().tile_or_wall(
                self@.x + rotate(self@.direction, forward as int, lateral as int).0,
                self@.y + rotate(self@.direction, forward as int, lateral as int).1,
            ),
    {
        self.player.sight(&self.map).get(forward, lateral)
    }

    /// The tile at `(x, y)` of the maze; cells off the grid are walls.
    pub fn grid_tile_at(&self, x: i32, y: i32) -> (r: Tile)
        requires
            self.wf(),
        ensures
            r == self.maze().tile_or_wall(x as int, y as int),
    {
        tile_at(&self.map, x as i64, y as i64)
    }

    /// The maze of this session.
    pub fn map(&self) -> (r: &Maze)
        ensures
            *r == self.maze(),
    {
        &self.map
    }

    pub fn player_position(&self) -> (r: (u32, u32))
        ensures
            r == (self@.x, self@.y),
    {
        (self.player.x, self.player.y)
    }

    pub fn player_direction(&self) -> (r: Direction)
        ensures
            r == self@.direction,
    {
        self.player.direction
    }

    pub fn is_goal(&self) -> (r: bool)
        ensures
            r == self@.is_goal,
    {
        self.is_goal
    }

    /// The score; meaningful once the goal is reached.
    pub fn score(&self) -> (r: u32)
        ensures
            r == self@.score,
    {
        self.score
    }

    pub fn minimap_visible(&self) -> (r: bool)
        ensures
            r == self@.shows_mini_map,
    {
        self.shows_mini_map
    }

    pub fn key_press_count(&self) -> (r: u32)
        ensures
            r == self@.key_press_count,
    {
        self.key_press_count
    }

    pub fn mini_map_view_count(&self) -> (r: u32)
        ensures
            r == self@.mini_map_view_count,
    {
        self.mini_map_view_count
    }
}

} // verus!
