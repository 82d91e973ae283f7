use maze3d::game::{score_for, Command, Game, MAZE_HEIGHT, MAZE_WIDTH};
use maze3d::map::Tile;
use maze3d::player::Direction;
use std::collections::VecDeque;

fn path_to_goal(g: &Game) -> Vec<(i32, i32)> {
    let m = g.map();
    let (w, h) = (m.width as i32, m.height as i32);
    let start = g.player_position();
    let start = (start.0 as i32, start.1 as i32);
    let goal = (m.goal_x as i32, m.goal_y as i32);
    let mut prev = vec![None; (w * h) as usize];
    let mut queue = VecDeque::new();
    prev[(start.0 + start.1 * w) as usize] = Some(start);
    queue.push_back(start);
    while let Some((x, y)) = queue.pop_front() {
        for (dx, dy) in [(1, 0), (-1, 0), (0, 1), (0, -1)] {
            let (nx, ny) = (x + dx, y + dy);
            if g.grid_tile_at(nx, ny) == Tile::Floor && prev[(nx + ny * w) as usize].is_none() {
                prev[(nx + ny * w) as usize] = Some((x, y));
                queue.push_back((nx, ny));
            }
        }
    }
    let mut path = vec![goal];
    let mut at = goal;
    while at != start {
        at = prev[(at.0 + at.1 * w) as usize].expect("goal reachable");
        path.push(at);
    }
    path.reverse();
    path
}

fn direction_of(from: (i32, i32), to: (i32, i32)) -> Direction {
    match (to.0 - from.0, to.1 - from.1) {
        (1, 0) => Direction::East,
        (-1, 0) => Direction::West,
        (0, 1) => Direction::South,
        _ => Direction::North,
    }
}

fn face(g: &mut Game, d: Direction) {
    for _ in 0..4 {
        if g.player_direction() == d {
            return;
        }
        g.turn_right();
    }
}

/// Walks the shortest path to the goal; returns the number of key presses.
fn walk_to_goal(g: &mut Game) -> u32 {
    let path = path_to_goal(g);
    for pair in path.windows(2) {
        face(g, direction_of(pair[0], pair[1]));
        g.move_forward();
        let p = g.player_position();
        assert_eq!((p.0 as i32, p.1 as i32), pair[1]);
    }
    g.key_press_count()
}

#[test]
fn new_session_state() {
    let g = Game::new();
    assert_eq!(g.player_position(), (1, 1));
    assert_eq!(g.player_direction(), Direction::South);
    assert!(!g.is_goal());
    assert!(!g.minimap_visible());
    assert_eq!(g.key_press_count(), 0);
    assert_eq!(g.mini_map_view_count(), 0);
    assert_eq!(g.score(), 0);
    assert_eq!((g.map().width, g.map().height), (MAZE_WIDTH, MAZE_HEIGHT));
    assert_eq!((g.map().goal_x, g.map().goal_y), (19, 19));
    let fresh = g.new_game();
    assert_eq!(fresh.player_position(), (1, 1));
    assert_eq!(fresh.key_press_count(), 0);
}

#[test]
fn same_seed_same_session_maze() {
    let a = Game::from_seed([42; 32], 21, 21);
    let b = Game::from_seed([42; 32], 21, 21);
    assert!(a.map().data == b.map().data);
}

#[test]
fn different_seeds_give_different_session_mazes() {
    let first = Game::from_seed([0; 32], 21, 21);
    let differing = (1..8u8)
        .filter(|&s| Game::from_seed([s; 32], 21, 21).map().data != first.map().data)
        .count();
    assert!(differing > 0);
}

#[test]
fn off_grid_queries_are_walls() {
    let g = Game::from_seed([1; 32], 21, 21);
    for (f, l) in [(u32::MAX, i32::MIN), (u32::MAX, i32::MAX), (0, i32::MIN), (0, i32::MAX), (1 << 31, 0), (100, 0), (0, -100)] {
        assert_eq!(g.current_tile_at(f, l), Tile::Wall, "offset ({}, {})", f, l);
    }
    for (x, y) in [(-1, 0), (0, -1), (21, 5), (5, 21), (i32::MIN, i32::MIN), (i32::MAX, i32::MAX)] {
        assert_eq!(g.grid_tile_at(x, y), Tile::Wall);
    }
    for y in 0..21 {
        for x in 0..21 {
            assert_eq!(Some(g.grid_tile_at(x, y)), g.map().get(x, y));
        }
    }
}

#[test]
fn turning_cycles() {
    let mut g = Game::from_seed([2; 32], 21, 21);
    let start = g.player_direction();
    for _ in 0..4 {
        g.turn_right();
    }
    assert_eq!(g.player_direction(), start);
    g.turn_back();
    assert_eq!(g.player_direction(), Direction::North);
    g.turn_back();
    assert_eq!(g.player_direction(), start);
    g.turn_left();
    assert_eq!(g.player_direction(), Direction::East);
    g.turn_right();
    assert_eq!(g.player_direction(), start);
    g.turn_right();
    assert_eq!(g.player_direction(), Direction::West);
    assert_eq!(g.key_press_count(), 9);
    assert_eq!(g.player_position(), (1, 1));
}

#[test]
fn moves_only_onto_floor() {
    for seed in 0..20u8 {
        let mut g = Game::from_seed([seed; 32], 21, 21);
        for d in [Direction::South, Direction::West, Direction::North, Direction::East] {
            let mut h = Game::from_seed([seed; 32], 21, 21);
            face(&mut h, d);
            let before = (h.player_position(), h.player_direction(), h.key_press_count());
            let (x, y) = (before.0 .0 as i32, before.0 .1 as i32);
            let ahead = match d {
                Direction::South => (x, y + 1),
                Direction::West => (x - 1, y),
                Direction::North => (x, y - 1),
                Direction::East => (x + 1, y),
            };
            h.move_forward();
            if h.grid_tile_at(ahead.0, ahead.1) == Tile::Floor {
                assert_eq!(h.player_position(), (ahead.0 as u32, ahead.1 as u32));
                assert_eq!(h.key_press_count(), before.2 + 1);
            } else {
                assert_eq!(h.player_position(), before.0);
                assert_eq!(h.key_press_count(), before.2);
            }
            assert_eq!(h.player_direction(), before.1);
        }
        g.turn_back();
        g.move_forward();
        assert_eq!(g.player_position(), (1, 1));
        assert_eq!(g.key_press_count(), 1);
    }
}

#[test]
fn goal_freezes_the_session() {
    for seed in 0..10u8 {
        let mut g = Game::from_seed([seed; 32], 21, 21);
        let presses = walk_to_goal(&mut g);
        assert!(g.is_goal());
        assert_eq!(g.player_position(), (19, 19));
        let base = 5000 / presses + 50;
        assert!(g.score() >= base && g.score() < base + 30, "score {} base {}", g.score(), base);
        let frozen = (g.player_position(), g.player_direction(), g.key_press_count(), g.mini_map_view_count(), g.score(), g.minimap_visible());
        g.turn_left();
        g.turn_right();
        g.turn_back();
        g.move_forward();
        g.toggle_mini_map();
        for c in [Command::TurnLeft, Command::MoveForward, Command::ToggleMiniMap, Command::TurnBack, Command::MoveForward] {
            g.apply(c);
        }
        assert_eq!(frozen, (g.player_position(), g.player_direction(), g.key_press_count(), g.mini_map_view_count(), g.score(), g.minimap_visible()));
        assert!(g.is_goal());
        let fresh = g.new_game();
        assert!(!fresh.is_goal());
        assert_eq!(fresh.player_position(), (1, 1));
    }
}

#[test]
fn mini_map_views_change_the_bonus() {
    let mut g = Game::from_seed([3; 32], 21, 21);
    g.toggle_mini_map();
    assert!(g.minimap_visible());
    g.toggle_mini_map();
    assert!(!g.minimap_visible());
    g.toggle_mini_map();
    assert_eq!(g.mini_map_view_count(), 3);
    assert_eq!(g.key_press_count(), 0);
    let presses = walk_to_goal(&mut g);
    let base = 5000 / presses + 10 / 3;
    assert!(g.score() >= base && g.score() < base + 30, "score {} base {}", g.score(), base);
}

#[test]
fn minimal_maze_first_step() {
    let seed = (0..=255u8)
        .find(|&s| Game::from_seed([s; 32], 5, 5).grid_tile_at(1, 2) == Tile::Floor)
        .expect("a seed that leaves the cell south of the start open");
    let mut g = Game::from_seed([seed; 32], 5, 5);
    assert_eq!(g.player_position(), (1, 1));
    assert_eq!(g.player_direction(), Direction::South);
    // Facing south, lateral 1 is the cell at x - 1.
    assert_eq!(g.current_tile_at(0, 1), g.grid_tile_at(0, 1));
    assert_eq!(g.current_tile_at(0, -1), g.grid_tile_at(2, 1));
    assert_eq!(g.current_tile_at(1, 0), Tile::Floor);
    g.move_forward();
    assert_eq!(g.player_position(), (1, 2));
    assert_eq!(g.key_press_count(), 1);
}

#[test]
fn score_after_ten_presses_without_mini_map() {
    for bonus in 0..30 {
        assert_eq!(score_for(10, 0, bonus), 550 + bonus);
    }
}

#[test]
fn score_formula_values() {
    assert_eq!(score_for(1, 0, 0), 5050);
    assert_eq!(score_for(3, 4, 7), 1666 + 2 + 7);
    assert_eq!(score_for(5000, 11, 0), 1);
    assert_eq!(score_for(6000, 1, 29), 39);
    assert_eq!(score_for(u32::MAX, u32::MAX, 0), 0);
}

#[test]
fn commands_match_methods() {
    let mut a = Game::from_seed([9; 32], 21, 21);
    let mut b = Game::from_seed([9; 32], 21, 21);
    let cs = [Command::TurnLeft, Command::MoveForward, Command::TurnRight, Command::MoveForward, Command::ToggleMiniMap, Command::TurnBack, Command::MoveForward];
    for c in cs {
        a.apply(c);
        match c {
            Command::TurnLeft => b.turn_left(),
            Command::TurnRight => b.turn_right(),
            Command::TurnBack => b.turn_back(),
            Command::MoveForward => b.move_forward(),
            Command::ToggleMiniMap => b.toggle_mini_map(),
        }
        assert_eq!(a.player_position(), b.player_position());
        assert_eq!(a.player_direction(), b.player_direction());
        assert_eq!(a.key_press_count(), b.key_press_count());
        assert_eq!(a.mini_map_view_count(), b.mini_map_view_count());
    }
}
