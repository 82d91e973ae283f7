use maze3d::map::{Maze, Tile};
use maze3d::player::{Direction, Player};
use rand::SeedableRng;
use rand_chacha::ChaCha8Rng;
use std::collections::VecDeque;

fn layout(m: &Maze) -> Vec<String> {
    (0..m.height as i32)
        .map(|y| {
            (0..m.width as i32)
                .map(|x| match m.get(x, y) {
                    Some(Tile::Floor) => '.',
                    Some(Tile::Wall) => '#',
                    None => '?',
                })
                .collect()
        })
        .collect()
}

fn reachable_from_start(m: &Maze) -> Vec<bool> {
    let (w, h) = (m.width as i32, m.height as i32);
    let mut seen = vec![false; (w * h) as usize];
    let mut queue = VecDeque::new();
    seen[(m.start_x + m.start_y * m.width) as usize] = true;
    queue.push_back((m.start_x as i32, m.start_y as i32));
    while let Some((x, y)) = queue.pop_front() {
        for (dx, dy) in [(1, 0), (-1, 0), (0, 1), (0, -1)] {
            let (nx, ny) = (x + dx, y + dy);
            if m.get(nx, ny) == Some(Tile::Floor) && !seen[(nx + ny * w) as usize] {
                seen[(nx + ny * w) as usize] = true;
                queue.push_back((nx, ny));
            }
        }
    }
    seen
}

#[test]
fn five_by_five_from_each_pair_of_choices() {
    let cases = [
        ([true, false], ["#####", "#...#", "###.#", "#...#", "#####"]),
        ([true, true], ["#####", "#...#", "#.###", "#...#", "#####"]),
        ([false, false], ["#####", "#.#.#", "#.#.#", "#...#", "#####"]),
        ([false, true], ["#####", "#...#", "#.#.#", "#.#.#", "#####"]),
    ];
    for (choices, expected) in cases {
        let m = Maze::from_choices(5, 5, &choices.to_vec());
        assert_eq!(layout(&m), expected.to_vec(), "choices {:?}", choices);
        assert_eq!((m.start_x, m.start_y), (1, 1));
        assert_eq!((m.goal_x, m.goal_y), (3, 3));
    }
}

#[test]
fn later_columns_never_wall_up_the_west_side() {
    // 7 x 5: pillars at (2, 2) and (4, 2); the second one, horizontal,
    // walls up its east neighbour whatever its second choice says.
    let m = Maze::from_choices(7, 5, &vec![false, true, true, false]);
    assert_eq!(
        layout(&m),
        vec!["#######", "#.....#", "#.#.###", "#.#...#", "#######"]
    );
}

#[test]
fn lattice_without_choices_read_twice() {
    let m = Maze::from_choices(9, 7, &vec![false; 2 * 3 * 2]);
    // Every pillar walls up the cell above it.
    for y in 0..7 {
        for x in 0..9 {
            let border = x == 0 || y == 0 || x == 8 || y == 6;
            let pillar = x % 2 == 0 && y % 2 == 0;
            let above_pillar = x % 2 == 0 && (y == 1 || y == 3) && x >= 2 && x <= 6;
            let expected = if border || pillar || above_pillar { Tile::Wall } else { Tile::Floor };
            assert_eq!(m.get(x, y), Some(expected), "cell ({}, {})", x, y);
        }
    }
}

#[test]
fn every_floor_reached_from_start() {
    for (w, h) in [(5u32, 5u32), (7, 5), (5, 9), (11, 7), (21, 21), (23, 23), (31, 15)] {
        for seed in 0..40u64 {
            let mut rng = ChaCha8Rng::seed_from_u64(seed);
            let m = Maze::new(&mut rng, w, h);
            let seen = reachable_from_start(&m);
            assert!(seen[(m.goal_x + m.goal_y * w) as usize], "goal of {}x{} seed {}", w, h, seed);
            for y in 0..h as i32 {
                for x in 0..w as i32 {
                    if m.get(x, y) == Some(Tile::Floor) {
                        assert!(seen[(x + y * w as i32) as usize], "{}x{} seed {} cell ({}, {})", w, h, seed, x, y);
                    }
                }
            }
        }
    }
}

#[test]
fn same_seed_same_maze() {
    for seed in 0..10u64 {
        let a = Maze::new(&mut ChaCha8Rng::seed_from_u64(seed), 21, 21);
        let b = Maze::new(&mut ChaCha8Rng::seed_from_u64(seed), 21, 21);
        assert!(a.data == b.data);
        assert_eq!(layout(&a), layout(&b));
    }
    let choices: Vec<bool> = (0..2 * 9 * 9).map(|i| i % 3 == 0).collect();
    let a = Maze::from_choices(21, 21, &choices);
    let b = Maze::from_choices(21, 21, &choices);
    assert!(a.data == b.data);
}

#[test]
fn different_seeds_give_different_mazes() {
    let mazes: Vec<Vec<Tile>> = (0..8u64)
        .map(|seed| Maze::new(&mut ChaCha8Rng::seed_from_u64(seed), 21, 21).data)
        .collect();
    let distinct = (1..mazes.len()).filter(|&i| mazes[i] != mazes[0]).count();
    assert!(distinct > 0);
}

#[test]
fn get_off_the_grid_is_none() {
    let m = Maze::from_choices(5, 5, &vec![true, false]);
    assert_eq!(m.get(-1, 0), None);
    assert_eq!(m.get(0, -1), None);
    assert_eq!(m.get(5, 1), None);
    assert_eq!(m.get(1, 5), None);
    assert_eq!(m.get(i32::MIN, i32::MAX), None);
    assert_eq!(m.get(0, 0), Some(Tile::Wall));
    assert_eq!(m.get(1, 1), Some(Tile::Floor));
}

#[test]
fn sight_rotates_with_the_player() {
    // Floor at (1..=3, 1) and (1..=3, 3) and (3, 2); wall at (1, 2).
    let m = Maze::from_choices(5, 5, &vec![true, false]);
    let south = Player { x: 1, y: 1, direction: Direction::South };
    let sight = south.sight(&m);
    assert_eq!(sight.get(0, 0), Tile::Floor);
    assert_eq!(sight.get(1, 0), Tile::Wall); // (1, 2)
    assert_eq!(sight.get(0, -1), Tile::Floor); // left of south is east: (2, 1)
    assert_eq!(sight.get(0, 1), Tile::Wall); // (0, 1)
    let east = Player { x: 1, y: 1, direction: Direction::East };
    let sight = east.sight(&m);
    assert_eq!(sight.get(1, 0), Tile::Floor); // (2, 1)
    assert_eq!(sight.get(2, 1), Tile::Floor); // (3, 2)
    assert_eq!(sight.get(1, -1), Tile::Wall); // (2, 0)
    let north = Player { x: 3, y: 3, direction: Direction::North };
    let sight = north.sight(&m);
    assert_eq!(sight.get(1, 0), Tile::Floor); // (3, 2)
    assert_eq!(sight.get(1, -2), Tile::Wall); // (1, 2)
    let west = Player { x: 3, y: 3, direction: Direction::West };
    let sight = west.sight(&m);
    assert_eq!(sight.get(2, 0), Tile::Floor); // (1, 3)
    assert_eq!(sight.get(2, -1), Tile::Wall); // left of west is south: (1, 4)
    assert_eq!(sight.get(0, 1), Tile::Floor); // right of west is north: (3, 2)

}
