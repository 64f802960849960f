use advent2022::search::astar;
use advent2022::search::ClimbRule;
use advent2022::search::DescentRule;
use advent2022::search::OpenRule;
use advent2022::tiles::Point;
use advent2022::tiles::Tiles;

/// Brute-force breadth-first reference distance with unit steps, for
/// checking the best-first search.
fn bfs_reference(
    grid: &Tiles<u8>,
    start: Point,
    end: Point,
    can_visit: fn(u8, u8) -> bool,
) -> Option<u32> {
    let w = grid.width() as i16;
    let h = grid.height() as i16;
    let mut dist: Vec<Vec<Option<u32>>> = vec![vec![None; w as usize]; h as usize];
    let mut queue = std::collections::VecDeque::new();
    dist[start.y as usize][start.x as usize] = Some(0);
    queue.push_back(start);
    while let Some(p) = queue.pop_front() {
        let d = dist[p.y as usize][p.x as usize].unwrap();
        if p == end {
            return Some(d);
        }
        for (dx, dy) in [(0i16, 1i16), (1, 0), (0, -1), (-1, 0)] {
            let nx = p.x + dx;
            let ny = p.y + dy;
            if nx < 0 || ny < 0 || nx >= w || ny >= h {
                continue;
            }
            let from = *grid.at(p);
            let to = *grid.at(Point::new(nx, ny));
            if can_visit(from, to) && dist[ny as usize][nx as usize].is_none() {
                dist[ny as usize][nx as usize] = Some(d + 1);
                queue.push_back(Point::new(nx, ny));
            }
        }
    }
    None
}

#[test]
fn search_optimality_on_open_grid() {
    let grid = Tiles::new(5, 5, b'a');
    let d = astar(&grid, Point::new(0, 0), Point::new(4, 4), &OpenRule);
    assert_eq!(d, Some(8));
    assert_eq!(
        d,
        bfs_reference(&grid, Point::new(0, 0), Point::new(4, 4), |_, _| true)
    );
}

#[test]
fn search_matches_bfs_on_constrained_grids() {
    let maps: &[&[u8]] = &[
        b"aabqponm\nabcryxxl\naccszzxk\nacctuvwj\nabdefghi\n",
        b"aaaa\nazza\naaaa\n",
        b"ab\nba\n",
    ];
    for map in maps {
        let grid = Tiles::load(map.to_vec());
        let start = Point::new(0, 0);
        let end = Point::new(grid.width() as i16 - 1, grid.height() as i16 - 1);
        let got = astar(&grid, start, end, &ClimbRule);
        let want = bfs_reference(&grid, start, end, |from, to| to <= from.wrapping_add(1));
        assert_eq!(got, want);
    }
}

#[test]
fn unreachable_across_a_barrier() {
    // A row of cells too high to enter splits the grid in two components.
    let grid = Tiles::load(b"aaa\nzzz\naaa\n".to_vec());
    let d = astar(&grid, Point::new(0, 0), Point::new(2, 2), &ClimbRule);
    assert_eq!(d, None);
}

#[test]
fn start_equals_goal() {
    let grid = Tiles::new(3, 3, b'm');
    let d = astar(&grid, Point::new(1, 1), Point::new(1, 1), &OpenRule);
    assert_eq!(d, Some(0));
}

#[test]
fn elevation_constrained_climb_is_31() {
    let map = b"Sabqponm\nabcryxxl\naccszExk\nacctuvwj\nabdefghi\n".to_vec();
    let mut grid = Tiles::load(map);
    let start = grid.find_cell(b'S').unwrap();
    let end = grid.find_cell(b'E').unwrap();
    grid.set(start, b'a');
    grid.set(end, b'z');
    let d = astar(&grid, start, end, &ClimbRule);
    assert_eq!(d, Some(31));
}

#[test]
fn reversed_search_matches_forward_search() {
    // Searching from the goal backwards under the descent rule gives the
    // same distance as the forward climb.
    let map = b"Sabqponm\nabcryxxl\naccszExk\nacctuvwj\nabdefghi\n".to_vec();
    let mut grid = Tiles::load(map);
    let start = grid.find_cell(b'S').unwrap();
    let end = grid.find_cell(b'E').unwrap();
    grid.set(start, b'a');
    grid.set(end, b'z');
    let forward = astar(&grid, start, end, &ClimbRule);
    let backward = astar(&grid, end, start, &DescentRule);
    assert_eq!(forward, Some(31));
    assert_eq!(backward, Some(31));
}
