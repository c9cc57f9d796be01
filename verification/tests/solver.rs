use edge_puzzle::board::{BoardGame, Compass};
use edge_puzzle::cell::{Border, Cell, Face};
use edge_puzzle::crawler::Crawler;
use edge_puzzle::piece::{Props, Sides};
use edge_puzzle::solver::{solve, solve_bounded, solveception, Outcome};

fn create_board() -> BoardGame {
    let file_content = "4\n5\n1\n1 1 1 1\n0 0 1 1\n0 0 1 2\n0 0 2 1\n0 0 2 2\n0 1 3 1\n0 1 3 2\n0 1 4 1\n0 1 5 2\n0 2 4 1\n0 2 4 2\n0 2 5 1\n0 2 5 2\n3 3 5 5\n3 4 3 5\n3 4 4 4\n3 5 5 4".to_string();

    BoardGame::new(file_content.lines().map(|line| line.to_string()).collect()).unwrap()
}

fn three_by_three() -> BoardGame {
    BoardGame::from_records(
        3,
        vec![
            vec![0, 0, 6, 12],
            vec![0, 5, 11, 6],
            vec![4, 11, 3, 8],
            vec![0, 0, 1, 7],
            vec![0, 12, 4, 9],
            vec![0, 0, 10, 5],
            vec![0, 2, 8, 1],
            vec![0, 0, 9, 2],
            vec![0, 7, 3, 10],
        ],
    )
    .unwrap()
}

fn occupant(cell: &Cell) -> Option<Props> {
    match cell {
        Cell::CornerCell(p, _) => *p,
        Cell::BorderCell(p, _) => *p,
        Cell::FullCell(p, _) => *p,
    }
}

fn ids(board: &BoardGame) -> Vec<Vec<Option<u8>>> {
    board
        .cells
        .iter()
        .map(|row| row.iter().map(|c| occupant(c).map(|p| p.id)).collect())
        .collect()
}

/// Every cell is occupied by a piece of its own, every pair of neighbors
/// shows the same face to each other, and every side on the edge of the grid
/// is a side without a color.
fn check_solution(board: &BoardGame) {
    let n = board.size as usize;
    let mut seen = vec![false; n * n];
    for y in 0..n {
        for x in 0..n {
            let cell = &board.cells[y][x];
            let p = occupant(cell).expect("an empty cell in a solved board");
            assert!(!seen[p.id as usize]);
            seen[p.id as usize] = true;
            assert!(board.placed[p.id as usize]);
            assert_eq!(board.pieces[p.id as usize].get_props(), p);
            let (north, east, south, west) = cell.get_faces();
            assert_eq!(north == Face::Border, y == 0);
            assert_eq!(west == Face::Border, x == 0);
            assert_eq!(south == Face::Border, y == n - 1);
            assert_eq!(east == Face::Border, x == n - 1);
            for f in [north, east, south, west].iter() {
                assert!(*f != Face::Open);
            }
            if x + 1 < n {
                assert_eq!(east, board.cells[y][x + 1].get_face(Border::West));
            }
            if y + 1 < n {
                assert_eq!(south, board.cells[y + 1][x].get_face(Border::North));
            }
            assert_eq!(
                board.get_frontier((x as u8, y as u8)),
                (north, east, south, west)
            );
        }
    }
    assert!(board.is_solved());
}

#[test]
fn test_solve_fixture_terminates() {
    let mut board = create_board();
    let before_cells = board.cells.clone();
    match solve(&mut board) {
        Outcome::Solved => check_solution(&board),
        Outcome::Unsolvable => {
            assert_eq!(board.cells, before_cells);
            assert_eq!(board.placed, vec![false; 16]);
            assert!(!board.is_solved());
        }
    }
    assert_eq!(board.size, 4);
    assert_eq!(board.pieces, create_board().pieces);
}

#[test]
fn test_solve_fixture_solution() {
    let mut board = create_board();
    assert_eq!(solve(&mut board), Outcome::Solved);
    check_solution(&board);
    assert_eq!(
        ids(&board),
        vec![
            vec![Some(0), Some(6), Some(10), Some(1)],
            vec![Some(7), Some(15), Some(13), Some(4)],
            vec![Some(11), Some(12), Some(14), Some(8)],
            vec![Some(2), Some(5), Some(9), Some(3)],
        ]
    );
    let turns: Vec<Option<Compass>> = [(1, 1), (2, 1), (1, 2), (2, 2)]
        .iter()
        .map(|(x, y)| match board.cells[*y as usize][*x as usize] {
            Cell::FullCell(_, c) => c,
            _ => None,
        })
        .collect();
    assert_eq!(
        turns,
        vec![
            Some(Compass::East),
            Some(Compass::East),
            Some(Compass::East),
            Some(Compass::West)
        ]
    );
    assert_eq!(board.placed, vec![true; 16]);
}

#[test]
fn test_solve_two_by_two() {
    let mut board = BoardGame::from_records(
        2,
        vec![
            vec![0, 0, 3, 1],
            vec![0, 0, 4, 3],
            vec![0, 0, 1, 2],
            vec![0, 0, 2, 4],
        ],
    )
    .unwrap();
    assert!(!board.is_solved());
    assert_eq!(solve(&mut board), Outcome::Solved);
    check_solution(&board);
    // the first solution in the order of the search
    assert_eq!(
        ids(&board),
        vec![vec![Some(0), Some(1)], vec![Some(2), Some(3)]]
    );
    assert_eq!(board.placed, vec![true; 4]);
}

#[test]
fn test_solve_two_by_two_unsolvable() {
    let mut board = BoardGame::from_records(
        2,
        vec![
            vec![0, 0, 1, 1],
            vec![0, 0, 1, 1],
            vec![0, 0, 1, 1],
            vec![0, 0, 2, 2],
        ],
    )
    .unwrap();
    let cells = board.cells.clone();
    assert_eq!(solve(&mut board), Outcome::Unsolvable);
    assert_eq!(board.cells, cells);
    assert_eq!(board.placed, vec![false; 4]);
}

#[test]
fn test_solve_three_by_three_with_rotation() {
    let mut board = three_by_three();
    assert_eq!(solve(&mut board), Outcome::Solved);
    check_solution(&board);
    // the pieces were cut from a board with the corner 3 in the north-west;
    // the search tries the corner 0 first and finds that board turned by two
    // quarter turns
    assert_eq!(
        ids(&board),
        vec![
            vec![Some(0), Some(1), Some(5)],
            vec![Some(4), Some(2), Some(8)],
            vec![Some(7), Some(6), Some(3)],
        ]
    );
    assert_eq!(
        board.cells[1][1],
        Cell::FullCell(
            Some(Props {
                id: 2,
                kind: Sides::Full(4, 11, 3, 8)
            }),
            Some(Compass::West)
        )
    );
    assert_eq!(
        board.cells[1][1].get_faces(),
        (
            Face::Color(11),
            Face::Color(3),
            Face::Color(8),
            Face::Color(4)
        )
    );
}

#[test]
fn test_solve_needs_backtracking() {
    // the corner 0 fits the first cell but leads nowhere: no border
    // continues it
    let mut board = BoardGame::from_records(
        3,
        vec![
            vec![0, 0, 20, 21],
            vec![0, 0, 6, 12],
            vec![0, 5, 11, 6],
            vec![4, 11, 3, 8],
            vec![0, 12, 4, 9],
            vec![0, 0, 10, 5],
            vec![0, 2, 8, 1],
            vec![0, 0, 9, 2],
            vec![0, 7, 3, 10],
        ],
    )
    .unwrap();
    assert_eq!(solve(&mut board), Outcome::Unsolvable);
    assert_eq!(board.placed, vec![false; 9]);

    // with one corner twice the search has to give up its first choice
    let mut board = BoardGame::from_records(
        2,
        vec![
            vec![0, 0, 9, 9],
            vec![0, 0, 3, 1],
            vec![0, 0, 4, 3],
            vec![0, 0, 1, 2],
        ],
    )
    .unwrap();
    assert_eq!(solve(&mut board), Outcome::Unsolvable);

    let mut board = BoardGame::from_records(
        2,
        vec![
            vec![0, 0, 1, 2],
            vec![0, 0, 4, 3],
            vec![0, 0, 3, 1],
            vec![0, 0, 2, 4],
        ],
    )
    .unwrap();
    assert_eq!(solve(&mut board), Outcome::Solved);
    check_solution(&board);
    assert_eq!(
        ids(&board),
        vec![vec![Some(0), Some(2)], vec![Some(3), Some(1)]]
    );
}

#[test]
fn test_solve_single_cell_is_unsolvable() {
    let mut board = BoardGame::from_records(1, vec![vec![0, 0, 1, 1]]).unwrap();
    assert_eq!(solve(&mut board), Outcome::Unsolvable);
    assert_eq!(board.placed, vec![false]);
}

#[test]
fn test_solve_on_a_board_in_use() {
    let mut board = three_by_three();
    board.place_piece(3, (0, 0), None).unwrap();
    let cells = board.cells.clone();
    let placed = board.placed.clone();
    assert_eq!(solve(&mut board), Outcome::Unsolvable);
    assert_eq!(board.cells, cells);
    assert_eq!(board.placed, placed);
}

#[test]
fn test_search_from_the_middle() {
    let mut board = three_by_three();
    let mut crawler = Crawler::new(3);
    board.place_piece(3, (0, 0), None).unwrap();
    crawler.next();
    board.place_piece(6, (1, 0), None).unwrap();
    crawler.next();
    assert_eq!(crawler.current(), Some((0, 2)));
    assert_eq!(solveception(&mut board, crawler), Outcome::Solved);
    check_solution(&board);

    // behind the last cell nothing is left to do
    let mut done = crawler;
    while done.next().is_some() {}
    let cells = board.cells.clone();
    assert_eq!(solveception(&mut board, done), Outcome::Solved);
    assert_eq!(board.cells, cells);
}

#[test]
fn test_search_keeps_what_lies_before_the_cursor() {
    // each corner in the first cell belongs to one of the four turns of the
    // solution, and the search goes on from it
    for corner in [0u8, 3, 5, 7].iter() {
        let mut board = three_by_three();
        board.put_piece(*corner, (0, 0), None).unwrap();
        let first = board.cells[0][0];
        let mut crawler = Crawler::new(3);
        crawler.next();
        assert_eq!(solveception(&mut board, crawler), Outcome::Solved);
        assert_eq!(board.cells[0][0], first);
        check_solution(&board);
    }

    // a full piece turned the wrong way before the cursor is not turned
    let mut board = three_by_three();
    let mut crawler = Crawler::new(3);
    for (id, pos) in [(3u8, (0u8, 0u8)), (6, (1, 0)), (7, (2, 0)), (8, (0, 1))].iter() {
        board.place_piece(*id, *pos, None).unwrap();
        crawler.next();
    }
    board.put_piece(2, (1, 1), Some(Compass::North)).unwrap();
    crawler.next();
    assert_eq!(crawler.current(), Some((1, 2)));
    let cells = board.cells.clone();
    let placed = board.placed.clone();
    assert_eq!(
        solveception(&mut board, crawler),
        Outcome::Unsolvable
    );
    assert_eq!(board.cells, cells);
    assert_eq!(board.placed, placed);
}

#[test]
fn test_is_solved_sees_a_wrong_rotation() {
    let mut board = three_by_three();
    assert_eq!(solve(&mut board), Outcome::Solved);
    assert!(board.is_solved());
    board.rotate_piece((1, 1), Compass::North);
    assert!(!board.is_solved());
    board.rotate_piece((1, 1), Compass::East);
    assert!(!board.is_solved());
    board.rotate_piece((1, 1), Compass::West);
    assert!(board.is_solved());
    board.remove_piece((2, 2));
    assert!(!board.is_solved());
}

#[test]
fn test_solve_bounded_fixture() {
    // the search tries 1474 placements on this board
    let mut board = create_board();
    assert_eq!(solve_bounded(&mut board, 1474), Some(Outcome::Solved));
    check_solution(&board);
    let mut unbounded = create_board();
    assert_eq!(solve(&mut unbounded), Outcome::Solved);
    assert_eq!(board.cells, unbounded.cells);

    let mut board = create_board();
    let cells = board.cells.clone();
    assert_eq!(solve_bounded(&mut board, 1473), None);
    assert_eq!(board.cells, cells);
    assert_eq!(board.placed, vec![false; 16]);

    let mut board = create_board();
    assert_eq!(solve_bounded(&mut board, u64::MAX), Some(Outcome::Solved));
}

#[test]
fn test_solve_bounded_counts_each_attempt() {
    // four cells, each filled by the first piece that is tried
    let two = || {
        BoardGame::from_records(
            2,
            vec![
                vec![0, 0, 3, 1],
                vec![0, 0, 4, 3],
                vec![0, 0, 1, 2],
                vec![0, 0, 2, 4],
            ],
        )
        .unwrap()
    };
    let mut board = two();
    assert_eq!(solve_bounded(&mut board, 4), Some(Outcome::Solved));
    check_solution(&board);
    for n in 0..4 {
        let mut board = two();
        let cells = board.cells.clone();
        assert_eq!(solve_bounded(&mut board, n), None);
        assert_eq!(board.cells, cells);
        assert_eq!(board.placed, vec![false; 4]);
    }

    // eight cells filled at the first try, and the full piece in the fourth
    // of its rotations
    let mut board = three_by_three();
    assert_eq!(solve_bounded(&mut board, 12), Some(Outcome::Solved));
    let mut board = three_by_three();
    assert_eq!(solve_bounded(&mut board, 11), None);
    assert_eq!(board.placed, vec![false; 9]);
}

#[test]
fn test_solve_bounded_unsolvable() {
    // each of the three equal corners in the first cell costs 5 attempts,
    // the fourth corner 1
    let two = || {
        BoardGame::from_records(
            2,
            vec![
                vec![0, 0, 1, 1],
                vec![0, 0, 1, 1],
                vec![0, 0, 1, 1],
                vec![0, 0, 2, 2],
            ],
        )
        .unwrap()
    };
    let mut board = two();
    assert_eq!(solve_bounded(&mut board, 16), Some(Outcome::Unsolvable));
    assert_eq!(board.placed, vec![false; 4]);
    let mut board = two();
    assert_eq!(solve_bounded(&mut board, 15), None);
    assert_eq!(board.placed, vec![false; 4]);

    // one cell, one piece, one attempt that fails
    let mut board = BoardGame::from_records(1, vec![vec![0, 0, 1, 1]]).unwrap();
    assert_eq!(solve_bounded(&mut board, 0), None);
    assert_eq!(solve_bounded(&mut board, 1), Some(Outcome::Unsolvable));
}
