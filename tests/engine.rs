use tetris::tetris::{Game, Piece, PieceColor, PlayerInput, TetrisGame, COLS, NUM_KINDS, ROWS};

const TABLE: [[(i32, i32); 4]; 7] = [
    [(0, 0), (1, 0), (0, 1), (1, 1)],
    [(0, 0), (1, 0), (2, 0), (3, 0)],
    [(0, 0), (-1, -1), (1, 0), (0, 1)],
    [(0, 0), (1, 1), (1, 0), (0, -1)],
    [(0, 0), (1, 0), (2, 0), (2, 1)],
    [(0, 0), (1, 0), (2, 0), (2, -1)],
    [(0, 0), (0, 1), (0, -1), (1, 0)],
];

fn o_piece() -> Piece {
    Piece::canonical(0)
}

fn is_canonical(p: &Piece) -> bool {
    TABLE.iter().any(|t| *t == p.offsets())
}

fn occupied(game: &Game) -> usize {
    game.get_board().iter().map(|row| row.iter().filter(|&&c| c != 0).count()).sum()
}

/// Spawns an O piece, moves it to column `col` and lets it fall to rows 18-19.
fn o_piece_at_floor(game: &mut Game, col: usize) {
    game.spawn_new_piece(Some(o_piece()));
    while game.get_current_piece().0 .1 > col {
        game.player_input(PlayerInput::Left);
    }
    while game.get_current_piece().0 .1 < col {
        game.player_input(PlayerInput::Right);
    }
    for _ in 0..18 {
        game.tick();
    }
    assert_eq!(game.get_current_piece().0, (18, col));
}

#[test]
fn canonical_shapes_match_table() {
    let colors = [
        PieceColor::Yellow,
        PieceColor::Turquoise,
        PieceColor::Red,
        PieceColor::Green,
        PieceColor::Orange,
        PieceColor::Blue,
        PieceColor::Purple,
    ];
    for i in 0..NUM_KINDS {
        let p = Piece::canonical(i);
        assert_eq!(p.offsets(), TABLE[i]);
        assert_eq!(p.color(), colors[i]);
    }
}

#[test]
fn random_piece_is_canonical() {
    for _ in 0..50 {
        assert!(is_canonical(&Piece::random()));
    }
}

#[test]
fn rotation_maps_each_offset() {
    let i = Piece::canonical(1).rotated();
    assert_eq!(i.offsets(), [(0, 0), (0, -1), (0, -2), (0, -3)]);
    assert_eq!(i.color(), PieceColor::Turquoise);
    let s = Piece::canonical(2).rotated();
    assert_eq!(s.offsets(), [(0, 0), (-1, 1), (0, -1), (1, 0)]);
}

#[test]
fn four_rotations_restore_every_shape() {
    for i in 0..NUM_KINDS {
        let p = Piece::canonical(i);
        let q = p.rotated().rotated().rotated().rotated();
        assert_eq!(q, p);
        assert_ne!(p.rotated().offsets(), p.offsets());
    }
}

#[test]
fn new_game_has_empty_board_and_spawned_piece() {
    let game = Game::new();
    let board = game.get_board();
    assert_eq!(board.len(), ROWS);
    assert!(board.iter().all(|row| row.len() == COLS && row.iter().all(|&c| c == 0)));
    let (pos, piece) = game.get_current_piece();
    assert_eq!(pos, (0, 5));
    assert!(is_canonical(&piece));
}

#[test]
fn can_move_in_place_matches_placement() {
    let mut game = Game::new();
    game.spawn_new_piece(Some(o_piece()));
    assert!(game.can_move(0, 0));
    assert!(!game.can_move(-1, 0));
    assert!(game.can_move_down());
    // An S piece at the spawn anchor reaches row -1: its own placement collides.
    game.spawn_new_piece(Some(Piece::canonical(2)));
    assert!(!game.can_move(0, 0));
    assert!(game.can_move(1, 0));
}

#[test]
fn sideways_moves_keep_row_and_stop_at_walls() {
    let mut game = Game::new();
    game.spawn_new_piece(Some(o_piece()));
    for _ in 0..3 {
        game.tick();
    }
    for _ in 0..12 {
        game.player_input(PlayerInput::Right);
        assert_eq!(game.get_current_piece().0 .0, 3);
    }
    assert_eq!(game.get_current_piece().0, (3, 8));
    assert!(!game.can_move_right());
    for _ in 0..12 {
        game.player_input(PlayerInput::Left);
        assert_eq!(game.get_current_piece().0 .0, 3);
    }
    assert_eq!(game.get_current_piece().0, (3, 0));
    assert!(!game.can_move_left());
}

#[test]
fn sideways_move_blocked_by_occupied_cell() {
    let mut game = Game::new();
    o_piece_at_floor(&mut game, 0);
    game.player_input(PlayerInput::Place);
    o_piece_at_floor(&mut game, 2);
    game.player_input(PlayerInput::Left);
    assert_eq!(game.get_current_piece().0, (18, 2));
    game.player_input(PlayerInput::Right);
    assert_eq!(game.get_current_piece().0, (18, 3));
}

#[test]
fn lock_piece_marks_cells_and_respawns() {
    let mut game = Game::new();
    game.spawn_new_piece(Some(o_piece()));
    game.lock_piece();
    let board = game.get_board();
    for (r, c) in [(0, 5), (0, 6), (1, 5), (1, 6)] {
        assert_eq!(board[r][c], 1);
    }
    assert_eq!(occupied(&game), 4);
    let (pos, piece) = game.get_current_piece();
    assert_eq!(pos, (0, 5));
    assert!(is_canonical(&piece));
}

#[test]
fn lock_skips_cells_off_the_board() {
    let mut game = Game::new();
    game.spawn_new_piece(Some(Piece::canonical(2)));
    game.lock_piece();
    let board = game.get_board();
    assert_eq!(board[0][5], 1);
    assert_eq!(board[1][5], 1);
    assert_eq!(board[0][6], 1);
    assert_eq!(occupied(&game), 3);
}

#[test]
fn remove_full_lines_on_board_without_full_rows_keeps_it() {
    let mut game = Game::new();
    o_piece_at_floor(&mut game, 4);
    game.player_input(PlayerInput::Place);
    let before = game.get_board().clone();
    game.remove_full_lines();
    assert_eq!(game.get_board(), &before);
    assert_eq!(game.get_board().len(), 20);
}

#[test]
fn remove_full_lines_drops_full_rows_and_shifts_down() {
    let mut game = Game::new();
    for col in [0, 2, 4, 6] {
        o_piece_at_floor(&mut game, col);
        game.player_input(PlayerInput::Place);
    }
    // Two upright I pieces in columns 9 and 8 cover rows 16-19.
    for col in [9, 8] {
        game.spawn_new_piece(Some(Piece::canonical(1)));
        while game.get_current_piece().0 .1 < col {
            game.player_input(PlayerInput::Right);
        }
        for _ in 0..16 {
            game.tick();
        }
        assert_eq!(game.get_current_piece().0, (16, col));
        assert!(!game.can_move_down());
        game.player_input(PlayerInput::Place);
    }
    let board = game.get_board();
    assert_eq!(board.len(), 20);
    let expected = vec![0, 0, 0, 0, 0, 0, 0, 0, 1, 1];
    assert_eq!(board[18], expected);
    assert_eq!(board[19], expected);
    assert_eq!(occupied(&game), 4);
}

#[test]
fn place_o_pieces_fill_and_clear_bottom_rows() {
    let mut game = Game::new();
    o_piece_at_floor(&mut game, 4);
    game.player_input(PlayerInput::Place);
    {
        let board = game.get_board();
        for r in [18, 19] {
            let cols: Vec<usize> = (0..10).filter(|&c| board[r][c] != 0).collect();
            assert_eq!(cols, vec![4, 5]);
        }
        assert_eq!(occupied(&game), 4);
    }
    for col in [0, 2, 6] {
        o_piece_at_floor(&mut game, col);
        game.player_input(PlayerInput::Place);
    }
    assert_eq!(occupied(&game), 16);
    o_piece_at_floor(&mut game, 8);
    game.player_input(PlayerInput::Place);
    let board = game.get_board();
    assert_eq!(board.len(), 20);
    assert!(board.iter().all(|row| row.len() == 10 && row.iter().all(|&c| c == 0)));
}

#[test]
fn swap_toggles_between_two_pieces() {
    let mut game = Game::new();
    let original = Piece::canonical(6);
    game.spawn_new_piece(Some(original));
    game.tick();
    game.player_input(PlayerInput::Swap);
    let (pos, spawned) = game.get_current_piece();
    assert_eq!(pos, (0, 5));
    assert!(is_canonical(&spawned));
    game.tick();
    game.player_input(PlayerInput::Swap);
    assert_eq!(game.get_current_piece(), ((0, 5), original));
    game.player_input(PlayerInput::Swap);
    assert_eq!(game.get_current_piece(), ((0, 5), spawned));
}

#[test]
fn rotate_is_unchecked_and_keeps_anchor() {
    let mut game = Game::new();
    game.spawn_new_piece(Some(Piece::canonical(1)));
    game.player_input(PlayerInput::Rotate);
    let (pos, piece) = game.get_current_piece();
    assert_eq!(pos, (0, 5));
    assert_eq!(piece.offsets(), [(0, 0), (0, -1), (0, -2), (0, -3)]);
    game.player_input(PlayerInput::Rotate);
    // (0,0),(-1,0),(-2,0),(-3,0): above the top row, yet the turn is taken.
    assert_eq!(game.get_current_piece().1.offsets(), [(0, 0), (-1, 0), (-2, 0), (-3, 0)]);
    assert!(!game.can_move(0, 0));
}

#[test]
fn tick_moves_down_one_row_until_resting() {
    let mut game = Game::new();
    game.spawn_new_piece(Some(o_piece()));
    for row in 1..=18 {
        game.tick();
        assert_eq!(game.get_current_piece().0, (row, 5));
        assert_eq!(occupied(&game), 0);
    }
    assert!(!game.can_move_down());
    game.tick();
    assert_eq!(occupied(&game), 4);
    assert_eq!(game.get_board()[19][6], 1);
    assert_eq!(game.get_current_piece().0, (0, 5));
}

#[test]
fn tick_locks_piece_resting_on_another() {
    let mut game = Game::new();
    o_piece_at_floor(&mut game, 5);
    game.player_input(PlayerInput::Place);
    game.spawn_new_piece(Some(o_piece()));
    for _ in 0..16 {
        game.tick();
    }
    assert_eq!(game.get_current_piece().0, (16, 5));
    game.tick();
    assert_eq!(occupied(&game), 8);
    assert_eq!(game.get_board()[16][5], 1);
    assert_eq!(game.get_current_piece().0, (0, 5));
}

#[test]
fn place_locks_at_current_row() {
    let mut game = Game::new();
    game.spawn_new_piece(Some(o_piece()));
    for _ in 0..3 {
        game.tick();
    }
    game.player_input(PlayerInput::Place);
    let board = game.get_board();
    assert_eq!(board[3][5], 1);
    assert_eq!(board[4][6], 1);
    assert_eq!(occupied(&game), 4);
}
