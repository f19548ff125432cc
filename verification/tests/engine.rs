use uttt_engine::board::Board;
use uttt_engine::codec::{move_u16_to_row_col, row_col_move_to_u16};
use uttt_engine::moves::MoveStruct;
use uttt_engine::tables::{are_boards_winning, count_cells, scores_by_position};

const LINE_MASKS: [u16; 8] = [
    0b000000111,
    0b000111000,
    0b111000000,
    0b001001001,
    0b010010010,
    0b100100100,
    0b100010001,
    0b001010100,
];

fn brute_force_win(p: u16) -> bool {
    LINE_MASKS.iter().any(|&m| p & m == m)
}

fn empty_board() -> Board {
    Board::init()
}

#[test]
fn win_table_matches_brute_force() {
    let table = are_boards_winning();
    assert_eq!(table.len(), 512);
    for p in 0..512u16 {
        assert_eq!(table[p as usize], brute_force_win(p), "pattern {:#011b}", p);
    }
}

#[test]
fn win_table_examples() {
    let table = are_boards_winning();
    assert!(!table[0]);
    assert!(table[0b000000111]);
    assert!(table[0b111000000]);
    assert!(table[0b100010001]);
    assert!(table[0b001010100]);
    // Four occupied cells with no completed line.
    assert!(!table[0b000011011]);
    // Full board minus one diagonal cell, no line: cells 1, 2, 3, 5, 6, 7.
    assert!(!table[0b011101110]);
}

#[test]
fn score_table_exact_entries() {
    let scores = scores_by_position();
    assert_eq!(scores.len(), 262144);
    // Empty position scores zero.
    assert_eq!(scores[0], 0);
    // Opponent holds one corner: three open lines of one cell each.
    assert_eq!(scores[1], -3);
    // Player completed the first row: 16 for the row, 1 for each of the five
    // other lines through its cells.
    assert_eq!(scores[(0b111 << 9) | 0], 21);
    // The same pattern for the opponent is the exact opposite.
    assert_eq!(scores[0b111], -21);
    // A blocked line counts for neither side.
    assert_eq!(scores[(0b001 << 9) | 0b100], 2 - 2);
}

#[test]
fn score_table_is_antisymmetric_on_samples() {
    let scores = scores_by_position();
    for &(p, o) in &[(0u16, 1u16), (0b111, 0b000011000), (0b101000010, 0b010000101), (3, 4)] {
        let a = scores[((p as usize) << 9) | o as usize];
        let b = scores[((o as usize) << 9) | p as usize];
        assert_eq!(a, -b, "pair {:#011b} {:#011b}", p, o);
    }
}

#[test]
fn move_round_trip_all_valid_bytes() {
    for b in 0..9u8 {
        for c in 0..9u8 {
            let m = b << 4 | c;
            let (row, col) = move_u16_to_row_col(m);
            assert!(row < 9 && col < 9);
            assert_eq!(row_col_move_to_u16(row, col), m);
            let (row2, col2) = move_u16_to_row_col(row_col_move_to_u16(row, col));
            assert_eq!((row2, col2), (row, col));
        }
    }
}

#[test]
fn move_coordinate_examples() {
    assert_eq!(move_u16_to_row_col(0x00), (0, 0));
    assert_eq!(move_u16_to_row_col(0x44), (4, 4));
    assert_eq!(move_u16_to_row_col(0x88), (8, 8));
    assert_eq!(move_u16_to_row_col(0x12), (0, 5));
    assert_eq!(row_col_move_to_u16(0, 0), 0x00);
    assert_eq!(row_col_move_to_u16(4, 4), 0x44);
    assert_eq!(row_col_move_to_u16(2, 6), 0x26);
}

#[test]
fn initial_board_has_81_moves() {
    let board = empty_board();
    let mut moves = MoveStruct::init();
    board.get_moves(&mut moves);
    assert_eq!(moves.index, 81);
    // Strictly ascending byte order: sub-board index, then cell index.
    for i in 1..81usize {
        assert!(moves.moves[i - 1].0 < moves.moves[i].0);
    }
    assert_eq!(moves.moves[0].0, 0x00);
    assert_eq!(moves.moves[80].0, 0x88);
}

#[test]
fn generator_matches_brute_force_mid_game() {
    let win = are_boards_winning();
    let mut board = empty_board();
    board.play_move(&win, 0x44);
    board.play_move(&win, 0x42);
    // Player 0 must now play in sub-board 2.
    let mut moves = MoveStruct::init();
    board.get_moves(&mut moves);
    let generated: Vec<u8> = (0..moves.index as usize).map(|i| moves.moves[i].0).collect();
    let mut expected = Vec::new();
    for b in 0..9u16 {
        if board.mini_board_can_play >> b & 1 == 1 {
            let occ = board.players_mini_boards[0][b as usize]
                | board.players_mini_boards[1][b as usize];
            for c in 0..9u16 {
                if occ >> c & 1 == 0 {
                    expected.push((b << 4 | c) as u8);
                }
            }
        }
    }
    assert_eq!(generated, expected);
    assert_eq!(generated.len(), 9);
    assert!(generated.iter().all(|m| m >> 4 == 2));
}

#[test]
fn playing_routes_to_named_sub_board() {
    let win = are_boards_winning();
    let mut board = empty_board();
    board.play_move(&win, 0x44);
    // Sub-board 4 is open, so the opponent is routed exactly there.
    assert_eq!(board.mini_board_can_play, 1 << 4);
    assert_eq!(board.players_mini_boards[0][4], 1 << 4);
    assert_eq!(board.finished_played_boards, 0);
    assert_eq!(board.player_turn, 1);
}

#[test]
fn winning_a_sub_board_and_fallback_routing() {
    let win = are_boards_winning();
    let mut board = empty_board();
    // Player 1 collects cells 3, 4, 5 of sub-board 0 while the routing
    // bounces player 0 between sub-boards.
    board.play_move(&win, 0x00); // p0: board 0 cell 0 -> to board 0
    board.play_move(&win, 0x03); // p1: board 0 cell 3 -> to board 3
    board.play_move(&win, 0x30); // p0: board 3 cell 0 -> to board 0
    board.play_move(&win, 0x04); // p1: board 0 cell 4 -> to board 4
    board.play_move(&win, 0x40); // p0: board 4 cell 0 -> to board 0
    board.play_move(&win, 0x05); // p1: board 0 cell 5 -> wins board 0
    assert_eq!(board.finished_played_boards, 1);
    assert_eq!(board.players_big_board[1], 1);
    assert_eq!(board.players_big_board[0], 0);
    // The win routed player 0 to the open sub-board 5.
    assert_eq!(board.mini_board_can_play, 1 << 5);
    // Playing cell 0 targets the finished sub-board 0: fallback to the
    // complement of the finished mask.
    board.play_move(&win, 0x50);
    assert_eq!(board.mini_board_can_play, 0b111111110);
}

#[test]
fn full_sub_board_without_line_is_a_draw() {
    let win = are_boards_winning();
    // Sub-board 0 one cell short of a drawn full board:
    // player 0 holds {0, 2, 3, 7}, player 1 holds {1, 4, 5, 6}.
    let mut board = Board {
        players_mini_boards: [
            [0b010001101, 0, 0, 0, 0, 0, 0, 0, 0],
            [0b001110010, 0, 0, 0, 0, 0, 0, 0, 0],
        ],
        players_big_board: [0, 0],
        mini_board_can_play: 1,
        finished_played_boards: 0,
        player_turn: 0,
    };
    board.play_move(&win, 0x08);
    // Finished with no winner on either outer board.
    assert_eq!(board.finished_played_boards, 1);
    assert_eq!(board.players_big_board, [0, 0]);
    // The cell index routes to sub-board 8, which is open.
    assert_eq!(board.mini_board_can_play, 1 << 8);
}

#[test]
fn make_unmake_restores_every_field() {
    let win = are_boards_winning();
    let mut board = empty_board();
    board.play_move(&win, 0x23);
    board.play_move(&win, 0x35);
    // Snapshot, play a move that wins nothing, cancel it.
    let mini = board.players_mini_boards;
    let big = board.players_big_board;
    let can_play = board.mini_board_can_play;
    let finished = board.finished_played_boards;
    let turn = board.player_turn;
    board.play_move(&win, 0x57);
    board.cancel_move(0x57, can_play);
    assert_eq!(board.players_mini_boards, mini);
    assert_eq!(board.players_big_board, big);
    assert_eq!(board.mini_board_can_play, can_play);
    assert_eq!(board.finished_played_boards, finished);
    assert_eq!(board.player_turn, turn);
}

#[test]
fn make_unmake_restores_a_won_sub_board() {
    let win = are_boards_winning();
    // Player 0 about to win sub-board 0 with cell 2.
    let mut board = Board {
        players_mini_boards: [[0b011, 0, 0, 0, 0, 0, 0, 0, 0], [0; 9]],
        players_big_board: [0, 0],
        mini_board_can_play: 1,
        finished_played_boards: 0,
        player_turn: 0,
    };
    let can_play = board.mini_board_can_play;
    board.play_move(&win, 0x02);
    assert_eq!(board.finished_played_boards, 1);
    assert_eq!(board.players_big_board[0], 1);
    board.cancel_move(0x02, can_play);
    assert_eq!(board.players_mini_boards[0][0], 0b011);
    assert_eq!(board.players_big_board, [0, 0]);
    assert_eq!(board.finished_played_boards, 0);
    assert_eq!(board.mini_board_can_play, 1);
    assert_eq!(board.player_turn, 0);
}

#[test]
fn eval_counts_weighted_open_sub_boards() {
    let win = are_boards_winning();
    let scores = scores_by_position();
    let board = empty_board();
    assert_eq!(board.eval(&scores), 0);
    let mut board = empty_board();
    board.play_move(&win, 0x44);
    // From player 1's perspective: the centre sub-board holds one opposing
    // centre cell, scored -4, with the centre weight 4.
    assert_eq!(board.eval(&scores), -16);
}

#[test]
fn moves_bitmap_is_complement_of_occupancy() {
    let win = are_boards_winning();
    let mut board = empty_board();
    assert_eq!(board.get_moves_bitmap(0), 0b111111111);
    board.play_move(&win, 0x44);
    assert_eq!(board.get_moves_bitmap(4), !(1u16 << 4) & 0b111111111);
}

#[test]
fn count_cells_counts_low_nine_bits() {
    assert_eq!(count_cells(0), 0);
    assert_eq!(count_cells(0b111111111), 9);
    assert_eq!(count_cells(0b100010001), 3);
}

#[test]
fn search_completes_a_line_at_depth_one() {
    let win = are_boards_winning();
    let scores = scores_by_position();
    // Player 0 has two in the first row of sub-board 0, the third cell empty,
    // and must play in sub-board 0.
    let mut board = Board {
        players_mini_boards: [[0b011, 0, 0, 0, 0, 0, 0, 0, 0], [0; 9]],
        players_big_board: [0, 0],
        mini_board_can_play: 1,
        finished_played_boards: 0,
        player_turn: 0,
    };
    let mut moves_by_depth = [MoveStruct::init(); 7];
    let (best_move, best_score) =
        board.minimax(&mut moves_by_depth, &scores, &win, 6, -1_000_000_000, 1_000_000_000);
    // Completing the line wins the sub-board and strictly raises the
    // evaluation: one outer-board square against none scores 3 * 1000.
    assert_eq!(best_move, 0x02);
    assert_eq!(best_score, 3000);
}

#[test]
fn forced_loss_score_scales_with_remaining_depth() {
    let win = are_boards_winning();
    let scores = scores_by_position();
    // Player 0 has won sub-boards 0 and 1 and completes the outer row by
    // winning sub-board 2 with cell 2.
    let make_board = || Board {
        players_mini_boards: [[0b111, 0b111, 0b011, 0, 0, 0, 0, 0, 0], [0; 9]],
        players_big_board: [0b011, 0],
        mini_board_can_play: 0b100,
        finished_played_boards: 0b011,
        player_turn: 0,
    };
    let mut results = Vec::new();
    for depth in [4usize, 5, 6] {
        let mut board = make_board();
        let mut moves_by_depth = [MoveStruct::init(); 7];
        let (best_move, best_score) =
            board.minimax(&mut moves_by_depth, &scores, &win, depth, -1_000_000_000, 1_000_000_000);
        assert_eq!(best_move, 0x22);
        assert_eq!(best_score, (7 - depth) as i32 * 1_000_000);
        results.push(best_score);
    }
    // The shallower the depth of the forced win, the larger the magnitude.
    assert!(results[0] > results[1] && results[1] > results[2]);
}

#[test]
fn exhausted_game_returns_exact_outcome() {
    let win = are_boards_winning();
    let scores = scores_by_position();
    // A finished game: player 0 won the first three sub-boards, the other six
    // are drawn full boards.
    let drawn_x = 0b110001101u16;
    let drawn_o = 0b001110010u16;
    let mut mini0 = [drawn_x; 9];
    let mut mini1 = [drawn_o; 9];
    for b in 0..3 {
        mini0[b] = 0b111;
        mini1[b] = 0;
    }
    let mut board = Board {
        players_mini_boards: [mini0, mini1],
        players_big_board: [0b111, 0],
        mini_board_can_play: 0,
        finished_played_boards: 0b111111111,
        player_turn: 0,
    };
    let mut moves_by_depth = [MoveStruct::init(); 7];
    // Player 0 is ahead: from the mover's own perspective the outcome is the
    // full negative magnitude at the root.
    let (best_move, best_score) =
        board.minimax(&mut moves_by_depth, &scores, &win, 0, -1_000_000_000, 1_000_000_000);
    assert_eq!(best_move, 0);
    assert_eq!(best_score, -7_000_000);
    // Player 1 to move in the same position is behind.
    board.player_turn = 1;
    let (_, losing_score) =
        board.minimax(&mut moves_by_depth, &scores, &win, 0, -1_000_000_000, 1_000_000_000);
    assert_eq!(losing_score, 7_000_000);
}

#[test]
fn search_leaves_the_board_bit_identical() {
    let win = are_boards_winning();
    let scores = scores_by_position();
    let mut board = empty_board();
    board.play_move(&win, 0x44);
    board.play_move(&win, 0x40);
    let mini = board.players_mini_boards;
    let big = board.players_big_board;
    let can_play = board.mini_board_can_play;
    let finished = board.finished_played_boards;
    let turn = board.player_turn;
    let mut moves_by_depth = [MoveStruct::init(); 7];
    board.minimax(&mut moves_by_depth, &scores, &win, 3, -1_000_000_000, 1_000_000_000);
    assert_eq!(board.players_mini_boards, mini);
    assert_eq!(board.players_big_board, big);
    assert_eq!(board.mini_board_can_play, can_play);
    assert_eq!(board.finished_played_boards, finished);
    assert_eq!(board.player_turn, turn);
}

#[test]
fn completing_the_outer_row_is_losing_for_the_opponent() {
    let win = are_boards_winning();
    let mut board = Board {
        players_mini_boards: [[0b111, 0b111, 0b011, 0, 0, 0, 0, 0, 0], [0; 9]],
        players_big_board: [0b011, 0],
        mini_board_can_play: 0b100,
        finished_played_boards: 0b011,
        player_turn: 0,
    };
    assert!(!board.is_losing(&win));
    board.play_move(&win, 0x22);
    assert_eq!(board.players_big_board[0], 0b111);
    // Player 1 is now to move and the opponent's outer board is a win.
    assert!(board.is_losing(&win));
}

#[test]
fn move_buffer_push_and_reset() {
    let mut moves = MoveStruct::init();
    assert_eq!(moves.index, 0);
    moves.push(0x12);
    moves.push(0x34);
    assert_eq!(moves.index, 2);
    assert_eq!(moves.moves[0].0, 0x12);
    assert_eq!(moves.moves[1].0, 0x34);
    moves.reset();
    assert_eq!(moves.index, 0);
}
