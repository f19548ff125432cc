//! The one-byte move encoding and its (row, col) coordinate conversions:
//! high nibble = sub-board index, low nibble = cell index, both row-major.

use vstd::prelude::*;

verus! {

/// The sub-board index of a move byte (its high nibble).
pub open spec fn move_board(m: u8) -> u8 {
    m >> 4
}

/// The cell index of a move byte (its low nibble).
pub open spec fn move_cell(m: u8) -> u8 {
    m & 0xf
}

/// A move byte whose nibbles are both sub-board/cell indices in [0, 9).
pub open spec fn valid_move_byte(m: u8) -> bool {
    move_board(m) < 9 && move_cell(m) < 9
}

/// The outer row addressed by a move byte.
pub open spec fn move_row(m: u8) -> u8 {
    ((move_board(m) / 3) * 3 + move_cell(m) / 3) as u8
}

/// The outer column addressed by a move byte.
pub open spec fn move_col(m: u8) -> u8 {
    ((move_board(m) % 3) * 3 + move_cell(m) % 3) as u8
}

/// The move byte addressing outer coordinates (row, col).
pub open spec fn move_of_row_col(row: u8, col: u8) -> u8 {
    ((((row / 3) * 3 + col / 3) as u8) << 4) | (((row % 3) * 3 + col % 3) as u8)
}

/// Converts a move byte to its (row, col) outer-board coordinates.
pub fn move_u16_to_row_col(mv: u8) -> (r: (u8, u8))
    requires
        valid_move_byte(mv),
    ensures
        r.0 == move_row(mv),
        r.1 == move_col(mv),
{
    let board_index = mv >> 4;
    let move_index = mv & 0b1111;
    let x = board_index % 3 * 3 + move_index % 3;
    let y = board_index / 3 * 3 + move_index / 3;
    (y, x)
}

/// Converts (row, col) outer-board coordinates to a move byte.
pub fn row_col_move_to_u16(row: u8, col: u8) -> (r: u8)
    requires
        row < 9,
        col < 9,
    ensures
        r == move_of_row_col(row, col),
        valid_move_byte(r),
{
    let big_board_y = row / 3;
    let big_board_x = col / 3;
    let board_index = big_board_y * 3 + big_board_x;
    let mini_board_y = row % 3;
    let mini_board_x = col % 3;
    let move_index = mini_board_y * 3 + mini_board_x;
    proof {
        assert(valid_move_byte(((((row / 3) * 3 + col / 3) as u8) << 4) | (((row % 3) * 3 + col
            % 3) as u8))) by (bit_vector)
            requires
                row < 9,
                col < 9,
        ;
    }
    board_index << 4 | move_index
}

/// Round trip: converting a valid move byte to coordinates and back yields
/// the same byte, so the coordinate pair determines the move exactly.
pub proof fn lemma_move_round_trip(m: u8)
    requires
        valid_move_byte(m),
    ensures
        move_of_row_col(move_row(m), move_col(m)) == m,
        move_row(m) < 9,
        move_col(m) < 9,
        move_row(move_of_row_col(move_row(m), move_col(m))) == move_row(m),
        move_col(move_of_row_col(move_row(m), move_col(m))) == move_col(m),
{
    assert(move_of_row_col(move_row(m), move_col(m)) == m && move_row(m) < 9 && move_col(m) < 9)
        by (bit_vector)
        requires
            m >> 4 < 9,
            m & 0xf < 9,
    ;
}

} // verus!
