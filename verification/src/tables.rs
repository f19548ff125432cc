//! The two precomputed lookup tables: the 512-entry sub-board win table and
//! the 262144-entry positional score table, together with the spec functions
//! that say exactly what each entry holds.

use vstd::prelude::*;

verus! {

/// A 9-bit occupancy pattern wins iff it contains one of the eight
/// three-in-a-row line masks of the 3x3 grid (bit index = row * 3 + col).
pub open spec fn is_win(b: u16) -> bool {
    ||| b & 0b000000111 == 0b000000111
    ||| b & 0b000111000 == 0b000111000
    ||| b & 0b111000000 == 0b111000000
    ||| b & 0b001001001 == 0b001001001
    ||| b & 0b010010010 == 0b010010010
    ||| b & 0b100100100 == 0b100100100
    ||| b & 0b100010001 == 0b100010001
    ||| b & 0b001010100 == 0b001010100
}

/// Whether bit `i` of `x` is set.
pub open spec fn bit(x: u16, i: u16) -> bool {
    (x >> i) & 1 == 1
}

/// The win table holds `is_win` of every 9-bit pattern.
pub open spec fn valid_win_table(t: Seq<bool>) -> bool {
    &&& t.len() == 512
    &&& forall|b: int| 0 <= b < 512 ==> t[b] == is_win(b as u16)
}

/// Builds the win table: entry `p` is true iff pattern `p` contains a
/// completed line. The body uses the branchless row/column folds of the
/// bit-packed representation; the contract states the plain line check.
pub fn are_boards_winning() -> (r: Vec<bool>)
    ensures
        valid_win_table(r@),
{
    let mut results: Vec<bool> = Vec::new();
    let mut board: u16 = 0;
    while board < 512
        invariant
            board <= 512,
            results@.len() == board as int,
            forall|b: int| 0 <= b < board as int ==> results@[b] == is_win(b as u16),
        decreases 512 - board,
    {
        let winning = (board & board >> 1 & board >> 2) & 0b001001001 != 0
            || (board & board >> 3 & board >> 6) != 0
            || board & 0b100010001 == 0b100010001
            || board & 0b001010100 == 0b001010100;
        proof {
            assert(((board & board >> 1 & board >> 2) & 0b001001001 != 0
                || (board & board >> 3 & board >> 6) != 0
                || board & 0b100010001 == 0b100010001
                || board & 0b001010100 == 0b001010100) == is_win(board)) by (bit_vector)
                requires
                    board < 512,
            ;
        }
        results.push(winning);
        board = board + 1;
    }
    results
}

/// Number of set bits among the low `n` bits of `x`.
pub open spec fn popcount_upto(x: u16, n: nat) -> nat
    decreases n,
{
    if n == 0 {
        0
    } else {
        popcount_upto(x, (n - 1) as nat) + (if bit(x, (n - 1) as u16) {
            1nat
        } else {
            0nat
        })
    }
}

/// Number of set bits among the 9 cell bits of a sub-board pattern.
pub open spec fn popcount9(x: u16) -> nat {
    popcount_upto(x, 9)
}

/// Counts the set bits among the low 9 bits of `x`.
pub fn count_cells(x: u16) -> (n: u32)
    ensures
        n == popcount9(x),
        n <= 9,
{
    let mut n: u32 = 0;
    let mut i: u16 = 0;
    while i < 9
        invariant
            i <= 9,
            n == popcount_upto(x, i as nat),
            n <= i,
        decreases 9 - i,
    {
        if (x >> i) & 1 == 1 {
            n = n + 1;
        }
        i = i + 1;
    }
    n
}

/// The nonlinear bonus for holding 0, 1, 2 or 3 cells of a contestable line.
pub open spec fn line_bonus(n: nat) -> int {
    if n == 0 {
        0
    } else if n == 1 {
        1
    } else if n == 2 {
        4
    } else {
        16
    }
}

/// Looks up `line_bonus` for a cell count.
pub fn line_bonus_for(n: u32) -> (r: i32)
    ensures
        r == line_bonus(n as nat),
        0 <= r <= 16,
{
    if n == 0 {
        0
    } else if n == 1 {
        1
    } else if n == 2 {
        4
    } else {
        16
    }
}

/// The eight line masks, in the fixed order used by the score table.
pub open spec fn line_mask(i: int) -> u16 {
    if i == 0 {
        0b000000111
    } else if i == 1 {
        0b000111000
    } else if i == 2 {
        0b111000000
    } else if i == 3 {
        0b001001001
    } else if i == 4 {
        0b010010010
    } else if i == 5 {
        0b100100100
    } else if i == 6 {
        0b100010001
    } else {
        0b001010100
    }
}

/// Returns the `i`-th line mask.
pub fn line_mask_at(i: usize) -> (r: u16)
    requires
        i < 8,
    ensures
        r == line_mask(i as int),
{
    if i == 0 {
        0b000000111
    } else if i == 1 {
        0b000111000
    } else if i == 2 {
        0b111000000
    } else if i == 3 {
        0b001001001
    } else if i == 4 {
        0b010010010
    } else if i == 5 {
        0b100100100
    } else if i == 6 {
        0b100010001
    } else {
        0b001010100
    }
}

/// The contribution of line `i` to the score of (player, opponent): the
/// player's bonus when the opponent has no cell on the line, minus the
/// opponent's bonus when the player has no cell on the line.
pub open spec fn line_score(player: u16, opponent: u16, i: int) -> int {
    (if opponent & line_mask(i) == 0 {
        line_bonus(popcount9(player & line_mask(i)))
    } else {
        0
    }) - (if player & line_mask(i) == 0 {
        line_bonus(popcount9(opponent & line_mask(i)))
    } else {
        0
    })
}

/// Partial sum of `line_score` over the first `n` lines.
pub open spec fn score_upto(player: u16, opponent: u16, n: nat) -> int
    decreases n,
{
    if n == 0 {
        0
    } else {
        score_upto(player, opponent, (n - 1) as nat) + line_score(player, opponent, (n - 1) as int)
    }
}

/// The positional score of a (player, opponent) pattern pair: the sum of
/// `line_score` over all eight lines.
pub open spec fn position_score(player: u16, opponent: u16) -> int {
    score_upto(player, opponent, 8)
}

proof fn lemma_score_upto_bounds(player: u16, opponent: u16, n: nat)
    requires
        n <= 8,
    ensures
        -16 * n <= score_upto(player, opponent, n) <= 16 * n,
    decreases n,
{
    if n > 0 {
        lemma_score_upto_bounds(player, opponent, (n - 1) as nat);
    }
}

/// The score of every pattern pair lies in [-128, 128].
pub proof fn lemma_position_score_bounds(player: u16, opponent: u16)
    ensures
        -128 <= position_score(player, opponent) <= 128,
{
    lemma_score_upto_bounds(player, opponent, 8);
}

/// The row of the score table that holds the pair (player, opponent).
pub open spec fn table_index(player: int, opponent: int) -> int {
    player * 512 + opponent
}

/// The score table holds `position_score` of every pattern pair, indexed by
/// the pair packed as player * 512 + opponent.
pub open spec fn valid_score_table(t: Seq<i32>) -> bool {
    &&& t.len() == 262144
    &&& forall|p: int, o: int|
        0 <= p < 512 && 0 <= o < 512 ==> t[#[trigger] table_index(p, o)] == position_score(
            p as u16,
            o as u16,
        )
    &&& forall|i: int| 0 <= i < t.len() ==> -128 <= #[trigger] t[i] <= 128
}

/// Builds the positional score table over all pairs of 9-bit patterns.
pub fn scores_by_position() -> (r: Vec<i32>)
    ensures
        valid_score_table(r@),
{
    let mut scores: Vec<i32> = Vec::new();
    let mut player: u16 = 0;
    while player < 512
        invariant
            player <= 512,
            scores@.len() == player as int * 512,
            forall|p: int, o: int|
                0 <= p < player as int && 0 <= o < 512 ==> scores@[#[trigger] table_index(p, o)]
                    == position_score(p as u16, o as u16),
            forall|i: int| 0 <= i < scores@.len() ==> -128 <= #[trigger] scores@[i] <= 128,
        decreases 512 - player,
    {
        let mut opponent: u16 = 0;
        while opponent < 512
            invariant
                opponent <= 512,
                player < 512,
                scores@.len() == player as int * 512 + opponent as int,
                forall|p: int, o: int|
                    0 <= p < player as int && 0 <= o < 512 ==> scores@[#[trigger] table_index(p, o)]
                        == position_score(p as u16, o as u16),
                forall|o: int|
                    0 <= o < opponent as int ==> scores@[#[trigger] table_index(
                        player as int,
                        o,
                    )] == position_score(player, o as u16),
                forall|i: int| 0 <= i < scores@.len() ==> -128 <= #[trigger] scores@[i] <= 128,
            decreases 512 - opponent,
        {
            let mut s: i32 = 0;
            let mut i: usize = 0;
            while i < 8
                invariant
                    i <= 8,
                    s == score_upto(player, opponent, i as nat),
                    -16 * i as int <= s <= 16 * i as int,
                decreases 8 - i,
            {
                let mask = line_mask_at(i);
                if opponent & mask == 0 {
                    s = s + line_bonus_for(count_cells(player & mask));
                }
                if player & mask == 0 {
                    s = s - line_bonus_for(count_cells(opponent & mask));
                }
                i = i + 1;
            }
            scores.push(s);
            opponent = opponent + 1;
        }
        player = player + 1;
    }
    scores
}

/// Reads the score table entry of the pair (player, opponent), packed as in
/// the bit-packed board representation.
pub fn score_at(scores: &Vec<i32>, player: u16, opponent: u16) -> (r: i32)
    requires
        valid_score_table(scores@),
        player < 512,
        opponent < 512,
    ensures
        r == position_score(player, opponent),
        -128 <= r <= 128,
{
    let idx: usize = ((player as usize) << 9) | (opponent as usize);
    proof {
        assert(((player as usize) << 9) | (opponent as usize) == player as usize * 512
            + opponent as usize) by (bit_vector)
            requires
                player < 512,
                opponent < 512,
        ;
        assert(table_index(player as int, opponent as int) == idx as int);
    }
    scores[idx]
}

} // verus!
