//! The bit-packed game state: two players' nine sub-board patterns, the two
//! outer-board patterns, the playable and finished masks and the turn, with
//! the move generator, the move applier and its exact inverse.

use vstd::prelude::*;

use crate::moves::MoveStruct;
use crate::tables::{bit, is_win, valid_win_table};

verus! {

/// The mathematical model of a game state: sequences of 9-bit patterns plus
/// the two masks and the turn.
#[verifier::ext_equal]
pub ghost struct BoardV {
    /// Per player, the nine sub-board occupancy patterns.
    pub mini: Seq<Seq<u16>>,
    /// Per player, the outer-board pattern of won sub-boards.
    pub big: Seq<u16>,
    /// The sub-boards the current mover may play in.
    pub can_play: u16,
    /// The sub-boards no longer open (won by either player, or drawn).
    pub finished: u16,
    /// Whose turn it is: 0 or 1.
    pub turn: int,
}

impl BoardV {
    /// The combined occupancy of sub-board `b`.
    pub open spec fn occ(self, b: int) -> u16 {
        self.mini[0][b] | self.mini[1][b]
    }

    /// Shape well-formedness: lengths and 9-bit ranges.
    pub open spec fn wf(self) -> bool {
        &&& self.mini.len() == 2
        &&& self.mini[0].len() == 9
        &&& self.mini[1].len() == 9
        &&& self.big.len() == 2
        &&& forall|p: int, b: int| 0 <= p < 2 && 0 <= b < 9 ==> #[trigger] self.mini[p][b] < 512
        &&& self.big[0] < 512
        &&& self.big[1] < 512
        &&& self.can_play < 512
        &&& self.finished < 512
        &&& 0 <= self.turn < 2
    }

    /// The invariant that every completed play/cancel cycle preserves: the two
    /// players' patterns are disjoint, a player's outer-board bit is set
    /// exactly for the sub-boards that player has won, the finished mask holds
    /// exactly the won and the drawn sub-boards, and the playable mask is
    /// disjoint from the finished mask.
    pub open spec fn inv(self) -> bool {
        &&& self.wf()
        &&& forall|b: int| 0 <= b < 9 ==> #[trigger] (self.mini[0][b] & self.mini[1][b]) == 0
        &&& forall|p: int, b: int|
            0 <= p < 2 && 0 <= b < 9 ==> (#[trigger] bit(self.big[p], b as u16) <==> is_win(
                self.mini[p][b],
            ))
        &&& forall|b: int|
            0 <= b < 9 ==> (#[trigger] bit(self.finished, b as u16) <==> (is_win(self.mini[0][b])
                || is_win(self.mini[1][b]) || self.occ(b) == 511))
        &&& forall|b: int|
            0 <= b < 9 ==> !((#[trigger] is_win(self.mini[0][b])) && is_win(self.mini[1][b]))
        &&& self.can_play & self.finished == 0
    }
}

/// A sub-board index is set in at most one player's outer board.
pub proof fn lemma_outer_board_exclusive(v: BoardV)
    requires
        v.inv(),
    ensures
        forall|b: int|
            0 <= b < 9 ==> !(#[trigger] bit(v.big[0], b as u16) && bit(v.big[1], b as u16)),
{
}

/// The model of the freshly created state: all bits zero, every sub-board
/// playable, player 0 to move.
pub open spec fn spec_init() -> BoardV {
    BoardV {
        mini: Seq::new(2, |p: int| Seq::new(9, |b: int| 0u16)),
        big: Seq::new(2, |p: int| 0u16),
        can_play: 511,
        finished: 0,
        turn: 0,
    }
}

/// A move byte is legal in a state when its indices are in range, its
/// sub-board is in the playable mask and its cell is empty there.
pub open spec fn legal_move(v: BoardV, m: u8) -> bool {
    &&& (m >> 4) < 9
    &&& (m & 0xf) < 9
    &&& bit(v.can_play, (m >> 4) as u16)
    &&& !bit(v.occ((m >> 4) as int), (m & 0xf) as u16)
}

/// The state after applying move `m`: the mover's cell bit is toggled on;
/// the sub-board is marked finished (and won, on the mover's outer board)
/// when the play completes a line, or finished alone when it fills the
/// sub-board; the next playable mask is the singleton of the move's cell
/// index, or the complement of the finished mask when that sub-board is
/// already finished; and the turn flips.
pub open spec fn spec_play(v: BoardV, m: u8) -> BoardV {
    let b = (m >> 4) as int;
    let c = (m & 0xf) as u16;
    let t = v.turn;
    let pat = v.mini[t][b] ^ (1u16 << c);
    let won = is_win(pat);
    let full = (pat | v.mini[1 - t][b]) == 511;
    let finished2 = if won || full {
        v.finished | (1u16 << (b as u16))
    } else {
        v.finished
    };
    let big2 = if won {
        v.big.update(t, v.big[t] | (1u16 << (b as u16)))
    } else {
        v.big
    };
    let sing = 1u16 << c;
    let can2 = if finished2 & sing != 0 {
        !finished2 & 511
    } else {
        sing
    };
    BoardV {
        mini: v.mini.update(t, v.mini[t].update(b, pat)),
        big: big2,
        can_play: can2,
        finished: finished2,
        turn: 1 - t,
    }
}

/// The state after cancelling move `m` with the pre-move playable-mask
/// snapshot `prev`: the turn flips back, the same cell bit is toggled off in
/// that player's pattern, the finished bit and that player's outer-board bit
/// for the sub-board are cleared, and the playable mask is restored.
pub open spec fn spec_cancel(v: BoardV, m: u8, prev: u16) -> BoardV {
    let b = (m >> 4) as int;
    let c = (m & 0xf) as u16;
    let t = 1 - v.turn;
    let pat = v.mini[t][b] ^ (1u16 << c);
    BoardV {
        mini: v.mini.update(t, v.mini[t].update(b, pat)),
        big: v.big.update(t, v.big[t] & !(1u16 << (b as u16))),
        can_play: prev,
        finished: v.finished & !(1u16 << (b as u16)),
        turn: t,
    }
}

/// Whether playing `m` completes an outer-board line for the mover, ending
/// the game at once.
pub open spec fn wins_outer(v: BoardV, m: u8) -> bool {
    is_win(spec_play(v, m).big[v.turn])
}

/// The moves of sub-board `b` among cells below `n`, ascending: one byte
/// `b << 4 | c` for every empty cell `c`.
pub open spec fn cell_moves_upto(occ: u16, b: u16, n: nat) -> Seq<u8>
    decreases n,
{
    if n == 0 {
        Seq::empty()
    } else {
        cell_moves_upto(occ, b, (n - 1) as nat) + (if !bit(occ, (n - 1) as u16) {
            seq![(((b << 4) | ((n - 1) as u16)) as u8)]
        } else {
            Seq::empty()
        })
    }
}

/// The moves contributed by sub-board `b`: all its empty cells when it is in
/// the playable mask, none otherwise.
pub open spec fn board_moves(v: BoardV, b: u16) -> Seq<u8> {
    if bit(v.can_play, b) {
        cell_moves_upto(v.occ(b as int), b, 9)
    } else {
        Seq::empty()
    }
}

/// The legal moves of the sub-boards below `n`, ascending.
pub open spec fn move_list_upto(v: BoardV, n: nat) -> Seq<u8>
    decreases n,
{
    if n == 0 {
        Seq::empty()
    } else {
        move_list_upto(v, (n - 1) as nat) + board_moves(v, (n - 1) as u16)
    }
}

/// The full legal move list: ascending sub-board index, then ascending cell
/// index.
pub open spec fn spec_move_list(v: BoardV) -> Seq<u8> {
    move_list_upto(v, 9)
}

proof fn lemma_cell_moves_len(occ: u16, b: u16, n: nat)
    ensures
        cell_moves_upto(occ, b, n).len() <= n,
    decreases n,
{
    if n > 0 {
        lemma_cell_moves_len(occ, b, (n - 1) as nat);
    }
}

proof fn lemma_move_list_len(v: BoardV, n: nat)
    requires
        n <= 9,
    ensures
        move_list_upto(v, n).len() <= 9 * n,
    decreases n,
{
    if n > 0 {
        lemma_move_list_len(v, (n - 1) as nat);
        lemma_cell_moves_len(v.occ((n - 1) as int), (n - 1) as u16, 9);
    }
}

/// The move list always fits the 81-slot buffer.
pub proof fn lemma_spec_move_list_len(v: BoardV)
    ensures
        spec_move_list(v).len() <= 81,
{
    lemma_move_list_len(v, 9);
}

/// The value of a packed move byte with sub-board `b` and cell `c`.
proof fn lemma_move_byte(b: u16, c: u16)
    by (bit_vector)
    requires
        b < 9,
        c < 9,
    ensures
        (((b << 4) | c) as u8) as int == 16 * b + c,
        ((((b << 4) | c) as u8) >> 4) as u16 == b,
        ((((b << 4) | c) as u8) & 0xf) as u16 == c,
{
}

proof fn lemma_cell_moves_props(occ: u16, b: u16, n: nat)
    requires
        b < 9,
        n <= 9,
    ensures
        forall|i: int|
            0 <= i < cell_moves_upto(occ, b, n).len() ==> {
                let m = #[trigger] cell_moves_upto(occ, b, n)[i];
                &&& (m >> 4) as u16 == b
                &&& ((m & 0xf) as nat) < n
                &&& !bit(occ, (m & 0xf) as u16)
                &&& 16 * b <= m as int
                &&& (m as int) < 16 * b + n
            },
        forall|c: u16|
            c < n && !bit(occ, c) ==> cell_moves_upto(occ, b, n).contains((((b << 4) | c) as u8)),
        forall|i: int, j: int|
            0 <= i < j < cell_moves_upto(occ, b, n).len() ==> cell_moves_upto(occ, b, n)[i]
                < cell_moves_upto(occ, b, n)[j],
    decreases n,
{
    if n > 0 {
        lemma_cell_moves_props(occ, b, (n - 1) as nat);
        let prev = cell_moves_upto(occ, b, (n - 1) as nat);
        let cur = cell_moves_upto(occ, b, n);
        let cn = (n - 1) as u16;
        lemma_move_byte(b, cn);
        let mv = ((b << 4) | cn) as u8;
        assert forall|c: u16| c < n && !bit(occ, c) implies cur.contains(
            (((b << 4) | c) as u8),
        ) by {
            if c < n - 1 {
                let i = choose|i: int| 0 <= i < prev.len() && prev[i] == (((b << 4) | c) as u8);
                assert(cur[i] == (((b << 4) | c) as u8));
            } else {
                assert(cur[prev.len() as int] == mv);
            }
        }
    }
}

proof fn lemma_move_list_props(v: BoardV, n: nat)
    requires
        v.wf(),
        n <= 9,
    ensures
        forall|i: int|
            0 <= i < move_list_upto(v, n).len() ==> {
                let m = #[trigger] move_list_upto(v, n)[i];
                &&& legal_move(v, m)
                &&& (m as int) < 16 * n
            },
        forall|m: u8|
            legal_move(v, m) && ((m >> 4) as nat) < n ==> move_list_upto(v, n).contains(m),
        forall|i: int, j: int|
            0 <= i < j < move_list_upto(v, n).len() ==> move_list_upto(v, n)[i] < move_list_upto(
                v,
                n,
            )[j],
    decreases n,
{
    if n > 0 {
        lemma_move_list_props(v, (n - 1) as nat);
        let bu = (n - 1) as u16;
        let prev = move_list_upto(v, (n - 1) as nat);
        let cur = move_list_upto(v, n);
        let block = board_moves(v, bu);
        lemma_cell_moves_props(v.occ((n - 1) as int), bu, 9);

        assert forall|i: int| 0 <= i < cur.len() implies {
            let m = #[trigger] cur[i];
            &&& legal_move(v, m)
            &&& (m as int) < 16 * n
        } by {
            if i >= prev.len() {
                let m = block[i - prev.len()];
                assert(bit(v.can_play, bu));
                lemma_move_byte(bu, (m & 0xf) as u16);
            }
        }

        assert forall|m: u8| legal_move(v, m) && ((m >> 4) as nat) < n implies cur.contains(m) by {
            if ((m >> 4) as nat) < n - 1 {
                let i = choose|i: int| 0 <= i < prev.len() && prev[i] == m;
                assert(cur[i] == m);
            } else {
                let c = (m & 0xf) as u16;
                lemma_move_byte(bu, c);
                assert(m == ((bu << 4) | c) as u8) by (bit_vector)
                    requires
                        (m >> 4) as u16 == bu,
                        (m & 0xf) as u16 == c,
                        bu < 9,
                        c < 9,
                ;
                assert(block.contains(m));
                let i = choose|i: int| 0 <= i < block.len() && block[i] == m;
                assert(cur[prev.len() + i] == m);
            }
        }
    }
}

/// Move generation is exact: every generated entry is a legal move, every
/// legal move byte is generated, and the list is strictly ascending in the
/// byte order (sub-board index, then cell index), so it has no duplicates.
pub proof fn lemma_move_list_exact(v: BoardV)
    requires
        v.wf(),
    ensures
        forall|i: int|
            0 <= i < spec_move_list(v).len() ==> legal_move(v, #[trigger] spec_move_list(v)[i]),
        forall|m: u8| legal_move(v, m) ==> spec_move_list(v).contains(m),
        forall|i: int, j: int|
            0 <= i < j < spec_move_list(v).len() ==> spec_move_list(v)[i] < spec_move_list(v)[j],
{
    lemma_move_list_props(v, 9);
    assert forall|m: u8| legal_move(v, m) implies spec_move_list(v).contains(m) by {
        assert(((m >> 4) as nat) < 9);
    }
}

/// The mutable board record of the engine.
#[derive(Debug)]
pub struct Board {
    /// Per player, the nine 9-bit sub-board occupancy patterns.
    pub players_mini_boards: [[u16; 9]; 2],
    /// Per player, the 9-bit pattern of won sub-boards.
    pub players_big_board: [u16; 2],
    /// The 9-bit mask of sub-boards the mover may play in.
    pub mini_board_can_play: u16,
    /// The 9-bit mask of finished (won or drawn) sub-boards.
    pub finished_played_boards: u16,
    /// Whose turn it is: 0 or 1.
    pub player_turn: usize,
}

impl View for Board {
    type V = BoardV;

    open spec fn view(&self) -> BoardV {
        BoardV {
            mini: seq![self.players_mini_boards[0int]@, self.players_mini_boards[1int]@],
            big: self.players_big_board@,
            can_play: self.mini_board_can_play,
            finished: self.finished_played_boards,
            turn: self.player_turn as int,
        }
    }
}

impl Board {
    /// The empty starting position.
    pub fn init() -> (r: Board)
        ensures
            r@ == spec_init(),
            r@.inv(),
    {
        let r = Board {
            players_mini_boards: [[0u16; 9]; 2],
            players_big_board: [0u16; 2],
            mini_board_can_play: 0b111111111,
            finished_played_boards: 0,
            player_turn: 0,
        };
        proof {
            assert(r@ =~~= spec_init());
            assert(forall|x: u16| x < 512 ==> ((#[trigger] bit(0u16, x)) == false))
                by (bit_vector);
            assert(!is_win(0u16)) by (bit_vector);
            assert(511u16 & 0u16 == 0) by (bit_vector);
            assert(0u16 | 0u16 == 0 && 0u16 & 0u16 == 0) by (bit_vector);
        }
        r
    }

    /// The 9-bit set of empty cells of sub-board `board_index`.
    pub fn get_moves_bitmap(&self, board_index: usize) -> (r: u16)
        requires
            self@.wf(),
            board_index < 9,
        ensures
            r == !self@.occ(board_index as int) & 511,
            r < 512,
    {
        let bitmap_board = self.players_mini_boards[0][board_index]
            | self.players_mini_boards[1][board_index];
        proof {
            let o = self@.occ(board_index as int);
            assert((!o & 511) < 512) by (bit_vector);
        }
        !bitmap_board & 0b111111111
    }

    /// Writes every legal move into `moves`, ascending by sub-board index and
    /// then by cell index; the slots' previous scores are kept.
    pub fn get_moves(&self, moves: &mut MoveStruct)
        requires
            self@.inv(),
        ensures
            final(moves).live() == spec_move_list(self@),
            final(moves).index <= 81,
            forall|i: int| 0 <= i < 81 ==> final(moves).moves@[i].1 == old(moves).moves@[i].1,
    {
        moves.reset();
        let mut b: u16 = 0;
        while b < 9
            invariant
                b <= 9,
                moves.live() == move_list_upto(self@, b as nat),
                moves.index <= 9 * b,
                forall|i: int| 0 <= i < 81 ==> moves.moves@[i].1 == old(moves).moves@[i].1,
            decreases 9 - b,
        {
            proof {
                lemma_move_list_len(self@, b as nat);
            }
            if (self.mini_board_can_play >> b) & 1 == 1 {
                let bitmap = self.get_moves_bitmap(b as usize);
                let ghost occ = self@.occ(b as int);
                let mut c: u16 = 0;
                while c < 9
                    invariant
                        b < 9,
                        c <= 9,
                        bit(self@.can_play, b),
                        bitmap == !occ & 511,
                        occ == self@.occ(b as int),
                        moves.live() == move_list_upto(self@, b as nat) + cell_moves_upto(
                            occ,
                            b,
                            c as nat,
                        ),
                        moves.index <= 9 * b + c,
                        forall|i: int| 0 <= i < 81 ==> moves.moves@[i].1 == old(moves).moves@[i].1,
                    decreases 9 - c,
                {
                    proof {
                        lemma_move_list_len(self@, b as nat);
                        lemma_cell_moves_len(occ, b, c as nat);
                        assert(((!occ & 511) >> c) & 1 == 1 <==> !bit(occ, c)) by (bit_vector)
                            requires
                                c < 9,
                        ;
                    }
                    if (bitmap >> c) & 1 == 1 {
                        let mv = ((b << 4) | c) as u8;
                        moves.push(mv);
                        proof {
                            assert(moves.live() =~= move_list_upto(self@, b as nat)
                                + cell_moves_upto(occ, b, (c + 1) as nat));
                        }
                    } else {
                        proof {
                            assert(moves.live() =~= move_list_upto(self@, b as nat)
                                + cell_moves_upto(occ, b, (c + 1) as nat));
                        }
                    }
                    c = c + 1;
                }
                proof {
                    assert(moves.live() =~= move_list_upto(self@, (b + 1) as nat));
                }
            } else {
                proof {
                    assert(!bit(self@.can_play, b)) by {
                        assert((self@.can_play >> b) & 1 != 1 ==> !bit(self@.can_play, b));
                    }
                    assert(moves.live() =~= move_list_upto(self@, (b + 1) as nat));
                }
            }
            b = b + 1;
        }
    }

    /// Whether the current mover has completed a line in sub-board
    /// `board_index`.
    pub fn is_mini_board_winning(&self, win: &Vec<bool>, board_index: usize) -> (r: bool)
        requires
            self@.wf(),
            valid_win_table(win@),
            board_index < 9,
        ensures
            r == is_win(self@.mini[self@.turn][board_index as int]),
    {
        let board = self.players_mini_boards[self.player_turn][board_index];
        win[board as usize]
    }

    /// Whether the opponent of the current mover has completed a line on the
    /// outer board, i.e. whether the player who just moved has won.
    pub fn is_losing(&self, win: &Vec<bool>) -> (r: bool)
        requires
            self@.wf(),
            valid_win_table(win@),
        ensures
            r == is_win(self@.big[1 - self@.turn]),
    {
        let board = self.players_big_board[1 - self.player_turn];
        win[board as usize]
    }

    /// Applies a legal move: exactly the transition `spec_play` describes.
    /// The invariant is preserved.
    pub fn play_move(&mut self, win: &Vec<bool>, mv: u8)
        requires
            old(self)@.inv(),
            valid_win_table(win@),
            legal_move(old(self)@, mv),
        ensures
            final(self)@ == spec_play(old(self)@, mv),
            final(self)@.inv(),
    {
        let ghost v = self@;
        let board_index = (mv >> 4) as usize;
        let move_index = mv & 0b1111;
        let t = self.player_turn;

        let mut row = self.players_mini_boards[t];
        row[board_index] = row[board_index] ^ (1u16 << (move_index as u16));
        self.players_mini_boards[t] = row;

        let ghost pat = v.mini[t as int][board_index as int] ^ (1u16 << (move_index as u16));
        proof {
            assert(self@.mini =~= v.mini.update(
                t as int,
                v.mini[t as int].update(board_index as int, pat),
            ));
            let mine = v.mini[t as int][board_index as int];
            let theirs = v.mini[(1 - t) as int][board_index as int];
            assert((v.mini[0][board_index as int] & v.mini[1][board_index as int]) == 0);
            assert(mine & theirs == theirs & mine && (mine | theirs) == (theirs | mine))
                by (bit_vector);
            lemma_play_bits(mine, theirs, move_index as u16);
        }

        let board = self.players_mini_boards[t][board_index] | self.players_mini_boards[1
            - t][board_index];
        if self.is_mini_board_winning(win, board_index) {
            self.finished_played_boards = self.finished_played_boards | (1u16 << (board_index
                as u16));
            let big = self.players_big_board[t] | (1u16 << (board_index as u16));
            self.players_big_board[t] = big;
        } else if board == 0b111111111 {
            self.finished_played_boards = self.finished_played_boards | (1u16 << (board_index
                as u16));
        }

        self.mini_board_can_play = 1u16 << (move_index as u16);
        if self.finished_played_boards & self.mini_board_can_play != 0 {
            self.mini_board_can_play = !self.finished_played_boards & 0b111111111;
        }

        self.player_turn = 1 - t;

        proof {
            assert(self@ =~~= spec_play(v, mv));
            lemma_play_preserves_inv(v, mv);
        }
    }

    /// Cancels a move: exactly the transition `spec_cancel` describes, with
    /// `mini_board_can_play` the caller's pre-move snapshot of the playable
    /// mask.
    pub fn cancel_move(&mut self, mv: u8, mini_board_can_play: u16)
        requires
            old(self)@.wf(),
            (mv >> 4) < 9,
            (mv & 0xf) < 9,
        ensures
            final(self)@ == spec_cancel(old(self)@, mv, mini_board_can_play),
    {
        let ghost v = self@;
        let board_index = (mv >> 4) as usize;
        let move_index = mv & 0b1111;

        self.player_turn = 1 - self.player_turn;
        let t = self.player_turn;

        let mut row = self.players_mini_boards[t];
        row[board_index] = row[board_index] ^ (1u16 << (move_index as u16));
        self.players_mini_boards[t] = row;

        let f = self.finished_played_boards;
        self.finished_played_boards = f & (f ^ (1u16 << (board_index as u16)));
        let g = self.players_big_board[t];
        self.players_big_board[t] = g & (g ^ (1u16 << (board_index as u16)));

        self.mini_board_can_play = mini_board_can_play;

        proof {
            assert(f & (f ^ (1u16 << (board_index as u16))) == f & !(1u16 << (board_index as u16)))
                by (bit_vector);
            assert(g & (g ^ (1u16 << (board_index as u16))) == g & !(1u16 << (board_index as u16)))
                by (bit_vector);
            assert(self@ =~~= spec_cancel(v, mv, mini_board_can_play));
        }
    }
}

/// Range and disjointness facts about a single toggled cell bit.
proof fn lemma_play_bits(mine: u16, theirs: u16, c: u16)
    by (bit_vector)
    requires
        mine < 512,
        theirs < 512,
        c < 9,
        mine & theirs == 0,
        !(((mine | theirs) >> c) & 1 == 1),
    ensures
        (mine ^ (1u16 << c)) < 512,
        (mine ^ (1u16 << c)) == (mine | (1u16 << c)),
        (mine ^ (1u16 << c)) & theirs == 0,
{
}

/// Applying a legal move preserves the board invariant.
pub proof fn lemma_play_preserves_inv(v: BoardV, m: u8)
    requires
        v.inv(),
        legal_move(v, m),
    ensures
        spec_play(v, m).inv(),
{
    let b = (m >> 4) as int;
    let c = (m & 0xf) as u16;
    let t = v.turn;
    let mine = v.mini[t][b];
    let theirs = v.mini[1 - t][b];
    let cp = v.can_play;
    let fin = v.finished;
    let bigt = v.big[t];
    let pat = mine ^ (1u16 << c);
    let after = spec_play(v, m);
    let bu = b as u16;

    // The played sub-board was not finished, so neither player had won it and
    // it was not full.
    assert(bit(cp, bu) && cp & fin == 0 ==> !bit(fin, bu)) by (bit_vector);
    assert(!bit(fin, bu));

    assert((v.mini[0][b] & v.mini[1][b]) == 0);
    assert(mine & theirs == theirs & mine && (mine | theirs) == (theirs | mine)) by (bit_vector);
    lemma_play_bits(mine, theirs, c);

    let won = is_win(pat);
    let full = (pat | theirs) == 511;
    let fin2 = after.finished;
    let sing = 1u16 << c;

    // Shape.
    assert(fin | (1u16 << bu) < 512 && bigt | (1u16 << bu) < 512 && (1u16 << c) < 512) by (
    bit_vector)
        requires
            fin < 512,
            bigt < 512,
            c < 9,
            bu < 9,
    ;
    assert((!fin2 & 511) < 512) by (bit_vector);
    assert(after.wf());

    // Playable mask disjoint from finished mask.
    assert((!fin2 & 511) & fin2 == 0) by (bit_vector);
    assert(fin2 & sing == sing & fin2) by (bit_vector);
    assert(fin2 & sing != 0 ==> after.can_play & after.finished == 0);
    assert(fin2 & sing == 0 ==> after.can_play & after.finished == 0);

    // Per-sub-board clauses.
    assert forall|b2: int| 0 <= b2 < 9 implies #[trigger] (after.mini[0][b2] & after.mini[1][b2])
        == 0 by {
        if b2 == b {
            assert(pat & theirs == theirs & pat) by (bit_vector);
        } else {
            assert(after.mini[0][b2] == v.mini[0][b2] && after.mini[1][b2] == v.mini[1][b2]);
        }
    }

    assert forall|p: int, b2: int| 0 <= p < 2 && 0 <= b2 < 9 implies (#[trigger] bit(
        after.big[p],
        b2 as u16,
    ) <==> is_win(after.mini[p][b2])) by {
        let b2u = b2 as u16;
        if won {
            assert(bit(bigt | (1u16 << bu), b2u) == if b2u == bu {
                true
            } else {
                bit(bigt, b2u)
            }) by (bit_vector)
                requires
                    bu < 9,
                    b2u < 9,
            ;
        }
        assert(bit(v.big[p], b2u) <==> is_win(v.mini[p][b2]));
    }

    assert forall|b2: int| 0 <= b2 < 9 implies (#[trigger] bit(after.finished, b2 as u16) <==> (
    is_win(after.mini[0][b2]) || is_win(after.mini[1][b2]) || after.occ(b2) == 511)) by {
        let b2u = b2 as u16;
        if won || full {
            assert(bit(fin | (1u16 << bu), b2u) == if b2u == bu {
                true
            } else {
                bit(fin, b2u)
            }) by (bit_vector)
                requires
                    bu < 9,
                    b2u < 9,
            ;
        }
        assert(bit(v.finished, b2u) <==> (is_win(v.mini[0][b2]) || is_win(v.mini[1][b2]) || v.occ(
            b2,
        ) == 511));
        if b2 == b {
            // The sub-board was open, so neither side had won it and it was
            // not full; afterwards it is finished exactly when the play wins
            // or fills it.
            assert(!is_win(theirs));
            if t == 0 {
                assert(after.occ(b) == (pat | theirs));
            } else {
                assert(after.occ(b) == (theirs | pat));
                assert(theirs | pat == pat | theirs) by (bit_vector);
            }
        }
    }
}

/// Terminal detection: a legal play that completes a line in its sub-board
/// marks that sub-board finished and won on the mover's outer board; one that
/// fills the sub-board without completing a line marks it finished with no
/// winner on either outer board; otherwise the sub-board stays open.
pub proof fn lemma_terminal_detection(v: BoardV, m: u8)
    requires
        v.inv(),
        legal_move(v, m),
    ensures
        ({
            let after = spec_play(v, m);
            let b = (m >> 4) as int;
            let bu = (m >> 4) as u16;
            let pat = after.mini[v.turn][b];
            &&& (is_win(pat) ==> bit(after.finished, bu) && bit(after.big[v.turn], bu))
            &&& (!is_win(pat) && after.occ(b) == 511 ==> bit(after.finished, bu) && !bit(
                after.big[0],
                bu,
            ) && !bit(after.big[1], bu))
            &&& (!is_win(pat) && after.occ(b) != 511 ==> !bit(after.finished, bu))
        }),
{
    lemma_play_preserves_inv(v, m);
    let after = spec_play(v, m);
    let b = (m >> 4) as int;
    let bu = (m >> 4) as u16;
    let t = v.turn;
    let cp = v.can_play;
    let fin = v.finished;
    assert(bit(cp, bu) && cp & fin == 0 ==> !bit(fin, bu)) by (bit_vector);
    assert(!bit(fin, bu));
    assert(!is_win(v.mini[1 - t][b]));
    assert(after.mini[1 - t][b] == v.mini[1 - t][b]);
    assert(bit(after.finished, bu) <==> (is_win(after.mini[0][b]) || is_win(after.mini[1][b])
        || after.occ(b) == 511));
}

/// Routing rule: after a legal play of cell index c, when sub-board c is not
/// finished the playable mask is exactly the singleton {c}; when sub-board c
/// is finished the playable mask is the full complement of the finished mask.
pub proof fn lemma_routing(v: BoardV, m: u8)
    requires
        v.inv(),
        legal_move(v, m),
    ensures
        ({
            let after = spec_play(v, m);
            let c = (m & 0xf) as u16;
            &&& (!bit(after.finished, c) ==> after.can_play == (1u16 << c))
            &&& (bit(after.finished, c) ==> after.can_play == !after.finished & 511)
        }),
{
    let after = spec_play(v, m);
    let fin2 = after.finished;
    let c = (m & 0xf) as u16;
    assert((fin2 & (1u16 << c) != 0) == bit(fin2, c)) by (bit_vector)
        requires
            c < 9,
    ;
}

/// Make/unmake round trip: cancelling a just-played legal move with the
/// pre-move playable-mask snapshot restores the state bit for bit.
pub proof fn lemma_play_cancel(v: BoardV, m: u8)
    requires
        v.inv(),
        legal_move(v, m),
    ensures
        spec_cancel(spec_play(v, m), m, v.can_play) == v,
{
    let b = (m >> 4) as int;
    let c = (m & 0xf) as u16;
    let t = v.turn;
    let bu = b as u16;
    let mine = v.mini[t][b];
    let cp = v.can_play;
    let fin = v.finished;
    let bigt = v.big[t];
    let pat = mine ^ (1u16 << c);
    let after = spec_play(v, m);
    let back = spec_cancel(after, m, v.can_play);

    assert(bit(cp, bu) && cp & fin == 0 ==> !bit(fin, bu)) by (bit_vector);
    assert(!bit(fin, bu));
    assert(!is_win(mine));
    assert(!bit(bigt, bu));

    // Toggling the same cell twice restores the pattern.
    assert((mine ^ (1u16 << c)) ^ (1u16 << c) == mine) by (bit_vector);
    assert(back.mini =~~= v.mini);

    // Clearing the finished bit restores the old mask, whether or not the
    // play set it: it was clear before the play.
    assert(!bit(fin, bu) ==> (fin | (1u16 << bu)) & !(1u16 << bu) == fin && fin & !(1u16 << bu)
        == fin) by (bit_vector)
        requires
            bu < 9,
    ;
    assert(back.finished == v.finished);

    // Likewise for the mover's outer-board bit.
    assert(!bit(bigt, bu) ==> (bigt | (1u16 << bu)) & !(1u16 << bu) == bigt && bigt & !(1u16 << bu)
        == bigt) by (bit_vector)
        requires
            bu < 9,
    ;
    assert(back.big =~= v.big);

    assert(back =~~= v);
}

} // verus!
