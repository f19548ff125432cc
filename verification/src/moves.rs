//! The reusable fixed-capacity move buffer: 81 slots of (move byte, score),
//! filled by the move generator and scored by the search driver.

use vstd::prelude::*;

verus! {

/// A fixed-capacity buffer of moves with their scores. Capacity 81 covers the
/// worst case of 9 sub-boards times 9 cells; `index` counts the live entries.
#[derive(Debug, Copy, Clone)]
pub struct MoveStruct {
    pub moves: [(u8, i32); 81],
    pub index: u8,
}

impl MoveStruct {
    /// The sequence of live move bytes, in the order they were pushed.
    pub open spec fn live(self) -> Seq<u8> {
        Seq::new(self.index as nat, |i: int| self.moves@[i].0)
    }

    /// A fresh buffer with no live entries and zeroed slots.
    pub fn init() -> (r: MoveStruct)
        ensures
            r.index == 0,
            forall|i: int| 0 <= i < 81 ==> r.moves@[i].1 == 0,
    {
        MoveStruct { moves: [(0u8, 0i32); 81], index: 0 }
    }

    /// Empties the buffer; the slots keep their previous contents.
    pub fn reset(&mut self)
        ensures
            final(self).index == 0,
            final(self).moves == old(self).moves,
    {
        self.index = 0;
    }

    /// Appends a move byte; the slot keeps its previous score.
    pub fn push(&mut self, mv: u8)
        requires
            old(self).index < 81,
        ensures
            final(self).index == old(self).index + 1,
            final(self).moves@ == old(self).moves@.update(
                old(self).index as int,
                (mv, old(self).moves@[old(self).index as int].1),
            ),
            final(self).live() == old(self).live().push(mv),
    {
        let i = self.index as usize;
        let prev_score = self.moves[i].1;
        self.moves[i] = (mv, prev_score);
        self.index = self.index + 1;
        proof {
            assert(self.live() =~= old(self).live().push(mv));
        }
    }
}

} // verus!
