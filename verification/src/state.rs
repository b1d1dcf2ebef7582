//! The board state: occupancy word, availability word, and placement history.

use vstd::prelude::*;

use crate::pieces::PieceType;

verus! {

/// How many pieces the inventory holds.
pub const NUM_PIECES: usize = 9;

/// The availability word with every inventory flag set.
pub const ALL_PIECES: u16 = 0x1FF;

/// Cells outside the playable 6x6 area, permanently occupied so that no
/// placement can wrap across a row boundary when shifted.
pub const BORDER: u64 = 0xFFFF_C0C0_C0C0_C0C0;

/// 1 when the flag bit `m` is set in `a`, else 0.
pub open spec fn one_if(a: u16, m: u16) -> int {
    if a & m != 0 {
        1
    } else {
        0
    }
}

/// How many of the nine inventory flags are set in the availability word.
pub open spec fn avail_count(a: u16) -> int {
    one_if(a, 1) + one_if(a, 2) + one_if(a, 4) + one_if(a, 8) + one_if(a, 16) + one_if(a, 32)
        + one_if(a, 64) + one_if(a, 128) + one_if(a, 256)
}

/// Clearing a flag that is set lowers the availability count by one, lowers
/// the word itself, and is undone exactly by setting the flag again.
pub proof fn lemma_clear_flag(a: u16, f: u16)
    requires
        f == 1 || f == 2 || f == 4 || f == 8 || f == 16 || f == 32 || f == 64 || f == 128 || f
            == 256,
        a & f != 0,
    ensures
        avail_count(a & !f) == avail_count(a) - 1,
        (a & !f) < a,
        (a & !f) & f == 0,
        (a & !f) | f == a,
        a & !ALL_PIECES == 0 ==> (a & !f) & !ALL_PIECES == 0,
{
    assert(((f == 1 || f == 2 || f == 4 || f == 8 || f == 16 || f == 32 || f == 64 || f == 128 || f
        == 256) && a & f != 0) ==> (avail_count(a & !f) == avail_count(a) - 1 && (a & !f) < a && (a
        & !f) & f == 0 && ((a & !f) | f) == a && (a & !0x1FFu16 == 0 ==> (a & !f) & !0x1FFu16
        == 0))) by (bit_vector);
}

/// The availability count of the full inventory is nine, and only the empty
/// word has count zero.
pub proof fn lemma_avail_count_bounds(a: u16)
    ensures
        avail_count(ALL_PIECES) == 9,
        a == 0 ==> avail_count(a) == 0,
        a & !ALL_PIECES == 0 && avail_count(a) == 0 ==> a == 0,
        0 <= avail_count(a) <= 9,
{
    assert(avail_count(0x1FFu16) == 9 && (a == 0 ==> avail_count(a) == 0) && ((a & !0x1FFu16 == 0
        && avail_count(a) == 0) ==> a == 0) && 0 <= avail_count(a) <= 9) by (bit_vector);
}

/// The flag of every piece type is one of the nine inventory bits.
pub proof fn lemma_flag_is_inventory_bit(t: PieceType)
    ensures
        t.spec_flag() == 1 || t.spec_flag() == 2 || t.spec_flag() == 4 || t.spec_flag() == 8
            || t.spec_flag() == 16 || t.spec_flag() == 32 || t.spec_flag() == 64 || t.spec_flag()
            == 128 || t.spec_flag() == 256,
{
}

/// A snapshot of one search: which cells are occupied, which pieces remain
/// unused, and the patterns placed so far in order.
#[derive(Debug, Clone)]
pub struct GameState {
    /// 64-bit occupancy mask; a set bit is a cell covered by the border, a
    /// blocker, or a placed piece.
    pub board: u64,
    /// One flag per piece type still unused; the search reads and writes it
    /// through the methods below.
    pub available_pieces: u16,
    /// The placement patterns applied so far, in order of placement.
    pub history: Vec<u64>,
}

impl GameState {
    /// The availability word: one flag per piece type still unused.
    pub open spec fn avail(self) -> u16 {
        self.available_pieces
    }

    /// Invariant between search steps: only inventory flags are set, and the
    /// history holds one entry per piece already used.
    pub open spec fn wf(self) -> bool {
        self.avail() & !ALL_PIECES == 0 && self.history@.len() + avail_count(self.avail())
            == NUM_PIECES
    }

    /// A fresh board: the blocker mask is forced occupied on top of the
    /// border, every piece is available, and nothing has been placed.
    pub fn new(blocker_mask: u64) -> (r: GameState)
        ensures
            r.board == blocker_mask | BORDER,
            r.avail() == ALL_PIECES,
            r.history@ == Seq::<u64>::empty(),
            r.wf(),
    {
        let r = GameState {
            board: blocker_mask | BORDER,
            available_pieces: ALL_PIECES,
            history: Vec::new(),
        };
        proof {
            lemma_avail_count_bounds(ALL_PIECES);
            assert(ALL_PIECES & !ALL_PIECES == 0) by (bit_vector);
        }
        r
    }

    /// The occupancy mask.
    pub fn board(&self) -> (r: u64)
        ensures
            r == self.board,
    {
        self.board
    }

    /// A copy of the placement history, in order of placement.
    pub fn history(&self) -> (r: Vec<u64>)
        ensures
            r@ == self.history@,
    {
        let mut r: Vec<u64> = Vec::new();
        let mut i: usize = 0;
        while i < self.history.len()
            invariant
                i <= self.history@.len(),
                r@ == self.history@.subrange(0, i as int),
            decreases self.history@.len() - i,
        {
            r.push(self.history[i]);
            i = i + 1;
        }
        proof {
            assert(self.history@.subrange(0, self.history@.len() as int) =~= self.history@);
        }
        r
    }

    /// True iff no inventory flag remains set: every piece has been placed.
    pub fn is_solved(&self) -> (r: bool)
        ensures
            r == (self.avail() == 0),
    {
        self.available_pieces == 0
    }

    /// Clears the piece's availability flag.
    pub fn mark_piece_as_used(&mut self, piece_type: PieceType)
        ensures
            final(self).board == old(self).board,
            final(self).history == old(self).history,
            final(self).avail() == old(self).avail() & !piece_type.spec_flag(),
    {
        self.available_pieces = self.available_pieces & !piece_type.flag();
    }

    /// Sets the piece's availability flag, undoing a prior use.
    pub fn mark_piece_as_available(&mut self, piece_type: PieceType)
        ensures
            final(self).board == old(self).board,
            final(self).history == old(self).history,
            final(self).avail() == old(self).avail() | piece_type.spec_flag(),
    {
        self.available_pieces = self.available_pieces | piece_type.flag();
    }

    /// True iff the piece's availability flag is set.
    pub fn is_available(&self, piece_type: PieceType) -> (r: bool)
        ensures
            r == (self.avail() & piece_type.spec_flag() != 0),
    {
        self.available_pieces & piece_type.flag() != 0
    }
}

} // verus!
