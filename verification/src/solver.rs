//! The search engine: depth-first backtracking over a board state, placing
//! and unplacing catalog pieces at the leftmost empty cell.

use vstd::prelude::*;

use crate::pieces::{piece_order, Piece};
use crate::state::{
    lemma_avail_count_bounds, lemma_clear_flag, lemma_flag_is_inventory_bit, GameState, NUM_PIECES,
};

verus! {

/// The cells jointly occupied by a sequence of placement patterns.
pub open spec fn or_all(s: Seq<u64>) -> u64
    decreases s.len(),
{
    if s.len() == 0 {
        0u64
    } else {
        s[0] | or_all(s.subrange(1, s.len() as int))
    }
}

/// Removing a pattern from a board it was OR-ed onto restores the board,
/// provided it did not overlap.
proof fn lemma_place_undo(b: u64, p: u64)
    requires
        b & p == 0,
    ensures
        (b | p) & !p == b,
{
    assert(b & p == 0 ==> ((b | p) & !p) == b) by (bit_vector);
}

/// OR-ing is associative, and OR-ing nothing changes nothing.
proof fn lemma_or_facts(a: u64, b: u64, c: u64)
    ensures
        (a | (b | c)) == ((a | b) | c),
        a | 0u64 == a,
{
    assert((a | (b | c)) == ((a | b) | c) && (a | 0u64) == a) by (bit_vector);
}

/// A value disjoint from an OR of two masks is disjoint from each, either way
/// round.
proof fn lemma_disjoint_split(x: u64, a: u64, b: u64)
    requires
        x & (a | b) == 0,
    ensures
        x & a == 0,
        a & x == 0,
        x & b == 0,
        b & x == 0,
{
    assert(x & (a | b) == 0 ==> (x & a == 0 && a & x == 0 && x & b == 0 && b & x == 0))
        by (bit_vector);
}

/// Adding `n` to a counter that sticks at the largest representable value.
pub open spec fn sat_add(c: u32, n: nat) -> u32 {
    if c + n > 0xFFFF_FFFF {
        0xFFFF_FFFFu32
    } else {
        (c + n) as u32
    }
}

/// Saturating additions compose: adding two amounts one after the other is
/// adding their sum.
proof fn lemma_sat_add_assoc(c: u32, a: nat, b: nat)
    ensures
        sat_add(sat_add(c, a), b) == sat_add(c, a + b),
{
}

/// The lowest-indexed cell at or after `pos` that is empty on `board`, or 49
/// when the scan passes the last playable index without finding one.
pub open spec fn first_empty(board: u64, pos: int) -> int
    decreases 49 - pos,
    when 0 <= pos <= 49
{
    if pos > 48 {
        49
    } else if board & (1u64 << (pos as u64)) == 0 {
        pos
    } else {
        first_empty(board, pos + 1)
    }
}

/// True iff the backtracking search from this configuration can place every
/// remaining piece: scan for the first empty cell from `pos`, then try each
/// available piece in each orientation there.
pub open spec fn has_solution(pieces: Seq<Piece>, board: u64, avail: u16, pos: int) -> bool
    decreases avail, pieces.len() + 1, 1int, 0int,
{
    let p = first_empty(board, pos);
    if p > 48 {
        false
    } else {
        piece_search(pieces, board, avail, p, 0)
    }
}

/// True iff some piece with index at least `i` opens a successful branch at
/// the empty cell `p`.
pub open spec fn piece_search(pieces: Seq<Piece>, board: u64, avail: u16, p: int, i: int) -> bool
    decreases avail, pieces.len() - i, 1int, 1int,
    when 0 <= i
{
    if i >= pieces.len() {
        false
    } else {
        (avail & pieces[i].piece_type.spec_flag() != 0 && perm_search(
            pieces,
            board,
            avail,
            p,
            i,
            0,
        )) || piece_search(pieces, board, avail, p, i + 1)
    }
}

/// True iff piece `i`, in some orientation with index at least `j`, opens a
/// successful branch at the empty cell `p`.
pub open spec fn perm_search(
    pieces: Seq<Piece>,
    board: u64,
    avail: u16,
    p: int,
    i: int,
    j: int,
) -> bool
    decreases avail, pieces.len() - i, 0int, pieces[i].permutations@.len() - j,
    when 0 <= i < pieces.len() && 0 <= j && 0 <= p <= 48 && avail
        & pieces[i].piece_type.spec_flag() != 0
    via perm_search_decreases
{
    let perms = pieces[i].permutations@;
    if j >= perms.len() {
        false
    } else {
        let pp = perms[j] << (p as u64);
        (board & pp == 0 && {
            let avail2 = avail & !pieces[i].piece_type.spec_flag();
            if avail2 == 0 {
                true
            } else {
                has_solution(pieces, board | pp, avail2, p)
            }
        }) || perm_search(pieces, board, avail, p, i, j + 1)
    }
}

/// How many full solutions the exhaustive search visits from this
/// configuration.
pub open spec fn soln_count(pieces: Seq<Piece>, board: u64, avail: u16, pos: int) -> nat
    decreases avail, pieces.len() + 1, 1int, 0int,
{
    let p = first_empty(board, pos);
    if p > 48 {
        0
    } else {
        piece_count(pieces, board, avail, p, 0)
    }
}

/// How many full solutions open from pieces with index at least `i` at the
/// empty cell `p`.
pub open spec fn piece_count(pieces: Seq<Piece>, board: u64, avail: u16, p: int, i: int) -> nat
    decreases avail, pieces.len() - i, 1int, 1int,
    when 0 <= i
{
    if i >= pieces.len() {
        0
    } else {
        (if avail & pieces[i].piece_type.spec_flag() != 0 {
            perm_count(pieces, board, avail, p, i, 0)
        } else {
            0
        }) + piece_count(pieces, board, avail, p, i + 1)
    }
}

/// How many full solutions open from piece `i` in orientations with index at
/// least `j` at the empty cell `p`.
pub open spec fn perm_count(
    pieces: Seq<Piece>,
    board: u64,
    avail: u16,
    p: int,
    i: int,
    j: int,
) -> nat
    decreases avail, pieces.len() - i, 0int, pieces[i].permutations@.len() - j,
    when 0 <= i < pieces.len() && 0 <= j && 0 <= p <= 48 && avail
        & pieces[i].piece_type.spec_flag() != 0
    via perm_count_decreases
{
    let perms = pieces[i].permutations@;
    if j >= perms.len() {
        0
    } else {
        let pp = perms[j] << (p as u64);
        (if board & pp == 0 {
            let avail2 = avail & !pieces[i].piece_type.spec_flag();
            if avail2 == 0 {
                1nat
            } else {
                soln_count(pieces, board | pp, avail2, p)
            }
        } else {
            0nat
        }) + perm_count(pieces, board, avail, p, i, j + 1)
    }
}

/// The scan result lies between its starting point and 49.
proof fn lemma_first_empty_bounds(board: u64, pos: int)
    requires
        0 <= pos <= 49,
    ensures
        pos <= first_empty(board, pos) <= 49,
    decreases 49 - pos,
{
    if pos > 48 {
    } else if board & (1u64 << (pos as u64)) == 0 {
    } else {
        lemma_first_empty_bounds(board, pos + 1);
    }
}

/// Law: the short-circuiting search finds a solution exactly when the
/// exhaustive search counts at least one, from any configuration.
pub proof fn lemma_search_agrees(pieces: Seq<Piece>, board: u64, avail: u16, pos: int)
    requires
        0 <= pos <= 49,
    ensures
        has_solution(pieces, board, avail, pos) <==> soln_count(pieces, board, avail, pos) > 0,
    decreases avail, pieces.len() + 1, 1int, 0int,
{
    lemma_first_empty_bounds(board, pos);
    let p = first_empty(board, pos);
    if p <= 48 {
        lemma_piece_agrees(pieces, board, avail, p, 0);
    }
}

/// Law: on one board, the count that `count_solns` returns is at least one
/// exactly when `solve` returns true, each started from a fresh state.
pub proof fn lemma_count_positive_iff_solve(pieces: Seq<Piece>, board: u64, avail: u16)
    ensures
        sat_add(0, soln_count(pieces, board, avail, 0)) >= 1 <==> has_solution(
            pieces,
            board,
            avail,
            0,
        ),
{
    lemma_search_agrees(pieces, board, avail, 0);
}

proof fn lemma_piece_agrees(pieces: Seq<Piece>, board: u64, avail: u16, p: int, i: int)
    requires
        0 <= i,
        0 <= p <= 48,
    ensures
        piece_search(pieces, board, avail, p, i) <==> piece_count(pieces, board, avail, p, i) > 0,
    decreases avail, pieces.len() - i, 1int, 1int,
{
    if i < pieces.len() {
        if avail & pieces[i].piece_type.spec_flag() != 0 {
            lemma_perm_agrees(pieces, board, avail, p, i, 0);
        }
        lemma_piece_agrees(pieces, board, avail, p, i + 1);
    }
}

proof fn lemma_perm_agrees(pieces: Seq<Piece>, board: u64, avail: u16, p: int, i: int, j: int)
    requires
        0 <= i < pieces.len(),
        0 <= j,
        0 <= p <= 48,
        avail & pieces[i].piece_type.spec_flag() != 0,
    ensures
        perm_search(pieces, board, avail, p, i, j) <==> perm_count(pieces, board, avail, p, i, j)
            > 0,
    decreases avail, pieces.len() - i, 0int, pieces[i].permutations@.len() - j,
{
    let perms = pieces[i].permutations@;
    if j < perms.len() {
        let pp = perms[j] << (p as u64);
        let t = pieces[i].piece_type;
        let avail2 = avail & !t.spec_flag();
        lemma_flag_is_inventory_bit(t);
        lemma_clear_flag(avail, t.spec_flag());
        if board & pp == 0 && avail2 != 0 {
            lemma_search_agrees(pieces, board | pp, avail2, p);
        }
        lemma_perm_agrees(pieces, board, avail, p, i, j + 1);
    }
}

#[via_fn]
proof fn perm_search_decreases(pieces: Seq<Piece>, board: u64, avail: u16, p: int, i: int, j: int) {
    let t = pieces[i].piece_type;
    lemma_flag_is_inventory_bit(t);
    if avail & t.spec_flag() != 0 {
        lemma_clear_flag(avail, t.spec_flag());
    }
}

#[via_fn]
proof fn perm_count_decreases(pieces: Seq<Piece>, board: u64, avail: u16, p: int, i: int, j: int) {
    let t = pieces[i].piece_type;
    lemma_flag_is_inventory_bit(t);
    if avail & t.spec_flag() != 0 {
        lemma_clear_flag(avail, t.spec_flag());
    }
}

/// The backtracking search engine, constructed once from the piece catalog.
pub struct Solver {
    pieces: Vec<Piece>,
}

impl Solver {
    /// The piece list the engine searches over.
    pub closed spec fn pieces_view(self) -> Seq<Piece> {
        self.pieces@
    }

    /// The engine holds the full catalog: each inventory piece once, with its
    /// catalog orientation list.
    pub open spec fn wf(self) -> bool {
        &&& self.pieces_view().len() == 9
        &&& forall|i: int|
            0 <= i < 9 ==> (#[trigger] self.pieces_view()[i]).permutations@
                == self.pieces_view()[i].piece_type.spec_permutations()
        &&& forall|i: int|
            0 <= i < 9 ==> (#[trigger] self.pieces_view()[i]).piece_type == piece_order()[i]
    }

    /// A solver over the fixed piece catalog.
    pub fn new() -> (r: Solver)
        ensures
            r.wf(),
    {
        let pieces = Piece::pieces();
        Solver { pieces }
    }

    /// Finds one solution. Returns true iff the search placed every piece;
    /// the placements then stand on the board and in the history, beyond
    /// whatever the state already held. On false the state is left bit-for-bit
    /// as it was.
    pub fn solve(&self, state: &mut GameState) -> (r: bool)
        requires
            old(state).wf(),
        ensures
            final(state).wf(),
            r == has_solution(self.pieces_view(), old(state).board, old(state).avail(), 0),
            !r ==> final(state).board == old(state).board && final(state).avail() == old(
                state,
            ).avail() && final(state).history@ == old(state).history@,
            r ==> final(state).avail() == 0 && final(state).history@.len() == NUM_PIECES,
            r ==> old(state).history@.is_prefix_of(final(state).history@),
            r ==> final(state).board == old(state).board | or_all(
                final(state).history@.skip(old(state).history@.len() as int),
            ),
            r ==> forall|k: int|
                old(state).history@.len() <= k < final(state).history@.len()
                    ==> (#[trigger] final(state).history@[k]) & old(state).board == 0,
            r ==> forall|k1: int, k2: int|
                #![trigger final(state).history@[k1], final(state).history@[k2]]
                old(state).history@.len() <= k1 < k2 < final(state).history@.len()
                    ==> final(state).history@[k1] & final(state).history@[k2] == 0,
    {
        let r = self._solve(state, 0);
        proof {
            lemma_avail_count_bounds(state.avail());
        }
        r
    }

    /// Counts every solution reachable from the given state, exploring the
    /// whole search space and undoing every placement. The state is restored
    /// bit-for-bit; the count saturates at `u32::MAX`.
    pub fn count_solns(&self, state: &mut GameState) -> (r: u32)
        requires
            old(state).wf(),
        ensures
            final(state).board == old(state).board,
            final(state).avail() == old(state).avail(),
            final(state).history@ == old(state).history@,
            final(state).wf(),
            r == sat_add(
                0,
                soln_count(self.pieces_view(), old(state).board, old(state).avail(), 0),
            ),
    {
        let mut counter: u32 = 0;
        self._count_solns(state, 0, &mut counter);
        counter
    }

    fn _count_solns(&self, state: &mut GameState, pos: usize, counter: &mut u32)
        requires
            old(state).wf(),
            pos <= 48,
        ensures
            final(state).board == old(state).board,
            final(state).avail() == old(state).avail(),
            final(state).history@ == old(state).history@,
            *final(counter) == sat_add(
                *old(counter),
                soln_count(self.pieces@, old(state).board, old(state).avail(), pos as int),
            ),
        decreases old(state).avail(),
    {
        let ghost catalog = self.pieces@;
        let mut cur = pos;
        while state.board & (1u64 << cur) != 0
            invariant
                old(state).wf(),
                state.board == old(state).board,
                state.avail() == old(state).avail(),
                state.history@ == old(state).history@,
                *counter == *old(counter),
                pos <= cur <= 48,
                first_empty(state.board, pos as int) == first_empty(state.board, cur as int),
            decreases 48 - cur,
        {
            proof {
                assert(first_empty(state.board, cur as int) == first_empty(
                    state.board,
                    cur + 1,
                ));
            }
            cur = cur + 1;
            if cur > 48 {
                proof {
                    assert(first_empty(state.board, pos as int) == 49);
                    assert(soln_count(catalog, state.board, state.avail(), pos as int) == 0);
                }
                return ;
            }
        }
        proof {
            assert(first_empty(state.board, pos as int) == cur as int);
            assert(soln_count(catalog, state.board, state.avail(), pos as int) == piece_count(
                catalog,
                state.board,
                state.avail(),
                cur as int,
                0,
            ));
        }
        let ghost total = soln_count(catalog, old(state).board, old(state).avail(), pos as int);
        let mut i: usize = 0;
        while i < self.pieces.len()
            invariant
                old(state).wf(),
                state.board == old(state).board,
                state.avail() == old(state).avail(),
                state.history@ == old(state).history@,
                pos <= 48,
                cur <= 48,
                state.board & (1u64 << cur) == 0,
                i <= self.pieces@.len(),
                catalog == self.pieces@,
                total == soln_count(catalog, old(state).board, old(state).avail(), pos as int),
                sat_add(*old(counter), total) == sat_add(
                    *counter,
                    piece_count(catalog, old(state).board, old(state).avail(), cur as int, i as int),
                ),
            decreases self.pieces@.len() - i,
        {
            let piece_type = self.pieces[i].piece_type;
            if state.is_available(piece_type) {
                let ghost flag = piece_type.spec_flag();
                proof {
                    lemma_flag_is_inventory_bit(piece_type);
                }
                let mut j: usize = 0;
                while j < self.pieces[i].permutations.len()
                    invariant
                        old(state).wf(),
                        state.board == old(state).board,
                        state.avail() == old(state).avail(),
                        state.history@ == old(state).history@,
                        pos <= 48,
                        cur <= 48,
                        state.board & (1u64 << cur) == 0,
                        i < self.pieces@.len(),
                        j <= self.pieces@[i as int].permutations@.len(),
                        catalog == self.pieces@,
                        piece_type == self.pieces@[i as int].piece_type,
                        flag == piece_type.spec_flag(),
                        state.avail() & flag != 0,
                        flag == 1 || flag == 2 || flag == 4 || flag == 8 || flag == 16 || flag
                            == 32 || flag == 64 || flag == 128 || flag == 256,
                        total == soln_count(
                            catalog,
                            old(state).board,
                            old(state).avail(),
                            pos as int,
                        ),
                        sat_add(*old(counter), total) == sat_add(
                            *counter,
                            perm_count(
                                catalog,
                                old(state).board,
                                old(state).avail(),
                                cur as int,
                                i as int,
                                j as int,
                            ) + piece_count(
                                catalog,
                                old(state).board,
                                old(state).avail(),
                                cur as int,
                                i + 1,
                            ),
                        ),
                    decreases self.pieces@[i as int].permutations@.len() - j,
                {
                    let permutation = self.pieces[i].permutations[j];
                    let pos_permutation = permutation << cur;
                    if state.board & pos_permutation == 0 {
                        let ghost base = *state;
                        let ghost c0 = *counter;
                        let ghost rest = perm_count(
                            catalog,
                            base.board,
                            base.avail(),
                            cur as int,
                            i as int,
                            j + 1,
                        ) + piece_count(catalog, base.board, base.avail(), cur as int, i + 1);
                        state.board = state.board | pos_permutation;
                        state.history.push(pos_permutation);
                        state.mark_piece_as_used(piece_type);
                        proof {
                            lemma_clear_flag(base.avail(), flag);
                        }
                        if state.is_solved() {
                            if *counter < u32::MAX {
                                *counter = *counter + 1;
                            }
                            proof {
                                assert(*counter == sat_add(c0, 1));
                                assert(perm_count(
                                    catalog,
                                    base.board,
                                    base.avail(),
                                    cur as int,
                                    i as int,
                                    j as int,
                                ) == 1 + perm_count(
                                    catalog,
                                    base.board,
                                    base.avail(),
                                    cur as int,
                                    i as int,
                                    j + 1,
                                ));
                                lemma_sat_add_assoc(c0, 1, rest);
                            }
                        } else {
                            let ghost placed = *state;
                            self._count_solns(state, cur, counter);
                            proof {
                                let d = soln_count(
                                    catalog,
                                    placed.board,
                                    placed.avail(),
                                    cur as int,
                                );
                                assert(*counter == sat_add(c0, d));
                                assert(perm_count(
                                    catalog,
                                    base.board,
                                    base.avail(),
                                    cur as int,
                                    i as int,
                                    j as int,
                                ) == d + perm_count(
                                    catalog,
                                    base.board,
                                    base.avail(),
                                    cur as int,
                                    i as int,
                                    j + 1,
                                ));
                                lemma_sat_add_assoc(c0, d, rest);
                            }
                        }
                        state.board = state.board & !pos_permutation;
                        let _ = state.history.pop();
                        state.mark_piece_as_available(piece_type);
                        proof {
                            lemma_place_undo(base.board, pos_permutation);
                            lemma_clear_flag(base.avail(), flag);
                            assert(state.history@ =~= base.history@);
                        }
                    } else {
                        proof {
                            assert(perm_count(
                                catalog,
                                state.board,
                                state.avail(),
                                cur as int,
                                i as int,
                                j as int,
                            ) == perm_count(
                                catalog,
                                state.board,
                                state.avail(),
                                cur as int,
                                i as int,
                                j + 1,
                            ));
                        }
                    }
                    j = j + 1;
                }
                proof {
                    assert(perm_count(
                        catalog,
                        state.board,
                        state.avail(),
                        cur as int,
                        i as int,
                        self.pieces@[i as int].permutations@.len() as int,
                    ) == 0);
                }
            } else {
                proof {
                    assert(piece_count(catalog, state.board, state.avail(), cur as int, i as int)
                        == piece_count(
                        catalog,
                        state.board,
                        state.avail(),
                        cur as int,
                        i + 1,
                    ));
                }
            }
            i = i + 1;
        }
        proof {
            assert(piece_count(
                catalog,
                state.board,
                state.avail(),
                cur as int,
                self.pieces@.len() as int,
            ) == 0);
        }
    }

    fn _solve(&self, state: &mut GameState, pos: usize) -> (r: bool)
        requires
            old(state).wf(),
            pos <= 48,
        ensures
            final(state).wf(),
            r == has_solution(self.pieces@, old(state).board, old(state).avail(), pos as int),
            !r ==> final(state).board == old(state).board && final(state).avail() == old(
                state,
            ).avail() && final(state).history@ == old(state).history@,
            r ==> final(state).avail() == 0,
            r ==> old(state).history@.is_prefix_of(final(state).history@),
            r ==> final(state).board == old(state).board | or_all(
                final(state).history@.skip(old(state).history@.len() as int),
            ),
            r ==> forall|k: int|
                old(state).history@.len() <= k < final(state).history@.len()
                    ==> (#[trigger] final(state).history@[k]) & old(state).board == 0,
            r ==> forall|k1: int, k2: int|
                #![trigger final(state).history@[k1], final(state).history@[k2]]
                old(state).history@.len() <= k1 < k2 < final(state).history@.len()
                    ==> final(state).history@[k1] & final(state).history@[k2] == 0,
        decreases old(state).avail(),
    {
        let ghost catalog = self.pieces@;
        let mut cur = pos;
        while state.board & (1u64 << cur) != 0
            invariant
                old(state).wf(),
                state.board == old(state).board,
                state.avail() == old(state).avail(),
                state.history@ == old(state).history@,
                pos <= cur <= 48,
                first_empty(state.board, pos as int) == first_empty(state.board, cur as int),
            decreases 48 - cur,
        {
            proof {
                assert(first_empty(state.board, cur as int) == first_empty(
                    state.board,
                    cur + 1,
                ));
            }
            cur = cur + 1;
            if cur > 48 {
                proof {
                    assert(first_empty(state.board, pos as int) == 49);
                    assert(!has_solution(catalog, state.board, state.avail(), pos as int));
                }
                return false;
            }
        }
        proof {
            assert(first_empty(state.board, pos as int) == cur as int);
            assert(has_solution(catalog, state.board, state.avail(), pos as int)
                == piece_search(catalog, state.board, state.avail(), cur as int, 0));
        }
        let mut i: usize = 0;
        while i < self.pieces.len()
            invariant
                old(state).wf(),
                state.board == old(state).board,
                state.avail() == old(state).avail(),
                state.history@ == old(state).history@,
                pos <= 48,
                cur <= 48,
                state.board & (1u64 << cur) == 0,
                i <= self.pieces@.len(),
                catalog == self.pieces@,
                has_solution(catalog, old(state).board, old(state).avail(), pos as int)
                    == piece_search(
                    catalog,
                    old(state).board,
                    old(state).avail(),
                    cur as int,
                    i as int,
                ),
            decreases self.pieces@.len() - i,
        {
            let piece_type = self.pieces[i].piece_type;
            if state.is_available(piece_type) {
                let ghost flag = piece_type.spec_flag();
                proof {
                    lemma_flag_is_inventory_bit(piece_type);
                }
                let mut j: usize = 0;
                while j < self.pieces[i].permutations.len()
                    invariant
                        old(state).wf(),
                        state.board == old(state).board,
                        state.avail() == old(state).avail(),
                        state.history@ == old(state).history@,
                        pos <= 48,
                        cur <= 48,
                        state.board & (1u64 << cur) == 0,
                        i < self.pieces@.len(),
                        j <= self.pieces@[i as int].permutations@.len(),
                        catalog == self.pieces@,
                        piece_type == self.pieces@[i as int].piece_type,
                        flag == piece_type.spec_flag(),
                        state.avail() & flag != 0,
                        flag == 1 || flag == 2 || flag == 4 || flag == 8 || flag == 16 || flag
                            == 32 || flag == 64 || flag == 128 || flag == 256,
                        has_solution(catalog, old(state).board, old(state).avail(), pos as int)
                            == piece_search(
                            catalog,
                            old(state).board,
                            old(state).avail(),
                            cur as int,
                            i as int,
                        ),
                        perm_search(
                            catalog,
                            old(state).board,
                            old(state).avail(),
                            cur as int,
                            i as int,
                            0,
                        ) == perm_search(
                            catalog,
                            old(state).board,
                            old(state).avail(),
                            cur as int,
                            i as int,
                            j as int,
                        ),
                    decreases self.pieces@[i as int].permutations@.len() - j,
                {
                    let permutation = self.pieces[i].permutations[j];
                    let pos_permutation = permutation << cur;
                    if state.board & pos_permutation == 0 {
                        let ghost base = *state;
                        state.board = state.board | pos_permutation;
                        state.history.push(pos_permutation);
                        state.mark_piece_as_used(piece_type);
                        proof {
                            lemma_clear_flag(base.avail(), flag);
                        }
                        if state.is_solved() {
                            proof {
                                lemma_avail_count_bounds(state.avail());
                                assert(perm_search(
                                    catalog,
                                    base.board,
                                    base.avail(),
                                    cur as int,
                                    i as int,
                                    j as int,
                                ));
                                assert(has_solution(
                                    catalog,
                                    old(state).board,
                                    old(state).avail(),
                                    pos as int,
                                ));
                                assert(old(state).history@.is_prefix_of(state.history@));
                                let s = state.history@.skip(old(state).history@.len() as int);
                                assert(s =~= seq![pos_permutation]);
                                assert(s.len() == 1 && s[0] == pos_permutation);
                                assert(s.subrange(1, 1) =~= Seq::<u64>::empty());
                                assert(or_all(s.subrange(1, 1)) == 0);
                                assert(or_all(s) == s[0] | or_all(s.subrange(1, 1)));
                                lemma_or_facts(pos_permutation, 0, 0);
                                assert(state.board == old(state).board | or_all(s));
                                let n = old(state).history@.len() as int;
                                assert(state.history@[n] == pos_permutation);
                                let bb = base.board;
                                assert(pos_permutation & bb == 0) by (bit_vector)
                                    requires
                                        bb & pos_permutation == 0,
                                ;
                            }
                            return true;
                        }
                        let ghost placed = *state;
                        if self._solve(state, cur) {
                            proof {
                                assert(has_solution(
                                    catalog,
                                    placed.board,
                                    placed.avail(),
                                    cur as int,
                                ));
                                assert(perm_search(
                                    catalog,
                                    base.board,
                                    base.avail(),
                                    cur as int,
                                    i as int,
                                    j as int,
                                ));
                                assert(has_solution(
                                    catalog,
                                    old(state).board,
                                    old(state).avail(),
                                    pos as int,
                                ));
                                let n = base.history@.len() as int;
                                assert(placed.history@.is_prefix_of(state.history@));
                                assert(state.history@.subrange(0, n + 1) =~= placed.history@);
                                assert(state.history@.subrange(0, n) =~= base.history@);
                                assert(old(state).history@.is_prefix_of(state.history@));
                                let s = state.history@.skip(n);
                                assert(state.history@.subrange(0, n + 1)[n]
                                    == state.history@[n]);
                                assert(placed.history@[n] == pos_permutation);
                                assert(s[0] == state.history@[n]);
                                assert(s[0] == pos_permutation);
                                assert(s.subrange(1, s.len() as int) =~= state.history@.skip(
                                    n + 1,
                                ));
                                lemma_or_facts(base.board, pos_permutation, or_all(
                                    state.history@.skip(n + 1),
                                ));
                                let bb = base.board;
                                assert(pos_permutation & bb == 0) by (bit_vector)
                                    requires
                                        bb & pos_permutation == 0,
                                ;
                                assert forall|k: int|
                                    n <= k < state.history@.len() implies (
                                #[trigger] state.history@[k]) & old(state).board == 0 by {
                                    if k > n {
                                        lemma_disjoint_split(
                                            state.history@[k],
                                            base.board,
                                            pos_permutation,
                                        );
                                    }
                                }
                                assert forall|k1: int, k2: int|
                                    #![trigger state.history@[k1], state.history@[k2]]
                                    n <= k1 < k2 < state.history@.len() implies state.history@[k1]
                                    & state.history@[k2] == 0 by {
                                    if k1 == n {
                                        lemma_disjoint_split(
                                            state.history@[k2],
                                            base.board,
                                            pos_permutation,
                                        );
                                    }
                                }
                            }
                            return true;
                        }
                        state.board = state.board & !pos_permutation;
                        let _ = state.history.pop();
                        state.mark_piece_as_available(piece_type);
                        proof {
                            lemma_place_undo(base.board, pos_permutation);
                            lemma_clear_flag(base.avail(), flag);
                            assert(state.history@ =~= base.history@);
                            assert(!has_solution(catalog, placed.board, placed.avail(), cur as int));
                            assert(perm_search(
                                catalog,
                                state.board,
                                state.avail(),
                                cur as int,
                                i as int,
                                j as int,
                            ) == perm_search(
                                catalog,
                                state.board,
                                state.avail(),
                                cur as int,
                                i as int,
                                j + 1,
                            ));
                        }
                    } else {
                        proof {
                            assert(perm_search(
                                catalog,
                                state.board,
                                state.avail(),
                                cur as int,
                                i as int,
                                j as int,
                            ) == perm_search(
                                catalog,
                                state.board,
                                state.avail(),
                                cur as int,
                                i as int,
                                j + 1,
                            ));
                        }
                    }
                    j = j + 1;
                }
                proof {
                    assert(!perm_search(
                        catalog,
                        state.board,
                        state.avail(),
                        cur as int,
                        i as int,
                        self.pieces@[i as int].permutations@.len() as int,
                    ));
                    assert(!perm_search(catalog, state.board, state.avail(), cur as int, i as int, 0));
                    assert(piece_search(catalog, state.board, state.avail(), cur as int, i as int)
                        == piece_search(
                        catalog,
                        state.board,
                        state.avail(),
                        cur as int,
                        i + 1,
                    ));
                }
            } else {
                proof {
                    assert(piece_search(catalog, state.board, state.avail(), cur as int, i as int)
                        == piece_search(
                        catalog,
                        state.board,
                        state.avail(),
                        cur as int,
                        i + 1,
                    ));
                }
            }
            i = i + 1;
        }
        proof {
            assert(!piece_search(
                catalog,
                state.board,
                state.avail(),
                cur as int,
                self.pieces@.len() as int,
            ));
        }
        false
    }
}

} // verus!
