//! The piece catalog: the nine shapes of the puzzle inventory and, for each,
//! every valid orientation as a bit pattern anchored at bit 0.

use vstd::prelude::*;

verus! {

/// The nine piece shapes of the fixed inventory.
#[derive(Copy, Clone, PartialEq, Eq, Hash, Debug, Structural)]
pub enum PieceType {
    Square,
    Bar4,
    T,
    Z,
    L4,
    Bar3,
    L3,
    Bar2,
    Dot,
}

impl PieceType {
    /// The distinct power-of-two flag with which the availability word tracks
    /// this piece: bit 0 for `Square` up to bit 8 for `Dot`.
    pub open spec fn spec_flag(self) -> u16 {
        match self {
            PieceType::Square => 1,
            PieceType::Bar4 => 2,
            PieceType::T => 4,
            PieceType::Z => 8,
            PieceType::L4 => 16,
            PieceType::Bar3 => 32,
            PieceType::L3 => 64,
            PieceType::Bar2 => 128,
            PieceType::Dot => 256,
        }
    }

    /// The flag bit of this piece in the availability word.
    pub fn flag(self) -> (r: u16)
        ensures
            r == self.spec_flag(),
    {
        match self {
            PieceType::Square => 1,
            PieceType::Bar4 => 2,
            PieceType::T => 4,
            PieceType::Z => 8,
            PieceType::L4 => 16,
            PieceType::Bar3 => 32,
            PieceType::L3 => 64,
            PieceType::Bar2 => 128,
            PieceType::Dot => 256,
        }
    }

    /// The orientations of this piece: each entry is one rotation/reflection
    /// of the shape, written as a 64-bit pattern whose reference cell is bit 0.
    pub open spec fn spec_permutations(self) -> Seq<u64> {
        match self {
            PieceType::Square => seq![771u64],
            PieceType::Bar4 => seq![15u64, 16843009u64],
            PieceType::T => seq![519u64, 66305u64, 65921u64, 897u64],
            PieceType::Z => seq![1539u64, 131841u64, 387u64, 33153u64],
            PieceType::L4 => seq![
                263u64,
                1031u64,
                1793u64,
                65795u64,
                131587u64,
                196865u64,
                98561u64,
                449u64,
            ],
            PieceType::Bar3 => seq![7u64, 65793u64],
            PieceType::L3 => seq![259u64, 515u64, 769u64, 385u64],
            PieceType::Bar2 => seq![3u64, 257u64],
            PieceType::Dot => seq![1u64],
        }
    }

    /// How many cells the physical piece covers.
    pub open spec fn size(self) -> int {
        match self {
            PieceType::Square => 4,
            PieceType::Bar4 => 4,
            PieceType::T => 4,
            PieceType::Z => 4,
            PieceType::L4 => 4,
            PieceType::Bar3 => 3,
            PieceType::L3 => 3,
            PieceType::Bar2 => 2,
            PieceType::Dot => 1,
        }
    }

    /// The fixed catalog: every piece type paired with its orientation list,
    /// in inventory order.
    pub fn permutations_by_piece_type() -> (r: Vec<(PieceType, Vec<u64>)>)
        ensures
            r@.len() == 9,
            forall|i: int|
                0 <= i < 9 ==> (#[trigger] r@[i]).1@ == r@[i].0.spec_permutations(),
            forall|i: int| 0 <= i < 9 ==> (#[trigger] r@[i]).0 == piece_order()[i],
    {
        let mut r: Vec<(PieceType, Vec<u64>)> = Vec::new();
        r.push((PieceType::Square, perms_of(PieceType::Square)));
        r.push((PieceType::Bar4, perms_of(PieceType::Bar4)));
        r.push((PieceType::T, perms_of(PieceType::T)));
        r.push((PieceType::Z, perms_of(PieceType::Z)));
        r.push((PieceType::L4, perms_of(PieceType::L4)));
        r.push((PieceType::Bar3, perms_of(PieceType::Bar3)));
        r.push((PieceType::L3, perms_of(PieceType::L3)));
        r.push((PieceType::Bar2, perms_of(PieceType::Bar2)));
        r.push((PieceType::Dot, perms_of(PieceType::Dot)));
        r
    }
}

/// How many set bits a value has; for a placement pattern, how many cells it
/// occupies.
pub open spec fn popcount(x: nat) -> nat
    decreases x,
{
    if x == 0 {
        0
    } else {
        (x % 2 + popcount(x / 2)) as nat
    }
}

#[verifier::rlimit(100)]
proof fn lemma_pop_table_four()
    ensures
        popcount(771) == 4,
        popcount(15) == 4,
        popcount(16843009) == 4,
        popcount(519) == 4,
        popcount(66305) == 4,
        popcount(65921) == 4,
        popcount(897) == 4,
        popcount(1539) == 4,
        popcount(131841) == 4,
        popcount(387) == 4,
        popcount(33153) == 4,
{
    assert(popcount(771) == 4) by {
        reveal_with_fuel(popcount, 12);
    }
    assert(popcount(15) == 4) by {
        reveal_with_fuel(popcount, 6);
    }
    assert(popcount(16843009) == 4) by {
        reveal_with_fuel(popcount, 27);
    }
    assert(popcount(519) == 4) by {
        reveal_with_fuel(popcount, 12);
    }
    assert(popcount(66305) == 4) by {
        reveal_with_fuel(popcount, 19);
    }
    assert(popcount(65921) == 4) by {
        reveal_with_fuel(popcount, 19);
    }
    assert(popcount(897) == 4) by {
        reveal_with_fuel(popcount, 12);
    }
    assert(popcount(1539) == 4) by {
        reveal_with_fuel(popcount, 13);
    }
    assert(popcount(131841) == 4) by {
        reveal_with_fuel(popcount, 19);
    }
    assert(popcount(387) == 4) by {
        reveal_with_fuel(popcount, 11);
    }
    assert(popcount(33153) == 4) by {
        reveal_with_fuel(popcount, 17);
    }
}

#[verifier::rlimit(100)]
proof fn lemma_pop_table_l4()
    ensures
        popcount(263) == 4,
        popcount(1031) == 4,
        popcount(1793) == 4,
        popcount(65795) == 4,
        popcount(131587) == 4,
        popcount(196865) == 4,
        popcount(98561) == 4,
        popcount(449) == 4,
{
    assert(popcount(263) == 4) by {
        reveal_with_fuel(popcount, 11);
    }
    assert(popcount(1031) == 4) by {
        reveal_with_fuel(popcount, 13);
    }
    assert(popcount(1793) == 4) by {
        reveal_with_fuel(popcount, 13);
    }
    assert(popcount(65795) == 4) by {
        reveal_with_fuel(popcount, 19);
    }
    assert(popcount(131587) == 4) by {
        reveal_with_fuel(popcount, 19);
    }
    assert(popcount(196865) == 4) by {
        reveal_with_fuel(popcount, 19);
    }
    assert(popcount(98561) == 4) by {
        reveal_with_fuel(popcount, 18);
    }
    assert(popcount(449) == 4) by {
        reveal_with_fuel(popcount, 11);
    }
}

#[verifier::rlimit(100)]
proof fn lemma_pop_table_small()
    ensures
        popcount(7) == 3,
        popcount(65793) == 3,
        popcount(259) == 3,
        popcount(515) == 3,
        popcount(769) == 3,
        popcount(385) == 3,
        popcount(3) == 2,
        popcount(257) == 2,
        popcount(1) == 1,
{
    assert(popcount(7) == 3) by {
        reveal_with_fuel(popcount, 5);
    }
    assert(popcount(65793) == 3) by {
        reveal_with_fuel(popcount, 19);
    }
    assert(popcount(259) == 3) by {
        reveal_with_fuel(popcount, 11);
    }
    assert(popcount(515) == 3) by {
        reveal_with_fuel(popcount, 12);
    }
    assert(popcount(769) == 3) by {
        reveal_with_fuel(popcount, 12);
    }
    assert(popcount(385) == 3) by {
        reveal_with_fuel(popcount, 11);
    }
    assert(popcount(3) == 2) by {
        reveal_with_fuel(popcount, 4);
    }
    assert(popcount(257) == 2) by {
        reveal_with_fuel(popcount, 11);
    }
    assert(popcount(1) == 1) by {
        reveal_with_fuel(popcount, 3);
    }
}

/// A left shift multiplies by a power of two, so a pattern shifted by zero is
/// the pattern itself; its cell count is the piece's physical size.
pub proof fn lemma_permutation_sizes(t: PieceType, i: int)
    requires
        0 <= i < t.spec_permutations().len(),
    ensures
        popcount(t.spec_permutations()[i] as nat) == t.size(),
{
    lemma_pop_table_four();
    lemma_pop_table_l4();
    lemma_pop_table_small();
    let s = t.spec_permutations();
    match t {
        PieceType::Square => {
            assert(s[0] == 771);
        },
        PieceType::Bar4 => {
            if i == 0 {
                assert(s[0] == 15);
            } else {
                assert(s[1] == 16843009);
            }
        },
        PieceType::T => {
            if i == 0 {
                assert(s[0] == 519);
            } else if i == 1 {
                assert(s[1] == 66305);
            } else if i == 2 {
                assert(s[2] == 65921);
            } else {
                assert(s[3] == 897);
            }
        },
        PieceType::Z => {
            if i == 0 {
                assert(s[0] == 1539);
            } else if i == 1 {
                assert(s[1] == 131841);
            } else if i == 2 {
                assert(s[2] == 387);
            } else {
                assert(s[3] == 33153);
            }
        },
        PieceType::L4 => {
            if i == 0 {
                assert(s[0] == 263);
            } else if i == 1 {
                assert(s[1] == 1031);
            } else if i == 2 {
                assert(s[2] == 1793);
            } else if i == 3 {
                assert(s[3] == 65795);
            } else if i == 4 {
                assert(s[4] == 131587);
            } else if i == 5 {
                assert(s[5] == 196865);
            } else if i == 6 {
                assert(s[6] == 98561);
            } else {
                assert(s[7] == 449);
            }
        },
        PieceType::Bar3 => {
            if i == 0 {
                assert(s[0] == 7);
            } else {
                assert(s[1] == 65793);
            }
        },
        PieceType::L3 => {
            if i == 0 {
                assert(s[0] == 259);
            } else if i == 1 {
                assert(s[1] == 515);
            } else if i == 2 {
                assert(s[2] == 769);
            } else {
                assert(s[3] == 385);
            }
        },
        PieceType::Bar2 => {
            if i == 0 {
                assert(s[0] == 3);
            } else {
                assert(s[1] == 257);
            }
        },
        PieceType::Dot => {
            assert(s[0] == 1);
        },
    }
}

/// The inventory order in which the catalog lists the piece types.
pub open spec fn piece_order() -> Seq<PieceType> {
    seq![
        PieceType::Square,
        PieceType::Bar4,
        PieceType::T,
        PieceType::Z,
        PieceType::L4,
        PieceType::Bar3,
        PieceType::L3,
        PieceType::Bar2,
        PieceType::Dot,
    ]
}

/// Builds the orientation list of one piece type.
fn perms_of(t: PieceType) -> (r: Vec<u64>)
    ensures
        r@ == t.spec_permutations(),
{
    let mut r: Vec<u64> = Vec::new();
    match t {
        PieceType::Square => {
            r.push(771);
        },
        PieceType::Bar4 => {
            r.push(15);
            r.push(16843009);
        },
        PieceType::T => {
            r.push(519);
            r.push(66305);
            r.push(65921);
            r.push(897);
        },
        PieceType::Z => {
            r.push(1539);
            r.push(131841);
            r.push(387);
            r.push(33153);
        },
        PieceType::L4 => {
            r.push(263);
            r.push(1031);
            r.push(1793);
            r.push(65795);
            r.push(131587);
            r.push(196865);
            r.push(98561);
            r.push(449);
        },
        PieceType::Bar3 => {
            r.push(7);
            r.push(65793);
        },
        PieceType::L3 => {
            r.push(259);
            r.push(515);
            r.push(769);
            r.push(385);
        },
        PieceType::Bar2 => {
            r.push(3);
            r.push(257);
        },
        PieceType::Dot => {
            r.push(1);
        },
    }
    proof {
        assert(r@ =~= t.spec_permutations());
    }
    r
}

/// One piece shape together with its precomputed orientation patterns.
#[derive(Debug, Clone)]
pub struct Piece {
    pub piece_type: PieceType,
    pub permutations: Vec<u64>,
}

impl Piece {
    /// Pairs a piece type with an orientation list.
    pub fn new(piece_type: PieceType, permutations: Vec<u64>) -> (r: Piece)
        ensures
            r.piece_type == piece_type,
            r.permutations == permutations,
    {
        Piece { piece_type, permutations }
    }

    /// The catalog flattened into a list for iteration, in inventory order.
    pub fn pieces() -> (r: Vec<Piece>)
        ensures
            r@.len() == 9,
            forall|i: int|
                0 <= i < 9 ==> (#[trigger] r@[i]).permutations@
                    == r@[i].piece_type.spec_permutations(),
            forall|i: int| 0 <= i < 9 ==> (#[trigger] r@[i]).piece_type == piece_order()[i],
    {
        let by_type = PieceType::permutations_by_piece_type();
        let mut pieces: Vec<Piece> = Vec::new();
        let mut k: usize = 0;
        while k < by_type.len()
            invariant
                by_type@.len() == 9,
                forall|i: int|
                    0 <= i < 9 ==> (#[trigger] by_type@[i]).1@
                        == by_type@[i].0.spec_permutations(),
                forall|i: int| 0 <= i < 9 ==> (#[trigger] by_type@[i]).0 == piece_order()[i],
                k <= 9,
                pieces@.len() == k,
                forall|i: int|
                    0 <= i < k ==> (#[trigger] pieces@[i]).permutations@
                        == pieces@[i].piece_type.spec_permutations(),
                forall|i: int| 0 <= i < k ==> (#[trigger] pieces@[i]).piece_type == piece_order()[i],
            decreases 9 - k,
        {
            let piece_type = by_type[k].0;
            let permutations = by_type[k].1.clone();
            proof {
                assert(forall|i: int|
                    0 <= i < permutations@.len() ==> permutations@[i] == by_type@[k as int].1@[i]);
                assert(permutations@ =~= by_type@[k as int].1@);
            }
            let piece = Piece::new(piece_type, permutations);
            pieces.push(piece);
            k = k + 1;
        }
        pieces
    }
}

} // verus!
