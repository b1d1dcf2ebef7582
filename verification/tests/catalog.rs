use genius_square::pieces::{Piece, PieceType};

fn expected_size(t: PieceType) -> u32 {
    match t {
        PieceType::Square | PieceType::Bar4 | PieceType::T | PieceType::Z | PieceType::L4 => 4,
        PieceType::Bar3 | PieceType::L3 => 3,
        PieceType::Bar2 => 2,
        PieceType::Dot => 1,
    }
}

fn expected_permutations(t: PieceType) -> Vec<u64> {
    match t {
        PieceType::Square => vec![771],
        PieceType::Bar4 => vec![15, 16843009],
        PieceType::T => vec![519, 66305, 65921, 897],
        PieceType::Z => vec![1539, 131841, 387, 33153],
        PieceType::L4 => vec![263, 1031, 1793, 65795, 131587, 196865, 98561, 449],
        PieceType::Bar3 => vec![7, 65793],
        PieceType::L3 => vec![259, 515, 769, 385],
        PieceType::Bar2 => vec![3, 257],
        PieceType::Dot => vec![1],
    }
}

#[test]
fn catalog_has_nine_distinct_piece_types() {
    let catalog = PieceType::permutations_by_piece_type();
    assert_eq!(catalog.len(), 9);
    for a in 0..catalog.len() {
        for b in 0..a {
            assert_ne!(catalog[a].0, catalog[b].0);
        }
    }
}

#[test]
fn catalog_lists_every_orientation() {
    let catalog = PieceType::permutations_by_piece_type();
    for (piece_type, permutations) in catalog {
        assert_eq!(permutations, expected_permutations(piece_type));
        assert!(!permutations.is_empty());
    }
}

#[test]
fn every_pattern_covers_the_piece_size() {
    let catalog = PieceType::permutations_by_piece_type();
    for (piece_type, permutations) in catalog {
        for p in permutations {
            assert_eq!((p << 0).count_ones(), expected_size(piece_type));
        }
    }
}

#[test]
fn flags_are_distinct_powers_of_two() {
    let catalog = PieceType::permutations_by_piece_type();
    let mut seen: u16 = 0;
    for (piece_type, _) in catalog {
        let f = piece_type.flag();
        assert_eq!(f.count_ones(), 1);
        assert!(f < 512);
        assert_eq!(seen & f, 0);
        seen |= f;
    }
    assert_eq!(seen, 0x1FF);
}

#[test]
fn piece_new_keeps_its_fields() {
    let piece = Piece::new(PieceType::Bar2, vec![3, 257]);
    assert_eq!(piece.piece_type, PieceType::Bar2);
    assert_eq!(piece.permutations, vec![3, 257]);
}

#[test]
fn pieces_flattens_the_catalog() {
    let pieces = Piece::pieces();
    assert_eq!(pieces.len(), 9);
    for piece in pieces {
        assert_eq!(piece.permutations, expected_permutations(piece.piece_type));
    }
}
