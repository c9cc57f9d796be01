use edge_puzzle::piece::{ClassificationError, Kind, Piece, Props, Sides};

#[test]
fn test_piece_corner() {
    assert_eq!(
        Piece::new(1, vec![0, 0, 1, 2]),
        Ok(Piece::CornerPiece(Props::new(1, Sides::Corner(1, 2)))),
    );
}

#[test]
fn test_piece_border() {
    assert_eq!(
        Piece::new(1, vec![0, 1, 2, 3]),
        Ok(Piece::BorderPiece(Props::new(1, Sides::Border(1, 2, 3))))
    );
}

#[test]
fn test_piece_full() {
    assert_eq!(
        Piece::new(1, vec![1, 2, 3, 4]),
        Ok(Piece::FullPiece(Props::new(1, Sides::Full(1, 2, 3, 4))))
    );
}

#[test]
fn test_piece_all_zero_is_rejected() {
    assert_eq!(
        Piece::new(1, vec![0, 0, 0, 0]),
        Err(ClassificationError::LeadingZeros)
    );
}

#[test]
fn test_piece_three_leading_zeros() {
    assert_eq!(
        Piece::new(7, vec![0, 0, 0, 5]),
        Err(ClassificationError::LeadingZeros)
    );
}

#[test]
fn test_piece_zero_color() {
    assert_eq!(
        Piece::new(2, vec![0, 0, 5, 0]),
        Err(ClassificationError::ZeroColor)
    );
    assert_eq!(
        Piece::new(2, vec![0, 3, 0, 4]),
        Err(ClassificationError::ZeroColor)
    );
    assert_eq!(
        Piece::new(2, vec![0, 3, 4, 0]),
        Err(ClassificationError::ZeroColor)
    );
    assert_eq!(
        Piece::new(2, vec![5, 0, 3, 4]),
        Err(ClassificationError::ZeroColor)
    );
    assert_eq!(
        Piece::new(2, vec![5, 1, 0, 4]),
        Err(ClassificationError::ZeroColor)
    );
    assert_eq!(
        Piece::new(2, vec![5, 1, 3, 0]),
        Err(ClassificationError::ZeroColor)
    );
}

#[test]
fn test_piece_wrong_length() {
    assert_eq!(
        Piece::new(0, vec![]),
        Err(ClassificationError::WrongLength)
    );
    assert_eq!(
        Piece::new(0, vec![1, 2, 3]),
        Err(ClassificationError::WrongLength)
    );
    assert_eq!(
        Piece::new(0, vec![1, 2, 3, 4, 5]),
        Err(ClassificationError::WrongLength)
    );
}

#[test]
fn test_from_record_agrees_with_new() {
    let record = vec![0, 2, 5, 1];
    assert_eq!(Piece::from_record(10, &record), Piece::new(10, record.clone()));
    assert_eq!(
        Piece::from_record(10, &record),
        Ok(Piece::BorderPiece(Props { id: 10, kind: Sides::Border(2, 5, 1) }))
    );
}

#[test]
fn test_piece_getters() {
    let piece = Piece::new(9, vec![0, 0, 3, 4]).unwrap();
    assert_eq!(piece.get_props(), Props { id: 9, kind: Sides::Corner(3, 4) });
    assert_eq!(piece.get_kind(), Kind::Corner);
    assert_eq!(Sides::Border(1, 2, 3).get_kind(), Kind::Border);
    assert_eq!(Sides::Full(1, 2, 3, 4).get_kind(), Kind::Full);
    assert_eq!(Piece::new(1, vec![0, 9, 3, 4]).unwrap().get_kind(), Kind::Border);
    assert_eq!(Piece::new(1, vec![8, 9, 3, 4]).unwrap().get_kind(), Kind::Full);
}

#[test]
fn test_sides_shows() {
    assert!(Sides::Corner(3, 4).shows(3));
    assert!(Sides::Corner(3, 4).shows(4));
    assert!(!Sides::Corner(3, 4).shows(5));
    assert!(Sides::Border(1, 2, 3).shows(3));
    assert!(!Sides::Border(1, 2, 3).shows(0));
    assert!(Sides::Full(1, 2, 3, 4).shows(4));
    assert!(!Sides::Full(1, 2, 3, 4).shows(5));
}
