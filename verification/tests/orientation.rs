use edge_puzzle::board::Compass;
use edge_puzzle::cell::Face::Color;
use edge_puzzle::cell::{Border, Face};
use edge_puzzle::piece::{Piece, Sides};

const SIDES: [Border; 4] = [Border::North, Border::East, Border::South, Border::West];
const TURNS: [Compass; 4] = [Compass::North, Compass::East, Compass::South, Compass::West];

fn as_vec(faces: (Face, Face, Face, Face)) -> Vec<Face> {
    vec![faces.0, faces.1, faces.2, faces.3]
}

fn sorted_colors(faces: &[Face]) -> Vec<u16> {
    let mut out: Vec<u16> = Vec::new();
    for f in faces {
        out.push(match f {
            Face::Border => 1000,
            Face::Open => 2000,
            Face::Color(c) => *c as u16,
        });
    }
    out.sort();
    out
}

#[test]
fn test_corner_offsets() {
    assert_eq!(
        Sides::get_corner_offset(&(Border::North, Border::West)),
        Compass::East
    );
    assert_eq!(
        Sides::get_corner_offset(&(Border::North, Border::East)),
        Compass::South
    );
    assert_eq!(
        Sides::get_corner_offset(&(Border::South, Border::East)),
        Compass::West
    );
    assert_eq!(
        Sides::get_corner_offset(&(Border::South, Border::West)),
        Compass::North
    );
}

#[test]
fn test_border_offsets() {
    assert_eq!(Sides::get_border_offset(&Border::North), Compass::East);
    assert_eq!(Sides::get_border_offset(&Border::East), Compass::South);
    assert_eq!(Sides::get_border_offset(&Border::South), Compass::West);
    assert_eq!(Sides::get_border_offset(&Border::West), Compass::North);
}

#[test]
fn test_full_rotation_exact_faces() {
    let sides = Sides::Full(1, 2, 3, 4);
    assert_eq!(
        sides.get_faces(&Compass::North),
        (Color(1), Color(2), Color(3), Color(4))
    );
    assert_eq!(
        sides.get_faces(&Compass::East),
        (Color(4), Color(1), Color(2), Color(3))
    );
    assert_eq!(
        sides.get_faces(&Compass::South),
        (Color(3), Color(4), Color(1), Color(2))
    );
    assert_eq!(
        sides.get_faces(&Compass::West),
        (Color(2), Color(3), Color(4), Color(1))
    );
}

#[test]
fn test_rotation_is_cyclic_shift() {
    let all = [
        Sides::Full(7, 8, 9, 10),
        Sides::Border(4, 5, 6),
        Sides::Corner(2, 3),
    ];
    for sides in all.iter() {
        let canonical = as_vec(sides.get_faces(&Compass::North));
        for (k, turn) in TURNS.iter().enumerate() {
            let faces = as_vec(sides.get_faces(turn));
            let mut expected = canonical.clone();
            expected.rotate_right(k);
            assert_eq!(faces, expected);
            assert_eq!(sorted_colors(&faces), sorted_colors(&canonical));
        }
    }
}

#[test]
fn test_get_face_agrees_with_get_faces() {
    let all = [
        Sides::Full(7, 8, 9, 10),
        Sides::Border(4, 5, 6),
        Sides::Corner(2, 3),
    ];
    for sides in all.iter() {
        for turn in TURNS.iter() {
            let faces = as_vec(sides.get_faces(turn));
            for (i, side) in SIDES.iter().enumerate() {
                assert_eq!(sides.get_face(*side, turn), faces[i]);
            }
        }
    }
}

#[test]
fn test_faces_by_shape() {
    assert_eq!(
        Sides::get_faces_corner(&Compass::East, &1, &2),
        (Face::Border, Color(1), Color(2), Face::Border)
    );
    assert_eq!(
        Sides::get_faces_border(&Compass::South, &1, &2, &3),
        (Color(3), Face::Border, Color(1), Color(2))
    );
    assert_eq!(
        Sides::get_faces_full(&Compass::West, &1, &2, &3, &4),
        (Color(2), Color(3), Color(4), Color(1))
    );
    assert_eq!(
        Sides::get_face_corner(Border::South, &Compass::East, &1, &2),
        Color(2)
    );
    assert_eq!(
        Sides::get_face_corner(Border::West, &Compass::East, &1, &2),
        Face::Border
    );
    assert_eq!(
        Sides::get_face_border(Border::North, &Compass::South, &1, &2, &3),
        Color(3)
    );
    assert_eq!(
        Sides::get_face_full(Border::North, &Compass::East, &1, &2, &3, &4),
        Color(4)
    );
}

#[test]
fn test_piece_faces() {
    let piece = Piece::new(3, vec![0, 1, 3, 2]).unwrap();
    assert_eq!(
        piece.get_faces(&Compass::North),
        (Color(1), Color(3), Color(2), Face::Border)
    );
}
