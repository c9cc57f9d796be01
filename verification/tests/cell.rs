use edge_puzzle::board::Compass;
use edge_puzzle::cell::Border::{East, North, South, West};
use edge_puzzle::cell::Face::Color;
use edge_puzzle::cell::{Cell, Face};
use edge_puzzle::piece::{Props, Sides};

#[test]
fn test_get_faces_corner() {
    assert_eq!(
        Cell::CornerCell(None, (North, West)).get_faces(),
        (Face::Border, Face::Open, Face::Open, Face::Border)
    );
    assert_eq!(
        Cell::CornerCell(None, (North, East)).get_faces(),
        (Face::Border, Face::Border, Face::Open, Face::Open)
    );
    assert_eq!(
        Cell::CornerCell(None, (South, East)).get_faces(),
        (Face::Open, Face::Border, Face::Border, Face::Open,)
    );
    assert_eq!(
        Cell::CornerCell(None, (South, West)).get_faces(),
        (Face::Open, Face::Open, Face::Border, Face::Border)
    );

    let props = Some(Props {
        id: 0,
        kind: Sides::Corner(1, 2),
    });

    assert_eq!(
        Cell::CornerCell(props, (North, West),).get_faces(),
        (Face::Border, Face::Color(1), Face::Color(2), Face::Border)
    );
    assert_eq!(
        Cell::CornerCell(props, (North, East),).get_faces(),
        (Face::Border, Face::Border, Face::Color(1), Face::Color(2))
    );
    assert_eq!(
        Cell::CornerCell(props, (South, East),).get_faces(),
        (Face::Color(2), Face::Border, Face::Border, Face::Color(1))
    );
    assert_eq!(
        Cell::CornerCell(props, (South, West)).get_faces(),
        (Face::Color(1), Face::Color(2), Face::Border, Face::Border)
    );
}
#[test]
fn test_get_faces_border() {
    assert_eq!(
        Cell::BorderCell(None, North).get_faces(),
        (Face::Border, Face::Open, Face::Open, Face::Open)
    );
    assert_eq!(
        Cell::BorderCell(None, East).get_faces(),
        (Face::Open, Face::Border, Face::Open, Face::Open)
    );
    assert_eq!(
        Cell::BorderCell(None, South).get_faces(),
        (Face::Open, Face::Open, Face::Border, Face::Open,)
    );
    assert_eq!(
        Cell::BorderCell(None, West).get_faces(),
        (Face::Open, Face::Open, Face::Open, Face::Border)
    );

    let props = Some(Props {
        id: 0,
        kind: Sides::Border(1, 2, 3),
    });

    assert_eq!(
        Cell::BorderCell(props, North).get_faces(),
        (Face::Border, Face::Color(1), Face::Color(2), Face::Color(3))
    );
    assert_eq!(
        Cell::BorderCell(props, East).get_faces(),
        (Face::Color(3), Face::Border, Face::Color(1), Face::Color(2))
    );
    assert_eq!(
        Cell::BorderCell(props, South).get_faces(),
        (Face::Color(2), Face::Color(3), Face::Border, Face::Color(1))
    );
    assert_eq!(
        Cell::BorderCell(props, West).get_faces(),
        (Face::Color(1), Face::Color(2), Face::Color(3), Face::Border)
    );
}

#[test]
fn test_get_faces_full() {
    assert_eq!(
        Cell::FullCell(None, None).get_faces(),
        (Face::Open, Face::Open, Face::Open, Face::Open)
    );

    let props = Some(Props {
        id: 0,
        kind: Sides::Full(1, 2, 3, 4),
    });

    assert_eq!(
        Cell::FullCell(props, Some(Compass::North)).get_faces(),
        (Color(1), Color(2), Color(3), Color(4))
    );
    assert_eq!(
        Cell::FullCell(props, Some(Compass::East)).get_faces(),
        (Color(4), Color(1), Color(2), Color(3))
    );
    assert_eq!(
        Cell::FullCell(props, Some(Compass::South)).get_faces(),
        (Color(3), Color(4), Color(1), Color(2))
    );
    assert_eq!(
        Cell::FullCell(props, Some(Compass::West)).get_faces(),
        (Color(2), Color(3), Color(4), Color(1))
    );
}

#[test]
fn test_get_face_corner() {
    let corner_cell = Cell::CornerCell(None, (North, West));
    assert_eq!(Face::Border, corner_cell.get_face(North));
    assert_eq!(Face::Border, corner_cell.get_face(West));
    assert_eq!(Face::Open, corner_cell.get_face(East));
    assert_eq!(Face::Open, corner_cell.get_face(South));

    let corner_cell = Cell::CornerCell(None, (South, West));
    assert_eq!(Face::Border, corner_cell.get_face(South));
    assert_eq!(Face::Border, corner_cell.get_face(West));
    assert_eq!(Face::Open, corner_cell.get_face(East));
    assert_eq!(Face::Open, corner_cell.get_face(North));

    let corner_cell = Cell::CornerCell(None, (North, East));
    assert_eq!(Face::Border, corner_cell.get_face(North));
    assert_eq!(Face::Border, corner_cell.get_face(East));
    assert_eq!(Face::Open, corner_cell.get_face(West));
    assert_eq!(Face::Open, corner_cell.get_face(South));

    let corner_cell = Cell::CornerCell(None, (South, East));
    assert_eq!(Face::Border, corner_cell.get_face(South));
    assert_eq!(Face::Border, corner_cell.get_face(East));
    assert_eq!(Face::Open, corner_cell.get_face(West));
    assert_eq!(Face::Open, corner_cell.get_face(North));

    let props = Some(Props {
        id: 0,
        kind: Sides::Corner(1, 2),
    });
    let corner_cell = Cell::CornerCell(props, (North, West));
    assert_eq!(Face::Border, corner_cell.get_face(North));
    assert_eq!(Face::Border, corner_cell.get_face(West));
    assert_eq!(Face::Color(1), corner_cell.get_face(East));
    assert_eq!(Face::Color(2), corner_cell.get_face(South));

    let corner_cell = Cell::CornerCell(props, (North, East));
    assert_eq!(Face::Border, corner_cell.get_face(North));
    assert_eq!(Face::Border, corner_cell.get_face(East));
    assert_eq!(Face::Color(1), corner_cell.get_face(South));
    assert_eq!(Face::Color(2), corner_cell.get_face(West));

    let corner_cell = Cell::CornerCell(props, (South, West));
    assert_eq!(Face::Border, corner_cell.get_face(South));
    assert_eq!(Face::Border, corner_cell.get_face(West));
    assert_eq!(Face::Color(1), corner_cell.get_face(North));
    assert_eq!(Face::Color(2), corner_cell.get_face(East));

    let corner_cell = Cell::CornerCell(props, (South, East));
    assert_eq!(Face::Border, corner_cell.get_face(South));
    assert_eq!(Face::Border, corner_cell.get_face(East));
    assert_eq!(Face::Color(1), corner_cell.get_face(West));
    assert_eq!(Face::Color(2), corner_cell.get_face(North));
}

#[test]
fn test_get_face_border() {
    let border_cell = Cell::BorderCell(None, North);
    assert_eq!(border_cell.get_face(North), Face::Border);
    assert_eq!(border_cell.get_face(East), Face::Open);
    assert_eq!(border_cell.get_face(South), Face::Open);
    assert_eq!(border_cell.get_face(West), Face::Open);

    let border_cell = Cell::BorderCell(None, East);
    assert_eq!(border_cell.get_face(North), Face::Open);
    assert_eq!(border_cell.get_face(East), Face::Border);
    assert_eq!(border_cell.get_face(South), Face::Open);
    assert_eq!(border_cell.get_face(West), Face::Open);

    let border_cell = Cell::BorderCell(None, South);
    assert_eq!(border_cell.get_face(North), Face::Open);
    assert_eq!(border_cell.get_face(East), Face::Open);
    assert_eq!(border_cell.get_face(South), Face::Border);
    assert_eq!(border_cell.get_face(West), Face::Open);

    let border_cell = Cell::BorderCell(None, West);
    assert_eq!(border_cell.get_face(North), Face::Open);
    assert_eq!(border_cell.get_face(East), Face::Open);
    assert_eq!(border_cell.get_face(South), Face::Open);
    assert_eq!(border_cell.get_face(West), Face::Border);

    let props = Some(Props {
        id: 4,
        kind: Sides::Border(1, 2, 3),
    });
    let border_cell = Cell::BorderCell(props, North);
    assert_eq!(border_cell.get_face(North), Face::Border);
    assert_eq!(border_cell.get_face(East), Face::Color(1));
    assert_eq!(border_cell.get_face(South), Face::Color(2));
    assert_eq!(border_cell.get_face(West), Face::Color(3));

    let border_cell = Cell::BorderCell(props, East);
    assert_eq!(border_cell.get_face(East), Face::Border);
    assert_eq!(border_cell.get_face(South), Face::Color(1));
    assert_eq!(border_cell.get_face(West), Face::Color(2));
    assert_eq!(border_cell.get_face(North), Face::Color(3));

    let border_cell = Cell::BorderCell(props, South);
    assert_eq!(border_cell.get_face(South), Face::Border);
    assert_eq!(border_cell.get_face(West), Face::Color(1));
    assert_eq!(border_cell.get_face(North), Face::Color(2));
    assert_eq!(border_cell.get_face(East), Face::Color(3));

    let border_cell = Cell::BorderCell(props, West);
    assert_eq!(border_cell.get_face(West), Face::Border);
    assert_eq!(border_cell.get_face(North), Face::Color(1));
    assert_eq!(border_cell.get_face(East), Face::Color(2));
    assert_eq!(border_cell.get_face(South), Face::Color(3));
}

#[test]
fn test_get_face_full() {
    let full_cell = Cell::FullCell(None, None);
    assert_eq!(full_cell.get_face(North), Face::Open);
    assert_eq!(full_cell.get_face(East), Face::Open);
    assert_eq!(full_cell.get_face(South), Face::Open);
    assert_eq!(full_cell.get_face(West), Face::Open);

    let props = Some(Props {
        id: 12,
        kind: Sides::Full(1, 2, 3, 4),
    });
    let full_cell = Cell::FullCell(props, Some(Compass::North));
    assert_eq!(full_cell.get_face(North), Face::Color(1));
    assert_eq!(full_cell.get_face(East), Face::Color(2));
    assert_eq!(full_cell.get_face(South), Face::Color(3));
    assert_eq!(full_cell.get_face(West), Face::Color(4));

    let full_cell = Cell::FullCell(props, Some(Compass::East));
    assert_eq!(full_cell.get_face(East), Face::Color(1));
    assert_eq!(full_cell.get_face(South), Face::Color(2));
    assert_eq!(full_cell.get_face(West), Face::Color(3));
    assert_eq!(full_cell.get_face(North), Face::Color(4));

    let full_cell = Cell::FullCell(props, Some(Compass::South));
    assert_eq!(full_cell.get_face(South), Face::Color(1));
    assert_eq!(full_cell.get_face(West), Face::Color(2));
    assert_eq!(full_cell.get_face(North), Face::Color(3));
    assert_eq!(full_cell.get_face(East), Face::Color(4));

    let full_cell = Cell::FullCell(props, Some(Compass::West));
    assert_eq!(full_cell.get_face(West), Face::Color(1));
    assert_eq!(full_cell.get_face(North), Face::Color(2));
    assert_eq!(full_cell.get_face(East), Face::Color(3));
    assert_eq!(full_cell.get_face(South), Face::Color(4));
}
