use vstd::prelude::*;
use crate::board::Compass;
use crate::piece::{border_offset, corner_borders, corner_offset, Kind, Props, Sides};

verus! {

/// A position of the board. Its shape and the edges of the grid that it
/// touches are fixed; the occupant comes and goes, and with it the rotation
/// of a full cell.
#[derive(Debug, Copy, Clone, PartialEq, Eq)]
pub enum Cell {
    /// A corner of the grid, with the two edges it touches: north or south,
    /// then west or east.
    CornerCell(Option<Props>, (Border, Border)),
    /// A cell on one edge of the grid.
    BorderCell(Option<Props>, Border),
    /// An inner cell, with the rotation of its occupant.
    FullCell(Option<Props>, Option<Compass>),
}

/// A side of a cell, named by the compass direction it looks at.
#[derive(Debug, Copy, Clone, PartialEq, Eq, Structural)]
pub enum Border {
    North,
    East,
    South,
    West,
}

/// What is seen when looking at one side of a cell: the edge of the grid,
/// nothing yet (an empty cell constrains nothing), or a color.
#[derive(Debug, Copy, Clone, PartialEq, Eq, Structural)]
pub enum Face {
    Border,
    Open,
    Color(u8),
}

impl Border {
    /// Number of clockwise quarter turns from north.
    pub open spec fn index(self) -> int {
        match self {
            Border::North => 0,
            Border::East => 1,
            Border::South => 2,
            Border::West => 3,
        }
    }

    /// The side that looks the other way.
    pub open spec fn opposite(self) -> Border {
        match self {
            Border::North => Border::South,
            Border::East => Border::West,
            Border::South => Border::North,
            Border::West => Border::East,
        }
    }
}

impl Cell {
    /// The shape that the variant names.
    pub open spec fn kind(self) -> Kind {
        match self {
            Cell::CornerCell(..) => Kind::Corner,
            Cell::BorderCell(..) => Kind::Border,
            Cell::FullCell(..) => Kind::Full,
        }
    }

    /// The piece in the cell, if any.
    pub open spec fn occupant(self) -> Option<Props> {
        match self {
            Cell::CornerCell(p, _) => p,
            Cell::BorderCell(p, _) => p,
            Cell::FullCell(p, _) => p,
        }
    }

    /// The side `side` of the cell lies on the edge of the grid.
    pub open spec fn touches(self, side: Border) -> bool {
        match self {
            Cell::CornerCell(_, borders) => side == borders.0 || side == borders.1,
            Cell::BorderCell(_, border) => side == border,
            Cell::FullCell(..) => false,
        }
    }

    /// The cell with nothing in it.
    pub open spec fn emptied(self) -> Cell {
        match self {
            Cell::CornerCell(_, borders) => Cell::CornerCell(None, borders),
            Cell::BorderCell(_, border) => Cell::BorderCell(None, border),
            Cell::FullCell(..) => Cell::FullCell(None, None),
        }
    }

    /// The cell holding `props`; `compass` is kept by a full cell only.
    pub open spec fn filled(self, props: Props, compass: Option<Compass>) -> Cell {
        match self {
            Cell::CornerCell(_, borders) => Cell::CornerCell(Some(props), borders),
            Cell::BorderCell(_, border) => Cell::BorderCell(Some(props), border),
            Cell::FullCell(..) => Cell::FullCell(Some(props), compass),
        }
    }

    /// A corner cell names a corner of the grid; an occupant has the shape of
    /// the cell; a full cell stores a rotation exactly while it is occupied.
    pub open spec fn wf(self) -> bool {
        match self {
            Cell::CornerCell(p, borders) => {
                &&& corner_borders(borders)
                &&& p matches Some(props) ==> props.kind is Corner
            },
            Cell::BorderCell(p, _) => p matches Some(props) ==> props.kind is Border,
            Cell::FullCell(p, c) => {
                &&& p matches Some(props) ==> props.kind is Full
                &&& p is Some <==> c is Some
            },
        }
    }

    /// The direction that the leading side of the occupant faces: fixed by the
    /// edges for corner and border cells, the stored rotation for a full cell.
    pub open spec fn compass(self) -> Option<Compass> {
        match self {
            Cell::CornerCell(_, borders) => Some(corner_offset(borders)),
            Cell::BorderCell(_, border) => Some(border_offset(border)),
            Cell::FullCell(_, c) => c,
        }
    }

    /// The face that the cell shows at `side`: the edge of the grid where it
    /// touches it, else the occupant's face there, else nothing.
    pub open spec fn face(self, side: Border) -> Face {
        if self.touches(side) {
            Face::Border
        } else {
            match self.occupant() {
                None => Face::Open,
                Some(props) => props.kind.face_at(side, self.compass().unwrap()),
            }
        }
    }

    /// The faces at north, east, south and west.
    pub open spec fn faces(self) -> (Face, Face, Face, Face) {
        (
            self.face(Border::North),
            self.face(Border::East),
            self.face(Border::South),
            self.face(Border::West),
        )
    }

    /// The direction that the leading side of the occupant faces, or `None` in
    /// an empty full cell.
    pub fn get_compass(&self) -> (r: Option<Compass>)
        requires
            self.wf(),
        ensures
            r == self.compass(),
    {
        match self {
            Cell::CornerCell(_, borders) => Some(Cell::get_corner_offset(borders)),
            Cell::BorderCell(_, border) => Some(Cell::get_border_offset(border)),
            Cell::FullCell(Some(_), Some(compass)) => Some(*compass),
            _ => None,
        }
    }

    /// The direction that the leading side of a piece faces in the corner that
    /// touches `borders`.
    pub fn get_corner_offset(borders: &(Border, Border)) -> (r: Compass)
        requires
            corner_borders(*borders),
        ensures
            r == corner_offset(*borders),
    {
        Sides::get_corner_offset(borders)
    }

    /// The direction that the leading side of a piece faces on the edge
    /// `border`.
    pub fn get_border_offset(border: &Border) -> (r: Compass)
        ensures
            r == border_offset(*border),
    {
        Sides::get_border_offset(border)
    }

    /// The faces that the cell shows at north, east, south and west.
    pub fn get_faces(&self) -> (r: (Face, Face, Face, Face))
        requires
            self.wf(),
        ensures
            r == self.faces(),
    {
        match self {
            Cell::CornerCell(props, borders) => Cell::get_faces_corner(props, borders),
            Cell::BorderCell(props, border) => Cell::get_faces_border(props, border),
            Cell::FullCell(props, compass) => Cell::get_faces_full(props, compass),
        }
    }

    /// The faces of the corner cell that holds `pps` and touches `brds`.
    pub fn get_faces_corner(pps: &Option<Props>, brds: &(Border, Border)) -> (r: (
        Face,
        Face,
        Face,
        Face,
    ))
        requires
            Cell::CornerCell(*pps, *brds).wf(),
        ensures
            r == Cell::CornerCell(*pps, *brds).faces(),
    {
        let compass = Sides::get_corner_offset(brds);

        match pps {
            Some(Props { kind: Sides::Corner(a, b), .. }) => Sides::get_faces_corner(
                &compass,
                a,
                b,
            ),
            _ => {
                let (ns, we) = brds;
                (
                    if *ns == Border::North {
                        Face::Border
                    } else {
                        Face::Open
                    },
                    if *we == Border::East {
                        Face::Border
                    } else {
                        Face::Open
                    },
                    if *ns == Border::South {
                        Face::Border
                    } else {
                        Face::Open
                    },
                    if *we == Border::West {
                        Face::Border
                    } else {
                        Face::Open
                    },
                )
            },
        }
    }

    /// The faces of the border cell that holds `props` and touches `border`.
    pub fn get_faces_border(props: &Option<Props>, border: &Border) -> (r: (
        Face,
        Face,
        Face,
        Face,
    ))
        requires
            Cell::BorderCell(*props, *border).wf(),
        ensures
            r == Cell::BorderCell(*props, *border).faces(),
    {
        let compass = Sides::get_border_offset(border);

        match props {
            Some(Props { kind: Sides::Border(a, b, c), .. }) => Sides::get_faces_border(
                &compass,
                a,
                b,
                c,
            ),
            _ => (
                if *border == Border::North {
                    Face::Border
                } else {
                    Face::Open
                },
                if *border == Border::East {
                    Face::Border
                } else {
                    Face::Open
                },
                if *border == Border::South {
                    Face::Border
                } else {
                    Face::Open
                },
                if *border == Border::West {
                    Face::Border
                } else {
                    Face::Open
                },
            ),
        }
    }

    /// The faces of the full cell that holds `pps` turned to `cps`.
    pub fn get_faces_full(pps: &Option<Props>, cps: &Option<Compass>) -> (r: (
        Face,
        Face,
        Face,
        Face,
    ))
        requires
            Cell::FullCell(*pps, *cps).wf(),
        ensures
            r == Cell::FullCell(*pps, *cps).faces(),
    {
        match (pps, cps) {
            (Some(Props { kind: Sides::Full(a, b, c, d), .. }), Some(compass)) => {
                Sides::get_faces_full(compass, a, b, c, d)
            },
            _ => (Face::Open, Face::Open, Face::Open, Face::Open),
        }
    }

    /// The face that the cell shows at `side`.
    pub fn get_face(&self, side: Border) -> (r: Face)
        requires
            self.wf(),
        ensures
            r == self.face(side),
    {
        match self {
            Cell::CornerCell(props, borders) => Cell::get_face_corner(side, props, borders),
            Cell::BorderCell(props, border) => Cell::get_face_border(side, props, border),
            Cell::FullCell(props, compass) => Cell::get_face_full(side, props, compass),
        }
    }

    /// The face at `side` of the corner cell that holds `props` and touches
    /// `borders`.
    pub fn get_face_corner(side: Border, props: &Option<Props>, borders: &(Border, Border)) -> (r:
        Face)
        requires
            Cell::CornerCell(*props, *borders).wf(),
        ensures
            r == Cell::CornerCell(*props, *borders).face(side),
    {
        let offset = Sides::get_corner_offset(borders);

        if side == borders.0 || side == borders.1 {
            return Face::Border;
        }
        match props {
            Some(Props { kind: Sides::Corner(a, b), .. }) => Sides::get_face_corner(
                side,
                &offset,
                a,
                b,
            ),
            _ => Face::Open,
        }
    }

    /// The face at `side` of the border cell that holds `props` and touches
    /// `border`.
    pub fn get_face_border(side: Border, props: &Option<Props>, border: &Border) -> (r: Face)
        requires
            Cell::BorderCell(*props, *border).wf(),
        ensures
            r == Cell::BorderCell(*props, *border).face(side),
    {
        let offset = Sides::get_border_offset(border);

        if side == *border {
            return Face::Border;
        }
        match props {
            Some(Props { kind: Sides::Border(a, b, c), .. }) => Sides::get_face_border(
                side,
                &offset,
                a,
                b,
                c,
            ),
            _ => Face::Open,
        }
    }

    /// The face at `side` of the full cell that holds `props` turned to
    /// `compass`.
    pub fn get_face_full(side: Border, props: &Option<Props>, compass: &Option<Compass>) -> (r:
        Face)
        requires
            Cell::FullCell(*props, *compass).wf(),
        ensures
            r == Cell::FullCell(*props, *compass).face(side),
    {
        match (compass, props) {
            (Some(compass), Some(Props { kind: Sides::Full(a, b, c, d), .. })) => {
                Sides::get_face_full(side, compass, a, b, c, d)
            },
            _ => Face::Open,
        }
    }
}

/// Whatever a corner cell holds, it shows the edge of the grid on the two
/// sides that touch it and on no other side.
pub proof fn lemma_corner_cell_faces(
    occupant: Option<Props>,
    borders: (Border, Border),
    side: Border,
)
    requires
        Cell::CornerCell(occupant, borders).wf(),
    ensures
        Cell::CornerCell(occupant, borders).face(borders.0) == Face::Border,
        Cell::CornerCell(occupant, borders).face(borders.1) == Face::Border,
        borders.0 != borders.1,
        side != borders.0 && side != borders.1 ==> Cell::CornerCell(occupant, borders).face(side)
            != Face::Border,
{
}

/// Whatever a border cell holds, it shows the edge of the grid on the side
/// that touches it and on no other side.
pub proof fn lemma_border_cell_faces(occupant: Option<Props>, border: Border, side: Border)
    requires
        Cell::BorderCell(occupant, border).wf(),
    ensures
        Cell::BorderCell(occupant, border).face(side) == Face::Border <==> side == border,
{
}

/// An occupied cell shows no open face.
pub proof fn lemma_occupied_cell_faces(cell: Cell, side: Border)
    requires
        cell.wf(),
        cell.occupant() is Some,
    ensures
        cell.face(side) != Face::Open,
{
}

} // verus!
