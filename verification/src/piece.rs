use vstd::prelude::*;
use vstd::seq_lib::lemma_multiset_commutative;
use crate::board::Compass;
use crate::cell::{Border, Face};

verus! {

/// The three shapes of pieces and of cells.
#[derive(Debug, Copy, Clone, PartialEq, Eq, Structural)]
pub enum Kind {
    Corner,
    Border,
    Full,
}

/// Why a record of raw values is not a piece.
#[derive(Debug, Copy, Clone, PartialEq, Eq, Structural)]
pub enum ClassificationError {
    /// The record does not hold exactly four values.
    WrongLength,
    /// The record starts with more than two zeros.
    LeadingZeros,
    /// A value behind the leading zeros is zero.
    ZeroColor,
}

/// A classified piece. The variant repeats the shape of the sides it holds.
#[derive(Debug, Copy, Clone, PartialEq, Eq, Structural)]
pub enum Piece {
    CornerPiece(Props),
    BorderPiece(Props),
    FullPiece(Props),
}

/// The identifier of a piece and its sides.
#[derive(Debug, Copy, Clone, PartialEq, Eq, Structural)]
pub struct Props {
    pub id: u8,
    pub kind: Sides,
}

/// The colors of a piece in recorded order, starting at its leading side and
/// going clockwise. A corner records two colors, a border three, a full piece
/// four; the sides that are not recorded lie on the edge of the grid.
#[derive(Debug, Copy, Clone, PartialEq, Eq, Structural)]
pub enum Sides {
    Corner(u8, u8),
    Border(u8, u8, u8),
    Full(u8, u8, u8, u8),
}

/// The number of zeros at the start of a record of four values.
pub open spec fn leading_zeros(record: Seq<u8>) -> int {
    if record[0] != 0 {
        0
    } else if record[1] != 0 {
        1
    } else if record[2] != 0 {
        2
    } else if record[3] != 0 {
        3
    } else {
        4
    }
}

/// What a record `(top, right, bottom, left)` classifies as: two leading zeros
/// make a corner of the last two values, one leading zero a border of the last
/// three, none a full piece; every value behind the leading zeros must be
/// positive.
pub open spec fn classify(id: u8, record: Seq<u8>) -> Result<Piece, ClassificationError> {
    let zeros = leading_zeros(record);
    if record.len() != 4 {
        Err(ClassificationError::WrongLength)
    } else if zeros > 2 {
        Err(ClassificationError::LeadingZeros)
    } else if exists|i: int| zeros <= i < 4 && #[trigger] record[i] == 0 {
        Err(ClassificationError::ZeroColor)
    } else if zeros == 2 {
        Ok(Piece::CornerPiece(Props { id, kind: Sides::Corner(record[2], record[3]) }))
    } else if zeros == 1 {
        Ok(Piece::BorderPiece(Props { id, kind: Sides::Border(record[1], record[2], record[3]) }))
    } else {
        Ok(
            Piece::FullPiece(
                Props { id, kind: Sides::Full(record[0], record[1], record[2], record[3]) },
            ),
        )
    }
}

impl Piece {
    /// The identifier and sides, whatever the variant.
    pub open spec fn props(self) -> Props {
        match self {
            Piece::CornerPiece(p) => p,
            Piece::BorderPiece(p) => p,
            Piece::FullPiece(p) => p,
        }
    }

    /// The shape that the variant names.
    pub open spec fn kind(self) -> Kind {
        match self {
            Piece::CornerPiece(_) => Kind::Corner,
            Piece::BorderPiece(_) => Kind::Border,
            Piece::FullPiece(_) => Kind::Full,
        }
    }

    /// The variant agrees with the shape of the sides, and every color is
    /// positive.
    pub open spec fn wf(self) -> bool {
        &&& self.props().kind.kind() == self.kind()
        &&& self.props().kind.wf()
    }

    /// Classifies a record of four raw values as the piece `id`.
    pub fn new(id: u8, vec: Vec<u8>) -> (r: Result<Piece, ClassificationError>)
        ensures
            r == classify(id, vec@),
            r matches Ok(p) ==> p.wf() && p.props().id == id,
    {
        Piece::from_record(id, &vec)
    }

    /// Classifies a borrowed record of four raw values as the piece `id`.
    pub fn from_record(id: u8, record: &Vec<u8>) -> (r: Result<Piece, ClassificationError>)
        ensures
            r == classify(id, record@),
            r matches Ok(p) ==> p.wf() && p.props().id == id,
    {
        if record.len() != 4 {
            return Err(ClassificationError::WrongLength);
        }
        let t: u8 = record[0];
        let r: u8 = record[1];
        let b: u8 = record[2];
        let l: u8 = record[3];
        if t == 0 && r == 0 && b == 0 {
            Err(ClassificationError::LeadingZeros)
        } else if b == 0 || l == 0 || (t != 0 && r == 0) {
            Err(ClassificationError::ZeroColor)
        } else if t == 0 && r == 0 {
            Ok(Piece::CornerPiece(Props::new(id, Sides::Corner(b, l))))
        } else if t == 0 {
            Ok(Piece::BorderPiece(Props::new(id, Sides::Border(r, b, l))))
        } else {
            Ok(Piece::FullPiece(Props::new(id, Sides::Full(t, r, b, l))))
        }
    }

    /// The identifier and sides, whatever the variant.
    pub fn get_props(&self) -> (r: Props)
        ensures
            r == self.props(),
    {
        match self {
            Piece::CornerPiece(p) => *p,
            Piece::BorderPiece(p) => *p,
            Piece::FullPiece(p) => *p,
        }
    }

    /// The shape that the variant names.
    pub fn get_kind(&self) -> (r: Kind)
        ensures
            r == self.kind(),
    {
        match self {
            Piece::CornerPiece(_) => Kind::Corner,
            Piece::BorderPiece(_) => Kind::Border,
            Piece::FullPiece(_) => Kind::Full,
        }
    }

    /// The faces of the piece at north, east, south and west when its leading
    /// side looks at `offset`.
    pub fn get_faces(&self, offset: &Compass) -> (r: (Face, Face, Face, Face))
        ensures
            r == self.props().kind.faces(*offset),
    {
        self.get_props().kind.get_faces(offset)
    }
}

impl Props {
    /// The piece `id` with the sides `kind`.
    pub fn new(id: u8, kind: Sides) -> (r: Self)
        ensures
            r == (Props { id, kind }),
    {
        Self { id, kind }
    }
}

/// The two boundary tags of a corner cell name a corner of the grid: north or
/// south first, then west or east.
pub open spec fn corner_borders(borders: (Border, Border)) -> bool {
    &&& borders.0 == Border::North || borders.0 == Border::South
    &&& borders.1 == Border::West || borders.1 == Border::East
}

/// The direction that the leading side of a corner piece faces in the corner
/// that touches `borders`: the first side clockwise behind the two edges.
pub open spec fn corner_offset(borders: (Border, Border)) -> Compass {
    match borders {
        (Border::North, Border::West) => Compass::East,
        (Border::North, _) => Compass::South,
        (_, Border::East) => Compass::West,
        _ => Compass::North,
    }
}

/// The direction that the leading side of a border piece faces on the edge
/// `border`: the first side clockwise behind the edge.
pub open spec fn border_offset(border: Border) -> Compass {
    match border {
        Border::North => Compass::East,
        Border::East => Compass::South,
        Border::South => Compass::West,
        Border::West => Compass::North,
    }
}

impl Sides {
    /// The shape that the variant names.
    pub open spec fn kind(self) -> Kind {
        match self {
            Sides::Corner(..) => Kind::Corner,
            Sides::Border(..) => Kind::Border,
            Sides::Full(..) => Kind::Full,
        }
    }

    /// Every recorded color is positive.
    pub open spec fn wf(self) -> bool {
        match self {
            Sides::Corner(a, b) => a > 0 && b > 0,
            Sides::Border(a, b, c) => a > 0 && b > 0 && c > 0,
            Sides::Full(a, b, c, d) => a > 0 && b > 0 && c > 0 && d > 0,
        }
    }

    /// The four sides clockwise from the leading side: the recorded colors,
    /// then the sides that lie on the edge of the grid.
    pub open spec fn canonical(self) -> Seq<Face> {
        match self {
            Sides::Corner(a, b) => seq![Face::Color(a), Face::Color(b), Face::Border, Face::Border],
            Sides::Border(a, b, c) => seq![
                Face::Color(a),
                Face::Color(b),
                Face::Color(c),
                Face::Border,
            ],
            Sides::Full(a, b, c, d) => seq![
                Face::Color(a),
                Face::Color(b),
                Face::Color(c),
                Face::Color(d),
            ],
        }
    }

    /// The face seen at `side` when the leading side looks at `offset`: the
    /// canonical side that lies as many quarter turns behind the leading side
    /// as `side` lies behind `offset`.
    pub open spec fn face_at(self, side: Border, offset: Compass) -> Face {
        self.canonical()[(side.index() - offset.index()) % 4]
    }

    /// The faces at north, east, south and west when the leading side looks at
    /// `offset`.
    pub open spec fn faces(self, offset: Compass) -> (Face, Face, Face, Face) {
        (
            self.face_at(Border::North, offset),
            self.face_at(Border::East, offset),
            self.face_at(Border::South, offset),
            self.face_at(Border::West, offset),
        )
    }

    /// The color `color` is recorded on some side.
    pub open spec fn has_color(self, color: u8) -> bool {
        match self {
            Sides::Corner(a, b) => a == color || b == color,
            Sides::Border(a, b, c) => a == color || b == color || c == color,
            Sides::Full(a, b, c, d) => a == color || b == color || c == color || d == color,
        }
    }

    /// The shape that the variant names.
    pub fn get_kind(&self) -> (r: Kind)
        ensures
            r == self.kind(),
    {
        match self {
            Sides::Corner(..) => Kind::Corner,
            Sides::Border(..) => Kind::Border,
            Sides::Full(..) => Kind::Full,
        }
    }

    /// Whether `color` is recorded on some side.
    pub fn shows(&self, color: u8) -> (r: bool)
        ensures
            r == self.has_color(color),
    {
        match self {
            Sides::Corner(a, b) => *a == color || *b == color,
            Sides::Border(a, b, c) => *a == color || *b == color || *c == color,
            Sides::Full(a, b, c, d) => *a == color || *b == color || *c == color || *d == color,
        }
    }

    /// The direction that the leading side of a corner piece faces in the
    /// corner of the grid that touches `borders`.
    pub fn get_corner_offset(borders: &(Border, Border)) -> (r: Compass)
        requires
            corner_borders(*borders),
        ensures
            r == corner_offset(*borders),
    {
        match borders {
            (Border::North, Border::West) => Compass::East,
            (Border::North, _) => Compass::South,
            (_, Border::East) => Compass::West,
            _ => Compass::North,
        }
    }

    /// The direction that the leading side of a border piece faces on the edge
    /// `border`.
    pub fn get_border_offset(border: &Border) -> (r: Compass)
        ensures
            r == border_offset(*border),
    {
        match border {
            Border::North => Compass::East,
            Border::East => Compass::South,
            Border::South => Compass::West,
            Border::West => Compass::North,
        }
    }

    /// The faces at north, east, south and west when the leading side looks at
    /// `offset`.
    pub fn get_faces(&self, offset: &Compass) -> (r: (Face, Face, Face, Face))
        ensures
            r == self.faces(*offset),
    {
        match self {
            Sides::Corner(a, b) => Sides::get_faces_corner(offset, a, b),
            Sides::Border(a, b, c) => Sides::get_faces_border(offset, a, b, c),
            Sides::Full(a, b, c, d) => Sides::get_faces_full(offset, a, b, c, d),
        }
    }

    /// The faces of a corner with the colors `a` and `b` when `a` looks at
    /// `offset`.
    pub fn get_faces_corner(offset: &Compass, a: &u8, b: &u8) -> (r: (Face, Face, Face, Face))
        ensures
            r == Sides::Corner(*a, *b).faces(*offset),
    {
        match offset {
            Compass::North => (Face::Color(*a), Face::Color(*b), Face::Border, Face::Border),
            Compass::East => (Face::Border, Face::Color(*a), Face::Color(*b), Face::Border),
            Compass::South => (Face::Border, Face::Border, Face::Color(*a), Face::Color(*b)),
            Compass::West => (Face::Color(*b), Face::Border, Face::Border, Face::Color(*a)),
        }
    }

    /// The faces of a border with the colors `a`, `b` and `c` when `a` looks at
    /// `offset`.
    pub fn get_faces_border(offset: &Compass, a: &u8, b: &u8, c: &u8) -> (r: (
        Face,
        Face,
        Face,
        Face,
    ))
        ensures
            r == Sides::Border(*a, *b, *c).faces(*offset),
    {
        match offset {
            Compass::North => (Face::Color(*a), Face::Color(*b), Face::Color(*c), Face::Border),
            Compass::East => (Face::Border, Face::Color(*a), Face::Color(*b), Face::Color(*c)),
            Compass::South => (Face::Color(*c), Face::Border, Face::Color(*a), Face::Color(*b)),
            Compass::West => (Face::Color(*b), Face::Color(*c), Face::Border, Face::Color(*a)),
        }
    }

    /// The faces of a full piece with the colors `a`, `b`, `c` and `d` when `a`
    /// looks at `offset`.
    pub fn get_faces_full(offset: &Compass, a: &u8, b: &u8, c: &u8, d: &u8) -> (r: (
        Face,
        Face,
        Face,
        Face,
    ))
        ensures
            r == Sides::Full(*a, *b, *c, *d).faces(*offset),
    {
        match offset {
            Compass::North => (Face::Color(*a), Face::Color(*b), Face::Color(*c), Face::Color(*d)),
            Compass::East => (Face::Color(*d), Face::Color(*a), Face::Color(*b), Face::Color(*c)),
            Compass::South => (Face::Color(*c), Face::Color(*d), Face::Color(*a), Face::Color(*b)),
            Compass::West => (Face::Color(*b), Face::Color(*c), Face::Color(*d), Face::Color(*a)),
        }
    }

    /// The face seen at `face` when the leading side looks at `offset`.
    pub fn get_face(&self, face: Border, offset: &Compass) -> (r: Face)
        ensures
            r == self.face_at(face, *offset),
    {
        match self {
            Sides::Corner(a, b) => Sides::get_face_corner(face, offset, a, b),
            Sides::Border(a, b, c) => Sides::get_face_border(face, offset, a, b, c),
            Sides::Full(a, b, c, d) => Sides::get_face_full(face, offset, a, b, c, d),
        }
    }

    /// The face at `face` of a corner with the colors `a` and `b` when `a` looks
    /// at `offset`.
    pub fn get_face_corner(face: Border, offset: &Compass, a: &u8, b: &u8) -> (r: Face)
        ensures
            r == Sides::Corner(*a, *b).face_at(face, *offset),
    {
        match offset {
            Compass::North => match face {
                Border::North => Face::Color(*a),
                Border::East => Face::Color(*b),
                _ => Face::Border,
            },
            Compass::East => match face {
                Border::East => Face::Color(*a),
                Border::South => Face::Color(*b),
                _ => Face::Border,
            },
            Compass::South => match face {
                Border::South => Face::Color(*a),
                Border::West => Face::Color(*b),
                _ => Face::Border,
            },
            Compass::West => match face {
                Border::West => Face::Color(*a),
                Border::North => Face::Color(*b),
                _ => Face::Border,
            },
        }
    }

    /// The face at `face` of a border with the colors `a`, `b` and `c` when `a`
    /// looks at `offset`.
    pub fn get_face_border(face: Border, offset: &Compass, a: &u8, b: &u8, c: &u8) -> (r: Face)
        ensures
            r == Sides::Border(*a, *b, *c).face_at(face, *offset),
    {
        match offset {
            Compass::North => match face {
                Border::North => Face::Color(*a),
                Border::East => Face::Color(*b),
                Border::South => Face::Color(*c),
                _ => Face::Border,
            },
            Compass::East => match face {
                Border::East => Face::Color(*a),
                Border::South => Face::Color(*b),
                Border::West => Face::Color(*c),
                _ => Face::Border,
            },
            Compass::South => match face {
                Border::South => Face::Color(*a),
                Border::West => Face::Color(*b),
                Border::North => Face::Color(*c),
                _ => Face::Border,
            },
            Compass::West => match face {
                Border::West => Face::Color(*a),
                Border::North => Face::Color(*b),
                Border::East => Face::Color(*c),
                _ => Face::Border,
            },
        }
    }

    /// The face at `face` of a full piece with the colors `a`, `b`, `c` and `d`
    /// when `a` looks at `offset`.
    pub fn get_face_full(face: Border, offset: &Compass, a: &u8, b: &u8, c: &u8, d: &u8) -> (r:
        Face)
        ensures
            r == Sides::Full(*a, *b, *c, *d).face_at(face, *offset),
    {
        match offset {
            Compass::North => match face {
                Border::North => Face::Color(*a),
                Border::East => Face::Color(*b),
                Border::South => Face::Color(*c),
                Border::West => Face::Color(*d),
            },
            Compass::East => match face {
                Border::East => Face::Color(*a),
                Border::South => Face::Color(*b),
                Border::West => Face::Color(*c),
                Border::North => Face::Color(*d),
            },
            Compass::South => match face {
                Border::South => Face::Color(*a),
                Border::West => Face::Color(*b),
                Border::North => Face::Color(*c),
                Border::East => Face::Color(*d),
            },
            Compass::West => match face {
                Border::West => Face::Color(*a),
                Border::North => Face::Color(*b),
                Border::East => Face::Color(*c),
                Border::South => Face::Color(*d),
            },
        }
    }
}

/// The sequence `s` turned by `k` places: its last `k` items come first.
pub open spec fn turned(s: Seq<Face>, k: int) -> Seq<Face> {
    s.subrange(s.len() - k, s.len() as int) + s.subrange(0, s.len() - k)
}

impl Sides {
    /// The faces at north, east, south and west as a sequence.
    pub open spec fn clockwise(self, offset: Compass) -> Seq<Face> {
        seq![self.faces(offset).0, self.faces(offset).1, self.faces(offset).2, self.faces(offset).3]
    }
}

/// Rotation only relabels the sides of a piece. The faces met clockwise from
/// north are the canonical sides turned by as many places as the leading side
/// is quarter turns away from north, so they hold the same colors as often.
/// For a full piece the canonical sides are its four recorded colors.
pub proof fn lemma_rotation_is_cyclic(sides: Sides, offset: Compass)
    ensures
        sides.clockwise(offset) == turned(sides.canonical(), offset.index()),
        sides.clockwise(offset).to_multiset() == sides.canonical().to_multiset(),
        sides.clockwise(Compass::North) == sides.canonical(),
{
    let c = sides.canonical();
    let k = offset.index();
    let back = c.subrange(4 - k, 4);
    let front = c.subrange(0, 4 - k);
    assert(sides.clockwise(offset) =~= turned(c, k));
    assert(sides.clockwise(Compass::North) =~= c);
    assert(c =~= front + back);
    lemma_multiset_commutative(front, back);
    lemma_multiset_commutative(back, front);
    assert(turned(c, k).to_multiset() =~= c.to_multiset());
}

} // verus!
