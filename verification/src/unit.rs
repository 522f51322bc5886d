//! The pieces: a closed set of kinds, each owned by a side, with a
//! "has moved" flag on the kinds whose rules depend on it.

use vstd::prelude::*;

use crate::side::Side;

verus! {

/// Whether a piece has ever been relocated.
pub type Moved = bool;

/// A chess piece. Pawn, Rook and King carry a flag recording whether they
/// have ever moved, which gates the double advance and castling.
#[derive(Clone, Copy, Debug, PartialEq, Eq, Structural)]
pub enum Unit {
    Pawn(Side, Moved),
    Bishop(Side),
    Knight(Side),
    Rook(Side, Moved),
    Queen(Side),
    King(Side, Moved),
}

impl Unit {
    /// The side that owns this piece.
    pub open spec fn spec_side(self) -> Side {
        match self {
            Unit::Pawn(side, _) => side,
            Unit::Bishop(side) => side,
            Unit::Knight(side) => side,
            Unit::Rook(side, _) => side,
            Unit::Queen(side) => side,
            Unit::King(side, _) => side,
        }
    }

    /// Whether this piece has ever been relocated; always false for the
    /// kinds that do not track it.
    pub open spec fn spec_moved(self) -> bool {
        match self {
            Unit::Pawn(_, moved) => moved,
            Unit::Rook(_, moved) => moved,
            Unit::King(_, moved) => moved,
            _ => false,
        }
    }

    /// The same piece with its moved-flag set to `moved`, for the kinds that
    /// track it; the piece unchanged otherwise.
    pub open spec fn spec_set_moved(self, moved: bool) -> Unit {
        match self {
            Unit::Pawn(side, _) => Unit::Pawn(side, moved),
            Unit::Rook(side, _) => Unit::Rook(side, moved),
            Unit::King(side, _) => Unit::King(side, moved),
            unit => unit,
        }
    }

    /// A piece of the kind of `other`, keeping this piece's side and flag.
    /// Retyping to King is refused and falls back to a pawn, since a second
    /// king must never appear.
    pub open spec fn spec_change_type(self, other: Unit) -> Unit {
        match other {
            Unit::Pawn(..) => Unit::Pawn(self.spec_side(), self.spec_moved()),
            Unit::Bishop(..) => Unit::Bishop(self.spec_side()),
            Unit::Knight(..) => Unit::Knight(self.spec_side()),
            Unit::Rook(..) => Unit::Rook(self.spec_side(), self.spec_moved()),
            Unit::Queen(..) => Unit::Queen(self.spec_side()),
            Unit::King(..) => Unit::Pawn(self.spec_side(), self.spec_moved()),
        }
    }

    /// The stable small-integer identifier of the (kind, side) pair.
    pub open spec fn spec_id(self) -> u8 {
        match self {
            Unit::Pawn(Side::Black, _) => 0,
            Unit::Bishop(Side::Black) => 1,
            Unit::Knight(Side::Black) => 2,
            Unit::Rook(Side::Black, _) => 3,
            Unit::Queen(Side::Black) => 4,
            Unit::King(Side::Black, _) => 5,
            Unit::Pawn(Side::White, _) => 6,
            Unit::Bishop(Side::White) => 7,
            Unit::Knight(Side::White) => 8,
            Unit::Rook(Side::White, _) => 9,
            Unit::Queen(Side::White) => 10,
            Unit::King(Side::White, _) => 11,
        }
    }

    /// Gives back the name of the [`Unit`].
    pub fn get_name(self) -> (r: String)
        ensures
            self is Pawn ==> r@ == "Pawn"@,
            self is Bishop ==> r@ == "Bishop"@,
            self is Knight ==> r@ == "Knight"@,
            self is Rook ==> r@ == "Rook"@,
            self is Queen ==> r@ == "Queen"@,
            self is King ==> r@ == "King"@,
    {
        match self {
            Self::Pawn(..) => "Pawn".to_owned(),
            Self::Bishop(..) => "Bishop".to_owned(),
            Self::Knight(..) => "Knight".to_owned(),
            Self::Rook(..) => "Rook".to_owned(),
            Self::Queen(..) => "Queen".to_owned(),
            Self::King(..) => "King".to_owned(),
        }
    }

    /// Produces an id based on the [`Unit`] variant.
    ///
    /// See also [`Unit::get_id_str`].
    pub fn get_id(&self) -> (r: u8)
        ensures
            r == self.spec_id(),
    {
        match self {
            Self::Pawn(Side::Black, _) => 0,
            Self::Bishop(Side::Black) => 1,
            Self::Knight(Side::Black) => 2,
            Self::Rook(Side::Black, _) => 3,
            Self::Queen(Side::Black) => 4,
            Self::King(Side::Black, _) => 5,
            Self::Pawn(Side::White, _) => 6,
            Self::Bishop(Side::White) => 7,
            Self::Knight(Side::White) => 8,
            Self::Rook(Side::White, _) => 9,
            Self::Queen(Side::White) => 10,
            Self::King(Side::White, _) => 11,
        }
    }

    /// Produces a stable string key for the (kind, side) pair, consumed by
    /// rendering collaborators to pick artwork.
    ///
    /// See also [`Unit::get_id`].
    pub fn get_id_str(&self) -> (r: &'static str)
        ensures
            self.spec_id() == 0 ==> r@ == "pawn_b"@,
            self.spec_id() == 1 ==> r@ == "bishop_b"@,
            self.spec_id() == 2 ==> r@ == "knight_b"@,
            self.spec_id() == 3 ==> r@ == "rook_b"@,
            self.spec_id() == 4 ==> r@ == "queen_b"@,
            self.spec_id() == 5 ==> r@ == "king_b"@,
            self.spec_id() == 6 ==> r@ == "pawn_w"@,
            self.spec_id() == 7 ==> r@ == "bishop_w"@,
            self.spec_id() == 8 ==> r@ == "knight_w"@,
            self.spec_id() == 9 ==> r@ == "rook_w"@,
            self.spec_id() == 10 ==> r@ == "queen_w"@,
            self.spec_id() == 11 ==> r@ == "king_w"@,
    {
        match self {
            Self::Pawn(Side::Black, _) => "pawn_b",
            Self::Bishop(Side::Black) => "bishop_b",
            Self::Knight(Side::Black) => "knight_b",
            Self::Rook(Side::Black, _) => "rook_b",
            Self::Queen(Side::Black) => "queen_b",
            Self::King(Side::Black, _) => "king_b",
            Self::Pawn(Side::White, _) => "pawn_w",
            Self::Bishop(Side::White) => "bishop_w",
            Self::Knight(Side::White) => "knight_w",
            Self::Rook(Side::White, _) => "rook_w",
            Self::Queen(Side::White) => "queen_w",
            Self::King(Side::White, _) => "king_w",
        }
    }

    /// Gives back the [`Side`] of the [`Unit`].
    pub fn get_side(&self) -> (r: Side)
        ensures
            r == self.spec_side(),
    {
        match self {
            Self::Pawn(side, _) => *side,
            Self::Bishop(side) => *side,
            Self::Knight(side) => *side,
            Self::Rook(side, _) => *side,
            Self::Queen(side) => *side,
            Self::King(side, _) => *side,
        }
    }

    /// Checks if the [`Unit`] has moved.
    ///
    /// Only Pawn, Rook and King track the flag; other [`Unit`]s are always
    /// false.
    pub fn is_moved(&self) -> (r: bool)
        ensures
            r == self.spec_moved(),
    {
        match self {
            Unit::Pawn(_, moved) => *moved,
            Unit::Rook(_, moved) => *moved,
            Unit::King(_, moved) => *moved,
            _ => false,
        }
    }

    /// Gives back the piece with the moved flag set to `moved`.
    ///
    /// Only Pawn, Rook and King track the flag; other [`Unit`]s come back
    /// unchanged.
    pub fn set_moved(&self, moved: bool) -> (r: Self)
        ensures
            r == self.spec_set_moved(moved),
    {
        match self {
            Unit::Pawn(side, _) => Unit::Pawn(*side, moved),
            Unit::Rook(side, _) => Unit::Rook(*side, moved),
            Unit::King(side, _) => Unit::King(*side, moved),
            unit => *unit,
        }
    }

    /// Changes the current kind of [`Unit`] to the kind of `other_unit`,
    /// keeping side and moved-flag.
    pub fn change_type(&self, other_unit: &Unit) -> (r: Self)
        ensures
            r == self.spec_change_type(*other_unit),
    {
        match other_unit {
            Unit::Pawn(..) => Unit::Pawn(self.get_side(), self.is_moved()),
            Unit::Bishop(..) => Unit::Bishop(self.get_side()),
            Unit::Knight(..) => Unit::Knight(self.get_side()),
            Unit::Rook(..) => Unit::Rook(self.get_side(), self.is_moved()),
            Unit::Queen(..) => Unit::Queen(self.get_side()),
            Unit::King(..) => Unit::Pawn(self.get_side(), self.is_moved()),
        }
    }
}

/// True when the two pieces are of the same kind, whatever their side or
/// moved-flag.
pub open spec fn spec_eq_unit_type(unit1: Unit, unit2: Unit) -> bool {
    match (unit1, unit2) {
        (Unit::Pawn(..), Unit::Pawn(..)) => true,
        (Unit::Bishop(..), Unit::Bishop(..)) => true,
        (Unit::Knight(..), Unit::Knight(..)) => true,
        (Unit::Rook(..), Unit::Rook(..)) => true,
        (Unit::Queen(..), Unit::Queen(..)) => true,
        (Unit::King(..), Unit::King(..)) => true,
        _ => false,
    }
}

/// Checks if the two [`Unit`]s are the same kind.
pub fn eq_unit_type(unit1: &Unit, unit2: &Unit) -> (r: bool)
    ensures
        r == spec_eq_unit_type(*unit1, *unit2),
{
    match (unit1, unit2) {
        (Unit::Pawn(..), Unit::Pawn(..)) => true,
        (Unit::Bishop(..), Unit::Bishop(..)) => true,
        (Unit::Knight(..), Unit::Knight(..)) => true,
        (Unit::Rook(..), Unit::Rook(..)) => true,
        (Unit::Queen(..), Unit::Queen(..)) => true,
        (Unit::King(..), Unit::King(..)) => true,
        _ => false,
    }
}

} // verus!
