//! The two players and the turn-order helpers.

use vstd::prelude::*;

verus! {

/// The owning side of a piece, and whose turn it is.
#[derive(Clone, Copy, Debug, PartialEq, Eq, Structural)]
pub enum Side {
    Black,
    White,
}

impl Side {
    /// The other side.
    pub open spec fn spec_oppose(self) -> Side {
        if self == Side::Black {
            Side::White
        } else {
            Side::Black
        }
    }

    /// Mutates this [`Side`] to the opposite side.
    pub fn swap(&mut self)
        ensures
            *final(self) == old(self).spec_oppose(),
    {
        if *self == Self::Black {
            *self = Self::White
        } else {
            *self = Self::Black
        }
    }

    /// Gives back the opposite [`Side`].
    pub fn oppose(&self) -> (r: Self)
        ensures
            r == self.spec_oppose(),
    {
        if *self == Self::Black {
            Self::White
        } else {
            Self::Black
        }
    }

    /// The display label of the side.
    pub fn label(&self) -> (r: &'static str)
        ensures
            *self == Side::Black ==> r@ == "Black"@,
            *self == Side::White ==> r@ == "White"@,
    {
        match self {
            Side::Black => "Black",
            Side::White => "White",
        }
    }
}

} // verus!
