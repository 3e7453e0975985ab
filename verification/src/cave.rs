//! The cave at the end of a level: the silhouette that the player's body has
//! to take.

use vstd::prelude::*;
use crate::player::Player;
use crate::shape::{cells_of, dimens, has_square, outline};
use crate::shape::{fits, height, matched, outline_of, well_formed, width};
use crate::shape::{Rectangle, SquarePos};

verus! {

/// The silhouette at the end of a level.
#[derive(Clone, Debug)]
pub struct Cave {
    pub squares: Vec<SquarePos>,
}

impl Cave {
    /// The cells of the silhouette, in the order in which they are listed.
    pub open spec fn cells(&self) -> Seq<(int, int)> {
        cells_of(self.squares@)
    }

    /// The bounding box `(width, height)` of the silhouette. It holds every
    /// cell, and that of a well-formed silhouette is at least one cell wide
    /// and high.
    pub fn get_dimens(&self) -> (dims: (i32, i32))
        requires
            fits(self.cells()),
        ensures
            dims.0 == width(self.cells()),
            dims.1 == height(self.cells()),
            forall|i: int|
                0 <= i < self.cells().len() ==> (#[trigger] self.cells()[i]).0 < dims.0
                    && self.cells()[i].1 < dims.1,
            well_formed(self.cells()) ==> dims.0 >= 1 && dims.1 >= 1,
    {
        let dims = dimens(&self.squares);
        proof {
            assert forall|i: int| 0 <= i < self.cells().len() implies (#[trigger] self.cells()[
                i
            ]).0 < dims.0 && self.cells()[i].1 < dims.1 by {
                assert(self.cells()[i] == self.squares@[i]@);
            }
        }
        dims
    }

    /// The outline to draw: a rectangle of one cell for each cell of the
    /// silhouette.
    pub fn get_shape(&self) -> (shape: Vec<Rectangle>)
        ensures
            shape@ == outline_of(self.cells()),
    {
        outline(&self.squares)
    }

    /// Whether the player's body has exactly the cells of the silhouette,
    /// in whatever order.
    pub fn matches_player(&self, player: &Player) -> (same: bool)
        ensures
            same == matched(self.cells(), player.cells()),
    {
        if self.squares.len() != player.squares.len() {
            return false;
        }
        let mut i: usize = 0;
        while i < self.squares.len()
            invariant
                0 <= i <= self.squares.len(),
                self.squares.len() == player.squares.len(),
                forall|j: int| 0 <= j < i ==> player.cells().contains(#[trigger] self.cells()[j]),
            decreases self.squares.len() - i,
        {
            let square = self.squares[i];
            assert(self.cells()[i as int] == square@);
            if !has_square(&player.squares, square.0, square.1) {
                return false;
            }
            i += 1;
        }
        true
    }
}

} // verus!
