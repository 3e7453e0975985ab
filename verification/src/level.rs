//! The change from one level to the next.

use vstd::prelude::*;
use crate::cave::Cave;
use crate::player::Player;
use crate::shape::matched;

verus! {

/// Whether the screen is fading from one level to the next.
#[derive(Copy, Clone, Debug, PartialEq, Eq, Structural)]
pub struct LevelTransitioning(pub bool);

/// Decides whether the player has finished the level at `cave`. `in_place`
/// says that the player stands where the cave is, within half a cell on
/// both axes.
///
/// The level is finished when no change of level is under way, the player is
/// in place, and its body matches the cave's cells exactly: to stand in the
/// cave in another shape is not enough.
pub fn next_level(
    player: &Player,
    cave: &Cave,
    in_place: bool,
    level_transitioning: &LevelTransitioning,
) -> (finished: bool)
    ensures
        finished == (!level_transitioning.0 && in_place && matched(
            cave.cells(),
            player.cells(),
        )),
{
    !level_transitioning.0 && in_place && cave.matches_player(player)
}

} // verus!
