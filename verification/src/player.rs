//! The player's body: its cells, its geometry, and how it moves.

use vstd::prelude::*;
use crate::level::LevelTransitioning;
use crate::shape::{cells_of, compound, dimens, has_square, outline};
use crate::shape::{anchored, compound_of, fits, height, outline_of, well_formed, width};
use crate::shape::with_cell;
use crate::shape::{Cuboid, Rectangle, SquarePos, CELL_SIZE};
use crate::transformer::TransformerAnimState;

verus! {

/// The width of one cell of the player's body, in world units.
pub const PLAYER_WIDTH: i32 = CELL_SIZE;

/// The height of one cell of the player's body, in world units.
pub const PLAYER_HEIGHT: i32 = CELL_SIZE;

/// The speed of a walking player, in world units per second.
pub const WALK_SPEED: i32 = 300;

/// What a jump adds to the player's upward speed.
pub const JUMP_BOOST: i32 = 350;

/// What was pressed on the keyboard in one tick.
#[derive(Copy, Clone, Debug, PartialEq, Eq, Structural)]
pub struct Keys {
    pub left: bool,
    pub right: bool,
    pub up: bool,
}

/// How the player's body is to be moved in one tick.
#[derive(Copy, Clone, Debug, PartialEq, Eq, Structural)]
pub enum Motion {
    /// The level is changing: the body is left alone.
    Hold,
    /// The player steers: the horizontal speed is set to `x`, and `lift` is
    /// added to the vertical speed.
    Steer { x: i32, lift: i32 },
    /// The body is drawn toward the zone and shrinks.
    DrawIn { transformer: usize },
    /// The body is pushed out of the zone and grows back.
    PushOut { transformer: usize },
    /// The body falls freely and grows back.
    Recover,
}

/// One report of a force between two colliders.
#[derive(Copy, Clone, Debug, PartialEq, Eq, Structural)]
pub struct Contact {
    /// One of the two colliders is the player's.
    pub touches_player: bool,
    /// The force has a vertical part.
    pub vertical: bool,
}

/// One of the contacts is between the player and something below or above
/// it.
pub open spec fn landed(contacts: Seq<Contact>) -> bool {
    exists|i: int|
        0 <= i < contacts.len() && (#[trigger] contacts[i]).touches_player
            && contacts[i].vertical
}

/// The horizontal speed that the keys ask for.
pub open spec fn steered(keys: Keys) -> int {
    WALK_SPEED * ((if keys.right {
        1int
    } else {
        0int
    }) - (if keys.left {
        1int
    } else {
        0int
    }))
}

/// The player: a body of unit cells that walks, jumps and passes through
/// transformers.
#[derive(Clone, Debug)]
pub struct Player {
    pub is_jumping: bool,
    pub transformer_anim_state: TransformerAnimState,
    pub squares: Vec<SquarePos>,
}

impl Player {
    /// The cells of the body, in the order in which they were added.
    pub open spec fn cells(&self) -> Seq<(int, int)> {
        cells_of(self.squares@)
    }

    /// The body has the shape of a body: see [`well_formed`].
    pub open spec fn wf(&self) -> bool {
        well_formed(self.cells())
    }

    /// A body of the single cell `(0, 0)`, at rest.
    pub fn new() -> (player: Player)
        ensures
            player.cells() == seq![(0int, 0int)],
            player.transformer_anim_state == TransformerAnimState::NotAnimating,
            !player.is_jumping,
            player.wf(),
            anchored(player.cells()),
    {
        let player = Player {
            is_jumping: false,
            transformer_anim_state: TransformerAnimState::NotAnimating,
            squares: vec![SquarePos(0, 0)],
        };
        proof {
            assert(player.cells() =~= seq![(0int, 0int)]);
        }
        player
    }

    /// The bounding box `(width, height)` of the body. It holds every cell,
    /// and that of a well-formed body is at least one cell wide and high.
    pub fn get_dimens(&self) -> (dims: (i32, i32))
        requires
            fits(self.cells()),
        ensures
            dims.0 == width(self.cells()),
            dims.1 == height(self.cells()),
            forall|i: int|
                0 <= i < self.cells().len() ==> (#[trigger] self.cells()[i]).0 < dims.0
                    && self.cells()[i].1 < dims.1,
            well_formed(self.cells()) ==> dims.0 >= 1 && dims.1 >= 1,
    {
        let dims = dimens(&self.squares);
        proof {
            assert forall|i: int| 0 <= i < self.cells().len() implies (#[trigger] self.cells()[
                i
            ]).0 < dims.0 && self.cells()[i].1 < dims.1 by {
                assert(self.cells()[i] == self.squares@[i]@);
            }
        }
        dims
    }

    /// Adds the cell `(x, y)`, unless the body has it already.
    pub fn add_square(&mut self, x: i32, y: i32)
        ensures
            final(self).cells() == with_cell(old(self).cells(), (x as int, y as int)),
            final(self).is_jumping == old(self).is_jumping,
            final(self).transformer_anim_state == old(self).transformer_anim_state,
    {
        if has_square(&self.squares, x, y) {
            return ;
        }
        self.squares.push(SquarePos(x, y));
        proof {
            assert(self.cells() =~= old(self).cells().push((x as int, y as int)));
        }
    }

    /// The outline to draw: a rectangle of one cell for each cell of the
    /// body.
    pub fn get_shape(&self) -> (shape: Vec<Rectangle>)
        ensures
            shape@ == outline_of(self.cells()),
    {
        outline(&self.squares)
    }

    /// The compound collider: a box of one cell for each cell of the body.
    pub fn get_collider(&self) -> (boxes: Vec<Cuboid>)
        ensures
            boxes@ == compound_of(self.cells()),
    {
        compound(&self.squares)
    }
}

/// Decides how the player's body moves in this tick.
///
/// While the level changes nothing moves. A player at rest is steered by
/// the keys, and jumps when `up` is pressed and it is not in the air
/// already. A player in a transformer's hands goes where the animation takes
/// it.
pub fn move_player(
    keys: Keys,
    player: &mut Player,
    level_transitioning: &LevelTransitioning,
) -> (motion: Motion)
    ensures
        final(player).squares == old(player).squares,
        final(player).transformer_anim_state == old(player).transformer_anim_state,
        final(player).is_jumping == (old(player).is_jumping || (!level_transitioning.0
            && old(player).transformer_anim_state is NotAnimating && keys.up)),
        motion == if level_transitioning.0 {
            Motion::Hold
        } else {
            match old(player).transformer_anim_state {
                TransformerAnimState::NotAnimating => Motion::Steer {
                    x: steered(keys) as i32,
                    lift: if keys.up && !old(player).is_jumping {
                        JUMP_BOOST
                    } else {
                        0
                    },
                },
                TransformerAnimState::MovingToward { transformer } => Motion::DrawIn {
                    transformer,
                },
                TransformerAnimState::MovingAway { transformer } => Motion::PushOut {
                    transformer,
                },
                TransformerAnimState::Falling => Motion::Recover,
            }
        },
{
    if level_transitioning.0 {
        return Motion::Hold;
    }
    match player.transformer_anim_state {
        TransformerAnimState::NotAnimating => {
            let toward_left: i32 = if keys.left {
                1
            } else {
                0
            };
            let toward_right: i32 = if keys.right {
                1
            } else {
                0
            };
            let x: i32 = WALK_SPEED * (toward_right - toward_left);
            let lift: i32 = if keys.up && !player.is_jumping {
                player.is_jumping = true;
                JUMP_BOOST
            } else {
                0
            };
            Motion::Steer { x, lift }
        },
        TransformerAnimState::MovingToward { transformer } => Motion::DrawIn { transformer },
        TransformerAnimState::MovingAway { transformer } => Motion::PushOut { transformer },
        TransformerAnimState::Falling => Motion::Recover,
    }
}

/// Takes note of the contacts of one tick: once the player touches
/// something with a vertical force, it is no longer jumping, and a player
/// that was falling is at rest again.
pub fn set_jumping_false(contacts: &Vec<Contact>, player: &mut Player)
    ensures
        final(player).squares == old(player).squares,
        final(player).is_jumping == (old(player).is_jumping && !landed(contacts@)),
        final(player).transformer_anim_state == if landed(contacts@) && old(
            player,
        ).transformer_anim_state is Falling {
            TransformerAnimState::NotAnimating
        } else {
            old(player).transformer_anim_state
        },
{
    let mut i: usize = 0;
    let mut touched: bool = false;
    while i < contacts.len()
        invariant
            0 <= i <= contacts.len(),
            touched == landed(contacts@.take(i as int)),
        decreases contacts.len() - i,
    {
        let contact = contacts[i];
        proof {
            let seen = contacts@.take(i as int);
            let more = contacts@.take(i as int + 1);
            assert(more[i as int] == contact);
            assert forall|j: int| 0 <= j < seen.len() implies seen[j] == more[j] by {}
            if landed(seen) {
                let j = choose|j: int|
                    0 <= j < seen.len() && (#[trigger] seen[j]).touches_player
                        && seen[j].vertical;
                assert(more[j].touches_player && more[j].vertical);
            }
            if landed(more) && !(contact.touches_player && contact.vertical) {
                let j = choose|j: int|
                    0 <= j < more.len() && (#[trigger] more[j]).touches_player
                        && more[j].vertical;
                assert(seen[j].touches_player && seen[j].vertical);
            }
        }
        if contact.touches_player && contact.vertical {
            touched = true;
        }
        i += 1;
    }
    assert(contacts@.take(i as int) == contacts@);
    if touched {
        player.is_jumping = false;
        if let TransformerAnimState::Falling = player.transformer_anim_state {
            player.transformer_anim_state = TransformerAnimState::NotAnimating;
        }
    }
}

} // verus!
