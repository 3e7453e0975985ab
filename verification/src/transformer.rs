//! Transformer zones: what each does to a body's cells, and the animation
//! that carries a body into a zone, reshapes it there and spits it out.

use vstd::prelude::*;
use crate::player::Player;
use crate::shape::{anchored, bottom, fits, height, left, shifted, turned, well_formed, width};
use crate::shape::{lemma_bottom, lemma_bottom_is, lemma_bounding_box, lemma_height};
use crate::shape::{lemma_height_is, lemma_left, lemma_left_is, lemma_width, lemma_width_is};
use crate::shape::{check_fits, lemma_with_cell_set, with_cell, SquarePos, MAX_COORD};

verus! {

/// Where a body is in its passage through a transformer. `transformer` is
/// the id of the zone that caught it.
#[derive(Copy, Clone, Debug, PartialEq, Eq, Structural)]
pub enum TransformerAnimState {
    NotAnimating,
    MovingToward { transformer: usize },
    MovingAway { transformer: usize },
    Falling,
}

/// What a transformer does to the body that reaches its centre.
#[derive(Copy, Clone, Debug, PartialEq, Eq, Structural)]
pub enum Transformation {
    AddRight,
    AddTop,
    RotateCw,
}

/// A transformer zone, as far as the animation reads it.
#[derive(Copy, Clone, Debug, PartialEq, Eq, Structural)]
pub struct Transformer {
    /// What tells this zone from the others.
    pub id: usize,
    pub transformation: Transformation,
}

/// How close a body's outline is to the centre of a zone.
#[derive(Copy, Clone, Debug, PartialEq, Eq, Structural)]
pub enum Proximity {
    /// Not within the radius of the zone.
    Far,
    /// Within the radius.
    Near,
    /// Within the radius, and so close to the centre that the body counts as
    /// having arrived.
    AtCentre,
}

/// What was measured of one zone in one tick.
#[derive(Copy, Clone, Debug, PartialEq, Eq, Structural)]
pub struct Detection {
    pub transformer: Transformer,
    pub proximity: Proximity,
}

/// What the caller has to do to the world after a tick of the animation.
#[derive(Copy, Clone, Debug, PartialEq, Eq, Structural)]
pub enum Effect {
    /// Stop resolving contacts against the body.
    DisableCollision,
    /// Play the sound of a body that is drawn in.
    PlayApproachSound,
    /// Replace the body's outline and collider by those of its new cells.
    Reshape,
    /// Resolve contacts against the body again.
    EnableCollision,
}

/// A body in the middle of a tick: its state, its cells, and the effects
/// that the tick has asked for so far.
pub struct Passage {
    pub state: TransformerAnimState,
    pub cells: Seq<(int, int)>,
    pub effects: Seq<Effect>,
}

/// Whether the zone `transformer` was measured within its radius.
pub open spec fn near(detections: Seq<Detection>, transformer: usize) -> bool {
    exists|i: int|
        0 <= i < detections.len() && (#[trigger] detections[i]).transformer.id == transformer
            && detections[i].proximity != Proximity::Far
}

/// What one detection does to a body.
///
/// A zone out of reach does nothing. A body at rest is caught by the zone.
/// A body on its way to this zone that has arrived is reshaped and turns
/// back. Nothing else changes: a body once caught stays caught.
pub open spec fn detected(body: Passage, detection: Detection) -> Passage {
    if detection.proximity == Proximity::Far {
        body
    } else {
        match body.state {
            TransformerAnimState::NotAnimating => Passage {
                state: TransformerAnimState::MovingToward {
                    transformer: detection.transformer.id,
                },
                cells: body.cells,
                effects: body.effects.push(Effect::DisableCollision).push(
                    Effect::PlayApproachSound,
                ),
            },
            TransformerAnimState::MovingToward { transformer } => if transformer
                == detection.transformer.id && detection.proximity == Proximity::AtCentre {
                Passage {
                    state: TransformerAnimState::MovingAway { transformer },
                    cells: detection.transformer.transformation.applied(body.cells),
                    effects: body.effects.push(Effect::Reshape),
                }
            } else {
                body
            },
            _ => body,
        }
    }
}

/// What the detections of one tick do to a body, taken in their order.
pub open spec fn detected_all(body: Passage, detections: Seq<Detection>) -> Passage
    decreases detections.len(),
{
    if detections.len() == 0 {
        body
    } else {
        detected(detected_all(body, detections.drop_last()), detections.last())
    }
}

/// The end of a tick: a body on its way out of a zone that is no longer
/// within that zone's radius is let go, and falls.
pub open spec fn released(body: Passage, detections: Seq<Detection>) -> Passage {
    match body.state {
        TransformerAnimState::MovingAway { transformer } => if near(detections, transformer) {
            body
        } else {
            Passage {
                state: TransformerAnimState::Falling,
                cells: body.cells,
                effects: body.effects.push(Effect::EnableCollision),
            }
        },
        _ => body,
    }
}

/// One tick of the animation: every detection in its order, then the
/// release.
pub open spec fn ticked(
    state: TransformerAnimState,
    cells: Seq<(int, int)>,
    detections: Seq<Detection>,
) -> Passage {
    released(
        detected_all(Passage { state, cells, effects: Seq::empty() }, detections),
        detections,
    )
}

/// Whether the zone `transformer` was measured within its radius.
pub fn is_near(detections: &Vec<Detection>, transformer: usize) -> (found: bool)
    ensures
        found == near(detections@, transformer),
{
    let mut i: usize = 0;
    while i < detections.len()
        invariant
            0 <= i <= detections.len(),
            forall|j: int|
                0 <= j < i ==> !((#[trigger] detections@[j]).transformer.id == transformer
                    && detections@[j].proximity != Proximity::Far),
        decreases detections.len() - i,
    {
        let detection = detections[i];
        if detection.transformer.id == transformer && detection.proximity != Proximity::Far {
            return true;
        }
        i += 1;
    }
    false
}

impl Transformer {
    /// The zone `id` with its transformation.
    pub fn new(id: usize, transformation: Transformation) -> (transformer: Transformer)
        ensures
            transformer == (Transformer { id, transformation }),
    {
        Transformer { id, transformation }
    }
}

impl Transformation {
    /// The transformation can be carried out on `cells` within `i32`.
    pub open spec fn applies_to(self, cells: Seq<(int, int)>) -> bool {
        &&& fits(cells)
        &&& self == Transformation::RotateCw ==> forall|i: int|
            0 <= i < cells.len() ==> width(cells) - (#[trigger] cells[i]).0 <= i32::MAX
    }

    /// The cells that the transformation makes of `cells`. The bounding box
    /// is that of `cells` as they are handed in.
    pub open spec fn applied(self, cells: Seq<(int, int)>) -> Seq<(int, int)> {
        match self {
            Transformation::AddRight => with_cell(cells, (width(cells), 0)),
            Transformation::AddTop => with_cell(cells, (0, height(cells))),
            Transformation::RotateCw => turned(cells, width(cells)),
        }
    }

    /// Where the picture of a zone with this transformation is kept.
    pub open spec fn sprite_path(self) -> Seq<char> {
        match self {
            Transformation::AddRight => "transformers/add_right.png"@,
            Transformation::AddTop => "transformers/add_top.png"@,
            Transformation::RotateCw => "transformers/rotate_cw.png"@,
        }
    }

    /// Where the picture of a zone with this transformation is kept.
    pub fn get_sprite_path(&self) -> (path: &'static str)
        ensures
            path@ == self.sprite_path(),
    {
        match self {
            Transformation::AddRight => "transformers/add_right.png",
            Transformation::AddTop => "transformers/add_top.png",
            Transformation::RotateCw => "transformers/rotate_cw.png",
        }
    }

    /// Whether the transformation can be carried out on the player's body
    /// within `i32`.
    pub fn can_apply(&self, player: &Player) -> (ok: bool)
        ensures
            ok == self.applies_to(player.cells()),
    {
        if !check_fits(&player.squares) {
            return false;
        }
        match self {
            Transformation::RotateCw => {
                let (w, _) = player.get_dimens();
                let mut i: usize = 0;
                while i < player.squares.len()
                    invariant
                        0 <= i <= player.squares.len(),
                        *self == Transformation::RotateCw,
                        w == width(player.cells()),
                        forall|j: int|
                            0 <= j < i ==> w - (#[trigger] player.cells()[j]).0 <= i32::MAX,
                    decreases player.squares.len() - i,
                {
                    let x = player.squares[i].0;
                    assert(player.cells()[i as int].0 == x);
                    if (w as i64) - (x as i64) > (i32::MAX as i64) {
                        assert(width(player.cells()) - player.cells()[i as int].0 > i32::MAX);
                        return false;
                    }
                    i += 1;
                }
                true
            },
            _ => true,
        }
    }

    /// Reshapes the player's body.
    pub fn apply(&self, player: &mut Player)
        requires
            self.applies_to(old(player).cells()),
        ensures
            final(player).cells() == self.applied(old(player).cells()),
            final(player).is_jumping == old(player).is_jumping,
            final(player).transformer_anim_state == old(player).transformer_anim_state,
    {
        let (w, h) = player.get_dimens();
        match self {
            Transformation::AddRight => {
                player.add_square(w, 0);
            },
            Transformation::AddTop => {
                player.add_square(0, h);
            },
            Transformation::RotateCw => {
                let ghost before = player.cells();
                proof {
                    lemma_width(before);
                }
                let mut i: usize = 0;
                while i < player.squares.len()
                    invariant
                        0 <= i <= player.squares.len(),
                        player.squares.len() == before.len(),
                        w == width(before),
                        player.is_jumping == old(player).is_jumping,
                        player.transformer_anim_state == old(player).transformer_anim_state,
                        forall|j: int| 0 <= j < before.len() ==> (#[trigger] before[j]).0 < w,
                        forall|j: int|
                            0 <= j < before.len() ==> w - (#[trigger] before[j]).0 <= i32::MAX,
                        forall|j: int|
                            0 <= j < i ==> (#[trigger] player.squares@[j])@ == (
                                before[j].1,
                                w - before[j].0 - 1,
                            ),
                        forall|j: int|
                            i <= j < before.len() ==> (#[trigger] player.squares@[j])@
                                == before[j],
                    decreases player.squares.len() - i,
                {
                    let square = player.squares[i];
                    assert(square@ == before[i as int]);
                    player.squares.set(i, SquarePos(square.1, w - square.0 - 1));
                    i += 1;
                }
                proof {
                    assert(player.cells() =~= turned(before, w as int));
                }
            },
        }
    }
}

/// Every transformation can be carried out on a well-formed body.
pub proof fn lemma_well_formed_applies(kind: Transformation, cells: Seq<(int, int)>)
    requires
        well_formed(cells),
    ensures
        kind.applies_to(cells),
{
    lemma_bounding_box(cells);
}

/// A transformation keeps a well-formed body well-formed, as long as the
/// cell that it adds is on the grid.
pub proof fn lemma_applied_well_formed(kind: Transformation, cells: Seq<(int, int)>)
    requires
        well_formed(cells),
        kind == Transformation::AddRight ==> width(cells) <= MAX_COORD,
        kind == Transformation::AddTop ==> height(cells) <= MAX_COORD,
    ensures
        well_formed(kind.applied(cells)),
{
    let after = kind.applied(cells);
    lemma_bounding_box(cells);
    match kind {
        Transformation::AddRight => {
            lemma_with_cell_set(cells, (width(cells), 0));
            assert forall|i: int| 0 <= i < after.len() implies 0 <= (#[trigger] after[i]).0
                <= MAX_COORD && 0 <= after[i].1 <= MAX_COORD by {
                if i < cells.len() {
                    assert(after[i] == cells[i]);
                }
            }
        },
        Transformation::AddTop => {
            lemma_with_cell_set(cells, (0, height(cells)));
            assert forall|i: int| 0 <= i < after.len() implies 0 <= (#[trigger] after[i]).0
                <= MAX_COORD && 0 <= after[i].1 <= MAX_COORD by {
                if i < cells.len() {
                    assert(after[i] == cells[i]);
                }
            }
        },
        Transformation::RotateCw => {
            assert forall|i: int, j: int|
                0 <= i < after.len() && 0 <= j < after.len() && i != j implies after[i]
                != after[j] by {
                assert(cells[i] != cells[j]);
            }
            assert forall|i: int| 0 <= i < after.len() implies 0 <= (#[trigger] after[i]).0
                <= MAX_COORD && 0 <= after[i].1 <= MAX_COORD by {
                assert(0 <= cells[i].0 < width(cells));
            }
        },
    }
}

/// A transformation keeps a well-formed body on both axes.
pub proof fn lemma_applied_anchored(kind: Transformation, cells: Seq<(int, int)>)
    requires
        well_formed(cells),
        anchored(cells),
    ensures
        anchored(kind.applied(cells)),
{
    let after = kind.applied(cells);
    lemma_bounding_box(cells);
    lemma_left(cells);
    lemma_bottom(cells);
    let l = choose|l: int| 0 <= l < cells.len() && (#[trigger] cells[l]).0 == left(cells);
    let b = choose|b: int| 0 <= b < cells.len() && (#[trigger] cells[b]).1 == bottom(cells);
    match kind {
        Transformation::AddRight | Transformation::AddTop => {
            assert(cells.is_prefix_of(after)) by {
                lemma_with_cell_set(cells, (width(cells), 0));
                lemma_with_cell_set(cells, (0, height(cells)));
            }
            assert(after[l] == cells[l] && after[b] == cells[b]);
            assert forall|i: int| 0 <= i < after.len() implies (#[trigger] after[i]).0 >= 0
                && after[i].1 >= 0 by {
                if i < cells.len() {
                    assert(after[i] == cells[i]);
                }
            }
            lemma_left_is(after, 0);
            lemma_bottom_is(after, 0);
        },
        Transformation::RotateCw => {
            lemma_width(cells);
            let r = choose|r: int|
                0 <= r < cells.len() && (#[trigger] cells[r]).0 == width(cells) - 1;
            assert(after[b].0 == 0);
            assert(after[r].1 == 0);
            assert forall|i: int| 0 <= i < after.len() implies (#[trigger] after[i]).0 >= 0
                && after[i].1 >= 0 by {
                assert(0 <= cells[i].0 < width(cells));
            }
            lemma_left_is(after, 0);
            lemma_bottom_is(after, 0);
        },
    }
}

/// A quarter turn of `cells` about their own bounding box.
pub open spec fn quarter_turn(cells: Seq<(int, int)>) -> Seq<(int, int)> {
    Transformation::RotateCw.applied(cells)
}

/// After a quarter turn the body is as wide as it was high.
pub proof fn lemma_quarter_turn_width(cells: Seq<(int, int)>)
    ensures
        width(quarter_turn(cells)) == height(cells),
{
    let once = quarter_turn(cells);
    lemma_height(cells);
    if height(cells) > 0 {
        let j = choose|j: int|
            0 <= j < cells.len() && (#[trigger] cells[j]).1 == height(cells) - 1;
        assert(once[j].0 == height(cells) - 1);
    }
    lemma_width_is(once, height(cells));
}

/// Two quarter turns put the cell `(x, y)` at `(w - x - 1, h - y - 1)`: the
/// body is turned upside down within its bounding box of `w` by `h`.
pub proof fn lemma_half_turn(cells: Seq<(int, int)>)
    ensures
        quarter_turn(quarter_turn(cells)) == Seq::new(
            cells.len(),
            |i: int| (width(cells) - cells[i].0 - 1, height(cells) - cells[i].1 - 1),
        ),
{
    lemma_quarter_turn_width(cells);
    assert(quarter_turn(quarter_turn(cells)) =~= Seq::new(
        cells.len(),
        |i: int| (width(cells) - cells[i].0 - 1, height(cells) - cells[i].1 - 1),
    ));
}

/// Four quarter turns bring every cell back to where it was, but for a
/// shift of the whole body that puts its leftmost cell at `x` 0 and its
/// lowest cell at `y` 0. The order of the cells is kept.
pub proof fn lemma_four_quarter_turns(cells: Seq<(int, int)>)
    requires
        cells.len() > 0,
    ensures
        quarter_turn(quarter_turn(quarter_turn(quarter_turn(cells)))) == shifted(
            cells,
            -left(cells),
            -bottom(cells),
        ),
{
    let w = width(cells);
    let h = height(cells);
    let twice = quarter_turn(quarter_turn(cells));
    lemma_half_turn(cells);
    lemma_width(cells);
    lemma_height(cells);
    lemma_left(cells);
    lemma_bottom(cells);
    // The body upside down is as wide as from its leftmost cell to its right edge,
    assert(width(twice) == w - left(cells)) by {
        let j = choose|j: int| 0 <= j < cells.len() && (#[trigger] cells[j]).0 == left(cells);
        assert(twice[j].0 == w - left(cells) - 1);
        assert forall|i: int| 0 <= i < twice.len() implies (#[trigger] twice[i]).0 < w - left(
            cells,
        ) by {
            assert(cells[i].0 >= left(cells));
        }
        lemma_width_is(twice, w - left(cells));
    }
    // and as high as from its lowest cell to its upper edge.
    assert(height(twice) == h - bottom(cells)) by {
        let j = choose|j: int| 0 <= j < cells.len() && (#[trigger] cells[j]).1 == bottom(cells);
        assert(twice[j].1 == h - bottom(cells) - 1);
        assert forall|i: int| 0 <= i < twice.len() implies (#[trigger] twice[i]).1 < h - bottom(
            cells,
        ) by {
            assert(cells[i].1 >= bottom(cells));
        }
        lemma_height_is(twice, h - bottom(cells));
    }
    lemma_half_turn(twice);
    assert(quarter_turn(quarter_turn(twice)) =~= shifted(cells, -left(cells), -bottom(cells)));
}

/// Four quarter turns of a body that touches both axes give the body back,
/// cell for cell.
pub proof fn lemma_full_turn(cells: Seq<(int, int)>)
    requires
        anchored(cells),
    ensures
        quarter_turn(quarter_turn(quarter_turn(quarter_turn(cells)))) == cells,
{
    lemma_four_quarter_turns(cells);
    assert(shifted(cells, 0, 0) =~= cells);
}

/// Detections that each leave the body as it is leave it as it is together.
pub proof fn lemma_detected_all_idle(body: Passage, detections: Seq<Detection>)
    requires
        forall|i: int|
            0 <= i < detections.len() ==> detected(body, #[trigger] detections[i]) == body,
    ensures
        detected_all(body, detections) == body,
    decreases detections.len(),
{
    if detections.len() > 0 {
        let front = detections.drop_last();
        assert forall|i: int| 0 <= i < front.len() implies detected(body, #[trigger] front[i])
            == body by {
            assert(front[i] == detections[i]);
        }
        lemma_detected_all_idle(body, front);
        assert(detections.last() == detections[detections.len() - 1]);
    }
}

/// The detections of a tick can be taken in two parts, one after the other.
pub proof fn lemma_detected_all_split(body: Passage, detections: Seq<Detection>, k: int)
    requires
        0 <= k <= detections.len(),
    ensures
        detected_all(body, detections) == detected_all(
            detected_all(body, detections.take(k)),
            detections.skip(k),
        ),
    decreases detections.len(),
{
    if k == detections.len() {
        assert(detections.take(k) == detections);
    } else {
        let front = detections.drop_last();
        lemma_detected_all_split(body, front, k);
        assert(front.take(k) == detections.take(k));
        assert(detections.skip(k).drop_last() == front.skip(k));
        assert(detections.skip(k).last() == detections.last());
    }
}

/// A player at rest with no zone within reach stays at rest.
pub proof fn lemma_tick_at_rest(cells: Seq<(int, int)>, detections: Seq<Detection>)
    requires
        forall|i: int|
            0 <= i < detections.len() ==> (#[trigger] detections[i]).proximity == Proximity::Far,
    ensures
        ticked(TransformerAnimState::NotAnimating, cells, detections) == (Passage {
            state: TransformerAnimState::NotAnimating,
            cells,
            effects: Seq::empty(),
        }),
{
    let body = Passage {
        state: TransformerAnimState::NotAnimating,
        cells,
        effects: Seq::empty(),
    };
    lemma_detected_all_idle(body, detections);
}

/// A player at rest is caught by the first zone within reach, `first`: it
/// is on its way to that zone, its collisions are switched off and the sound
/// is played. Its cells stay as they are, as long as no later detection of
/// this tick finds it at the centre of that same zone.
pub proof fn lemma_tick_caught(cells: Seq<(int, int)>, detections: Seq<Detection>, first: int)
    requires
        0 <= first < detections.len(),
        detections[first].proximity != Proximity::Far,
        forall|i: int| 0 <= i < first ==> (#[trigger] detections[i]).proximity == Proximity::Far,
        forall|i: int|
            first < i < detections.len() ==> !((#[trigger] detections[i]).transformer.id
                == detections[first].transformer.id && detections[i].proximity
                == Proximity::AtCentre),
    ensures
        ticked(TransformerAnimState::NotAnimating, cells, detections) == (Passage {
            state: TransformerAnimState::MovingToward {
                transformer: detections[first].transformer.id,
            },
            cells,
            effects: seq![Effect::DisableCollision, Effect::PlayApproachSound],
        }),
{
    let body = Passage {
        state: TransformerAnimState::NotAnimating,
        cells,
        effects: Seq::empty(),
    };
    let caught = detected(body, detections[first]);
    let before = detections.take(first);
    let from = detections.skip(first);
    let after = from.skip(1);
    lemma_detected_all_split(body, detections, first);
    lemma_detected_all_idle(body, before);
    lemma_detected_all_split(caught, from, 1);
    assert(detected_all(body, from.take(1)) == caught) by {
        assert(from.take(1).drop_last() =~= Seq::<Detection>::empty());
        assert(from.take(1).last() == detections[first]);
        assert(detected_all(body, from.take(1).drop_last()) == body);
    }
    lemma_detected_all_split(body, from, 1);
    assert forall|i: int| 0 <= i < after.len() implies detected(caught, #[trigger] after[i])
        == caught by {
        assert(after[i] == detections[first + 1 + i]);
    }
    lemma_detected_all_idle(caught, after);
    assert(caught.effects =~= seq![Effect::DisableCollision, Effect::PlayApproachSound]);
}

/// A player on its way to a zone stays on its way, whatever is measured,
/// until it is found at the centre of that zone: there is no way back.
pub proof fn lemma_tick_drawn_in(
    transformer: usize,
    cells: Seq<(int, int)>,
    detections: Seq<Detection>,
)
    requires
        forall|i: int|
            0 <= i < detections.len() ==> !((#[trigger] detections[i]).transformer.id
                == transformer && detections[i].proximity == Proximity::AtCentre),
    ensures
        ticked(TransformerAnimState::MovingToward { transformer }, cells, detections) == (Passage {
            state: TransformerAnimState::MovingToward { transformer },
            cells,
            effects: Seq::empty(),
        }),
{
    let body = Passage {
        state: TransformerAnimState::MovingToward { transformer },
        cells,
        effects: Seq::empty(),
    };
    lemma_detected_all_idle(body, detections);
}

/// A player on its way to a zone that is found at the centre of that zone,
/// first by the detection `arrival`, is reshaped by the transformation of
/// that detection and is on its way out. Its outline is to be rebuilt, and
/// nothing else is done.
pub proof fn lemma_tick_arrived(
    transformer: usize,
    cells: Seq<(int, int)>,
    detections: Seq<Detection>,
    arrival: int,
)
    requires
        0 <= arrival < detections.len(),
        detections[arrival].transformer.id == transformer,
        detections[arrival].proximity == Proximity::AtCentre,
        forall|i: int|
            0 <= i < arrival ==> !((#[trigger] detections[i]).transformer.id == transformer
                && detections[i].proximity == Proximity::AtCentre),
    ensures
        ticked(TransformerAnimState::MovingToward { transformer }, cells, detections) == (Passage {
            state: TransformerAnimState::MovingAway { transformer },
            cells: detections[arrival].transformer.transformation.applied(cells),
            effects: seq![Effect::Reshape],
        }),
{
    let body = Passage {
        state: TransformerAnimState::MovingToward { transformer },
        cells,
        effects: Seq::empty(),
    };
    let turned_back = detected(body, detections[arrival]);
    let before = detections.take(arrival);
    let from = detections.skip(arrival);
    let after = from.skip(1);
    lemma_detected_all_split(body, detections, arrival);
    lemma_detected_all_idle(body, before);
    assert(detected_all(body, from.take(1)) == turned_back) by {
        assert(from.take(1).drop_last() =~= Seq::<Detection>::empty());
        assert(from.take(1).last() == detections[arrival]);
        assert(detected_all(body, from.take(1).drop_last()) == body);
    }
    lemma_detected_all_split(body, from, 1);
    lemma_detected_all_idle(turned_back, after);
    assert(turned_back.effects =~= seq![Effect::Reshape]);
    assert(near(detections, transformer));
}

/// A player on its way out of a zone stays so while that zone is within
/// reach. As soon as it is not, the player falls and collides again. Its
/// cells stay as they are either way.
pub proof fn lemma_tick_on_the_way_out(
    transformer: usize,
    cells: Seq<(int, int)>,
    detections: Seq<Detection>,
)
    ensures
        ticked(TransformerAnimState::MovingAway { transformer }, cells, detections) == if near(
            detections,
            transformer,
        ) {
            Passage {
                state: TransformerAnimState::MovingAway { transformer },
                cells,
                effects: Seq::empty(),
            }
        } else {
            Passage {
                state: TransformerAnimState::Falling,
                cells,
                effects: seq![Effect::EnableCollision],
            }
        },
{
    let body = Passage {
        state: TransformerAnimState::MovingAway { transformer },
        cells,
        effects: Seq::empty(),
    };
    lemma_detected_all_idle(body, detections);
    assert(body.effects.push(Effect::EnableCollision) =~= seq![Effect::EnableCollision]);
}

/// No zone acts on a falling player.
pub proof fn lemma_tick_falling(cells: Seq<(int, int)>, detections: Seq<Detection>)
    ensures
        ticked(TransformerAnimState::Falling, cells, detections) == (Passage {
            state: TransformerAnimState::Falling,
            cells,
            effects: Seq::empty(),
        }),
{
    let body = Passage { state: TransformerAnimState::Falling, cells, effects: Seq::empty() };
    lemma_detected_all_idle(body, detections);
}

/// Whatever is measured, a tick leaves the cells as they are or reshapes
/// them once, by the transformation of one of the zones that were measured.
pub proof fn lemma_tick_reshapes_once(
    state: TransformerAnimState,
    cells: Seq<(int, int)>,
    detections: Seq<Detection>,
)
    ensures
        ticked(state, cells, detections).cells == cells || exists|i: int|
            0 <= i < detections.len() && ticked(state, cells, detections).cells
                == (#[trigger] detections[i]).transformer.transformation.applied(cells),
{
    let body = Passage { state, cells, effects: Seq::empty() };
    lemma_detected_all_reshapes_once(body, detections);
}

/// The detections of a tick leave the cells as they are, or reshape them
/// once and leave the body on its way out.
proof fn lemma_detected_all_reshapes_once(body: Passage, detections: Seq<Detection>)
    ensures
        detected_all(body, detections).cells == body.cells || (detected_all(
            body,
            detections,
        ).state is MovingAway && exists|i: int|
            0 <= i < detections.len() && detected_all(body, detections).cells
                == (#[trigger] detections[i]).transformer.transformation.applied(body.cells)),
    decreases detections.len(),
{
    if detections.len() > 0 {
        let front = detections.drop_last();
        let before = detected_all(body, front);
        let after = detected_all(body, detections);
        lemma_detected_all_reshapes_once(body, front);
        if before.cells == body.cells {
            if after.cells != body.cells {
                let last = detections.len() - 1;
                assert(after.cells == detections[last].transformer.transformation.applied(
                    body.cells,
                ));
            }
        } else {
            let i = choose|i: int|
                0 <= i < front.len() && before.cells
                    == (#[trigger] front[i]).transformer.transformation.applied(body.cells);
            assert(front[i] == detections[i]);
            assert(after == before);
        }
    }
}

/// A tick keeps a well-formed body well-formed, as long as a cell can still
/// be added on the grid to its right and on top of it. A body that touches
/// both axes keeps touching them.
pub proof fn lemma_tick_well_formed(
    state: TransformerAnimState,
    cells: Seq<(int, int)>,
    detections: Seq<Detection>,
)
    requires
        well_formed(cells),
        width(cells) <= MAX_COORD,
        height(cells) <= MAX_COORD,
    ensures
        well_formed(ticked(state, cells, detections).cells),
        anchored(cells) ==> anchored(ticked(state, cells, detections).cells),
{
    lemma_tick_reshapes_once(state, cells, detections);
    let after = ticked(state, cells, detections).cells;
    if after != cells {
        let i = choose|i: int|
            0 <= i < detections.len() && after
                == (#[trigger] detections[i]).transformer.transformation.applied(cells);
        lemma_applied_well_formed(detections[i].transformer.transformation, cells);
        if anchored(cells) {
            lemma_applied_anchored(detections[i].transformer.transformation, cells);
        }
    }
}

/// Advances the player's animation by one tick, given what was measured of
/// each zone, and returns what the caller has to do to the world, in order.
///
/// The detections are taken in their order. The first zone within reach
/// catches a player at rest. A player that has arrived at the centre of the
/// zone that caught it is reshaped by that zone's transformation and turns
/// back. At the end, a player that is on its way out and no longer within
/// reach of its zone is let go.
pub fn apply_transformations(player: &mut Player, detections: &Vec<Detection>) -> (effects: Vec<
    Effect,
>)
    requires
        forall|i: int|
            0 <= i < detections.len() ==> (#[trigger] detections[i]).transformer.transformation
                .applies_to(old(player).cells()),
    ensures
        final(player).transformer_anim_state == ticked(
            old(player).transformer_anim_state,
            old(player).cells(),
            detections@,
        ).state,
        final(player).cells() == ticked(
            old(player).transformer_anim_state,
            old(player).cells(),
            detections@,
        ).cells,
        effects@ == ticked(
            old(player).transformer_anim_state,
            old(player).cells(),
            detections@,
        ).effects,
        final(player).is_jumping == old(player).is_jumping,
{
    let ghost start = Passage {
        state: player.transformer_anim_state,
        cells: player.cells(),
        effects: Seq::empty(),
    };
    let mut effects: Vec<Effect> = Vec::new();
    let mut i: usize = 0;
    while i < detections.len()
        invariant
            0 <= i <= detections.len(),
            player.is_jumping == old(player).is_jumping,
            start.cells == old(player).cells(),
            (player.transformer_anim_state is MovingAway) || player.cells() == start.cells,
            forall|j: int|
                0 <= j < detections.len() ==> (#[trigger] detections[j]).transformer.transformation
                    .applies_to(start.cells),
            detected_all(start, detections@.take(i as int)) == (Passage {
                state: player.transformer_anim_state,
                cells: player.cells(),
                effects: effects@,
            }),
        decreases detections.len() - i,
    {
        let detection = detections[i];
        proof {
            assert(detections@.take(i as int + 1).drop_last() == detections@.take(i as int));
            assert(detections@.take(i as int + 1).last() == detection);
        }
        if detection.proximity != Proximity::Far {
            match player.transformer_anim_state {
                TransformerAnimState::NotAnimating => {
                    player.transformer_anim_state = TransformerAnimState::MovingToward {
                        transformer: detection.transformer.id,
                    };
                    effects.push(Effect::DisableCollision);
                    effects.push(Effect::PlayApproachSound);
                },
                TransformerAnimState::MovingToward { transformer } => {
                    if transformer == detection.transformer.id && detection.proximity
                        == Proximity::AtCentre {
                        player.transformer_anim_state = TransformerAnimState::MovingAway {
                            transformer,
                        };
                        detection.transformer.transformation.apply(player);
                        effects.push(Effect::Reshape);
                    }
                },
                _ => {},
            }
        }
        i += 1;
    }
    proof {
        assert(detections@.take(detections.len() as int) == detections@);
    }
    if let TransformerAnimState::MovingAway { transformer } = player.transformer_anim_state {
        if !is_near(detections, transformer) {
            player.transformer_anim_state = TransformerAnimState::Falling;
            effects.push(Effect::EnableCollision);
        }
    }
    effects
}

} // verus!
