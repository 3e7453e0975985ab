//! Unit cells on the integer grid and the queries shared by every body that
//! is made of them.
//!
//! A body's cells are modelled as a `Seq<(int, int)>` in insertion order. The
//! predicates and functions of this module speak of that sequence only; the
//! executable functions work on a `Vec<SquarePos>` whose model is
//! [`cells_of`].

use vstd::prelude::*;

verus! {

/// The largest coordinate whose successor still fits in an `i32`.
pub const MAX_COORD: i32 = 2147483646;

/// The edge of one cell in world units.
pub const CELL_SIZE: i32 = 50;

/// Half the edge of one cell.
pub const HALF_CELL: i32 = 25;

/// One unit cell, as an offset `(x, y)` from the body's local origin.
#[derive(Copy, Clone, Debug, PartialEq, Eq, Structural)]
pub struct SquarePos(pub i32, pub i32);

impl View for SquarePos {
    type V = (int, int);

    open spec fn view(&self) -> (int, int) {
        (self.0 as int, self.1 as int)
    }
}

/// An axis-aligned rectangle of an outline, in the body's local space.
#[derive(Copy, Clone, Debug, PartialEq, Eq, Structural)]
pub struct Rectangle {
    pub width: i32,
    pub height: i32,
    /// Where the middle of the rectangle lies.
    pub center_x: i64,
    pub center_y: i64,
}

/// An axis-aligned box of a compound collider, in the body's local space.
#[derive(Copy, Clone, Debug, PartialEq, Eq, Structural)]
pub struct Cuboid {
    /// Where the middle of the box lies.
    pub x: i64,
    pub y: i64,
    pub half_width: i32,
    pub half_height: i32,
}

/// The cells that a vector of squares stands for, in the same order.
pub open spec fn cells_of(squares: Seq<SquarePos>) -> Seq<(int, int)> {
    Seq::new(squares.len(), |i: int| squares[i]@)
}

/// The width of the bounding box: one more than the largest `x`, and 0 where
/// no cell has a non-negative `x`.
pub open spec fn width(cells: Seq<(int, int)>) -> int
    decreases cells.len(),
{
    if cells.len() == 0 {
        0
    } else {
        let rest = width(cells.drop_last());
        if cells.last().0 + 1 > rest {
            cells.last().0 + 1
        } else {
            rest
        }
    }
}

/// The height of the bounding box: one more than the largest `y`, and 0 where
/// no cell has a non-negative `y`.
pub open spec fn height(cells: Seq<(int, int)>) -> int
    decreases cells.len(),
{
    if cells.len() == 0 {
        0
    } else {
        let rest = height(cells.drop_last());
        if cells.last().1 + 1 > rest {
            cells.last().1 + 1
        } else {
            rest
        }
    }
}

/// Every coordinate is small enough for the bounding box to be computed in
/// `i32`.
pub open spec fn fits(cells: Seq<(int, int)>) -> bool {
    forall|i: int|
        0 <= i < cells.len() ==> (#[trigger] cells[i]).0 <= MAX_COORD && cells[i].1 <= MAX_COORD
}

/// Every cell lies on the grid: no coordinate is negative or above
/// [`MAX_COORD`].
pub open spec fn in_grid(cells: Seq<(int, int)>) -> bool {
    forall|i: int|
        0 <= i < cells.len() ==> 0 <= (#[trigger] cells[i]).0 <= MAX_COORD && 0 <= cells[i].1
            <= MAX_COORD
}

/// What a body's cells always are: at least one cell, none of them twice, all
/// of them on the grid.
pub open spec fn well_formed(cells: Seq<(int, int)>) -> bool {
    &&& cells.len() > 0
    &&& cells.no_duplicates()
    &&& in_grid(cells)
}

/// The cells after `cell` was added: unchanged where it is there already,
/// else with `cell` at the end.
pub open spec fn with_cell(cells: Seq<(int, int)>, cell: (int, int)) -> Seq<(int, int)> {
    if cells.contains(cell) {
        cells
    } else {
        cells.push(cell)
    }
}

/// The cells after a quarter turn clockwise about a bounding box of width
/// `w`: each `(x, y)` becomes `(y, w - x - 1)`, all of them at once.
pub open spec fn turned(cells: Seq<(int, int)>, w: int) -> Seq<(int, int)> {
    Seq::new(cells.len(), |i: int| (cells[i].1, w - cells[i].0 - 1))
}

/// The cells moved by `(dx, dy)`.
pub open spec fn shifted(cells: Seq<(int, int)>, dx: int, dy: int) -> Seq<(int, int)> {
    Seq::new(cells.len(), |i: int| (cells[i].0 + dx, cells[i].1 + dy))
}

/// The smallest `x` of the cells, and 0 where there is no cell.
pub open spec fn left(cells: Seq<(int, int)>) -> int
    decreases cells.len(),
{
    if cells.len() == 0 {
        0
    } else if cells.len() == 1 {
        cells.last().0
    } else {
        let rest = left(cells.drop_last());
        if cells.last().0 < rest {
            cells.last().0
        } else {
            rest
        }
    }
}

/// The smallest `y` of the cells, and 0 where there is no cell.
pub open spec fn bottom(cells: Seq<(int, int)>) -> int
    decreases cells.len(),
{
    if cells.len() == 0 {
        0
    } else if cells.len() == 1 {
        cells.last().1
    } else {
        let rest = bottom(cells.drop_last());
        if cells.last().1 < rest {
            cells.last().1
        } else {
            rest
        }
    }
}

/// The body touches both axes: its leftmost cell has `x` 0 and its lowest
/// cell has `y` 0.
pub open spec fn anchored(cells: Seq<(int, int)>) -> bool {
    cells.len() > 0 && left(cells) == 0 && bottom(cells) == 0
}

/// The rectangle that draws `cell`: one cell wide and high, with its middle
/// at the cell's offset times the size of a cell.
pub open spec fn rectangle_of(cell: (int, int)) -> Rectangle {
    Rectangle {
        width: CELL_SIZE,
        height: CELL_SIZE,
        center_x: (CELL_SIZE * cell.0) as i64,
        center_y: (CELL_SIZE * cell.1) as i64,
    }
}

/// The box that collides for `cell`: the same square as [`rectangle_of`],
/// given by its middle and half its size.
pub open spec fn cuboid_of(cell: (int, int)) -> Cuboid {
    Cuboid {
        x: (CELL_SIZE * cell.0) as i64,
        y: (CELL_SIZE * cell.1) as i64,
        half_width: HALF_CELL,
        half_height: HALF_CELL,
    }
}

/// The outline of a body: the rectangle of each cell, in their order.
pub open spec fn outline_of(cells: Seq<(int, int)>) -> Seq<Rectangle> {
    Seq::new(cells.len(), |i: int| rectangle_of(cells[i]))
}

/// The compound collider of a body: the box of each cell, in their order.
pub open spec fn compound_of(cells: Seq<(int, int)>) -> Seq<Cuboid> {
    Seq::new(cells.len(), |i: int| cuboid_of(cells[i]))
}

/// The target `target` is matched by `body`: as many cells, and each cell
/// of the target is one of the body.
pub open spec fn matched(target: Seq<(int, int)>, body: Seq<(int, int)>) -> bool {
    &&& target.len() == body.len()
    &&& forall|i: int| 0 <= i < target.len() ==> body.contains(#[trigger] target[i])
}

/// No cell has an `x` of `w` or more, and `w` is the least such number that
/// is not negative.
pub proof fn lemma_width(cells: Seq<(int, int)>)
    ensures
        width(cells) >= 0,
        forall|i: int| 0 <= i < cells.len() ==> (#[trigger] cells[i]).0 < width(cells),
        width(cells) > 0 ==> exists|i: int|
            0 <= i < cells.len() && (#[trigger] cells[i]).0 == width(cells) - 1,
    decreases cells.len(),
{
    if cells.len() > 0 {
        let front = cells.drop_last();
        lemma_width(front);
        assert forall|i: int| 0 <= i < cells.len() implies (#[trigger] cells[i]).0 < width(
            cells,
        ) by {
            if i < front.len() {
                assert(cells[i] == front[i]);
            }
        }
        if width(cells) > 0 {
            if cells.last().0 + 1 > width(front) {
                assert(cells[cells.len() - 1].0 == width(cells) - 1);
            } else {
                let j = choose|j: int|
                    0 <= j < front.len() && (#[trigger] front[j]).0 == width(front) - 1;
                assert(cells[j] == front[j]);
            }
        }
    }
}

/// No cell has a `y` of `h` or more, and `h` is the least such number that
/// is not negative.
pub proof fn lemma_height(cells: Seq<(int, int)>)
    ensures
        height(cells) >= 0,
        forall|i: int| 0 <= i < cells.len() ==> (#[trigger] cells[i]).1 < height(cells),
        height(cells) > 0 ==> exists|i: int|
            0 <= i < cells.len() && (#[trigger] cells[i]).1 == height(cells) - 1,
    decreases cells.len(),
{
    if cells.len() > 0 {
        let front = cells.drop_last();
        lemma_height(front);
        assert forall|i: int| 0 <= i < cells.len() implies (#[trigger] cells[i]).1 < height(
            cells,
        ) by {
            if i < front.len() {
                assert(cells[i] == front[i]);
            }
        }
        if height(cells) > 0 {
            if cells.last().1 + 1 > height(front) {
                assert(cells[cells.len() - 1].1 == height(cells) - 1);
            } else {
                let j = choose|j: int|
                    0 <= j < front.len() && (#[trigger] front[j]).1 == height(front) - 1;
                assert(cells[j] == front[j]);
            }
        }
    }
}

/// No cell lies to the left of [`left`], and one cell lies there.
pub proof fn lemma_left(cells: Seq<(int, int)>)
    requires
        cells.len() > 0,
    ensures
        forall|i: int| 0 <= i < cells.len() ==> (#[trigger] cells[i]).0 >= left(cells),
        exists|i: int| 0 <= i < cells.len() && (#[trigger] cells[i]).0 == left(cells),
    decreases cells.len(),
{
    if cells.len() == 1 {
        assert(cells[0].0 == left(cells));
    } else {
        let front = cells.drop_last();
        lemma_left(front);
        assert forall|i: int| 0 <= i < cells.len() implies (#[trigger] cells[i]).0 >= left(
            cells,
        ) by {
            if i < front.len() {
                assert(cells[i] == front[i]);
            }
        }
        if cells.last().0 < left(front) {
            assert(cells[cells.len() - 1].0 == left(cells));
        } else {
            let j = choose|j: int| 0 <= j < front.len() && (#[trigger] front[j]).0 == left(front);
            assert(cells[j] == front[j]);
        }
    }
}

/// No cell lies below [`bottom`], and one cell lies there.
pub proof fn lemma_bottom(cells: Seq<(int, int)>)
    requires
        cells.len() > 0,
    ensures
        forall|i: int| 0 <= i < cells.len() ==> (#[trigger] cells[i]).1 >= bottom(cells),
        exists|i: int| 0 <= i < cells.len() && (#[trigger] cells[i]).1 == bottom(cells),
    decreases cells.len(),
{
    if cells.len() == 1 {
        assert(cells[0].1 == bottom(cells));
    } else {
        let front = cells.drop_last();
        lemma_bottom(front);
        assert forall|i: int| 0 <= i < cells.len() implies (#[trigger] cells[i]).1 >= bottom(
            cells,
        ) by {
            if i < front.len() {
                assert(cells[i] == front[i]);
            }
        }
        if cells.last().1 < bottom(front) {
            assert(cells[cells.len() - 1].1 == bottom(cells));
        } else {
            let j = choose|j: int|
                0 <= j < front.len() && (#[trigger] front[j]).1 == bottom(front);
            assert(cells[j] == front[j]);
        }
    }
}

/// A number that bounds every `x` from below as [`left`] does is `left`.
pub proof fn lemma_left_is(cells: Seq<(int, int)>, x: int)
    requires
        forall|i: int| 0 <= i < cells.len() ==> (#[trigger] cells[i]).0 >= x,
        exists|i: int| 0 <= i < cells.len() && (#[trigger] cells[i]).0 == x,
    ensures
        left(cells) == x,
{
    lemma_left(cells);
    let j = choose|j: int| 0 <= j < cells.len() && (#[trigger] cells[j]).0 == left(cells);
    let k = choose|k: int| 0 <= k < cells.len() && (#[trigger] cells[k]).0 == x;
    assert(cells[j].0 >= x && cells[k].0 >= left(cells));
}

/// A number that bounds every `y` from below as [`bottom`] does is `bottom`.
pub proof fn lemma_bottom_is(cells: Seq<(int, int)>, y: int)
    requires
        forall|i: int| 0 <= i < cells.len() ==> (#[trigger] cells[i]).1 >= y,
        exists|i: int| 0 <= i < cells.len() && (#[trigger] cells[i]).1 == y,
    ensures
        bottom(cells) == y,
{
    lemma_bottom(cells);
    let j = choose|j: int| 0 <= j < cells.len() && (#[trigger] cells[j]).1 == bottom(cells);
    let k = choose|k: int| 0 <= k < cells.len() && (#[trigger] cells[k]).1 == y;
    assert(cells[j].1 >= y && cells[k].1 >= bottom(cells));
}

/// A number that bounds every `x` as [`width`] does is the width.
pub proof fn lemma_width_is(cells: Seq<(int, int)>, w: int)
    requires
        w >= 0,
        forall|i: int| 0 <= i < cells.len() ==> (#[trigger] cells[i]).0 < w,
        w > 0 ==> exists|i: int| 0 <= i < cells.len() && (#[trigger] cells[i]).0 == w - 1,
    ensures
        width(cells) == w,
{
    lemma_width(cells);
    if width(cells) > 0 {
        let j = choose|j: int| 0 <= j < cells.len() && (#[trigger] cells[j]).0 == width(cells) - 1;
        assert(cells[j].0 < w);
    }
    if w > 0 {
        let k = choose|k: int| 0 <= k < cells.len() && (#[trigger] cells[k]).0 == w - 1;
        assert(cells[k].0 < width(cells));
    }
}

/// A number that bounds every `y` as [`height`] does is the height.
pub proof fn lemma_height_is(cells: Seq<(int, int)>, h: int)
    requires
        h >= 0,
        forall|i: int| 0 <= i < cells.len() ==> (#[trigger] cells[i]).1 < h,
        h > 0 ==> exists|i: int| 0 <= i < cells.len() && (#[trigger] cells[i]).1 == h - 1,
    ensures
        height(cells) == h,
{
    lemma_height(cells);
    if height(cells) > 0 {
        let j = choose|j: int|
            0 <= j < cells.len() && (#[trigger] cells[j]).1 == height(cells) - 1;
        assert(cells[j].1 < h);
    }
    if h > 0 {
        let k = choose|k: int| 0 <= k < cells.len() && (#[trigger] cells[k]).1 == h - 1;
        assert(cells[k].1 < height(cells));
    }
}

/// The bounding box of a well-formed body is at least one cell wide and one
/// cell high, and holds every cell.
pub proof fn lemma_bounding_box(cells: Seq<(int, int)>)
    requires
        well_formed(cells),
    ensures
        1 <= width(cells) <= MAX_COORD + 1,
        1 <= height(cells) <= MAX_COORD + 1,
        forall|i: int|
            0 <= i < cells.len() ==> 0 <= (#[trigger] cells[i]).0 < width(cells) && 0
                <= cells[i].1 < height(cells),
{
    lemma_width(cells);
    lemma_height(cells);
    assert(0 <= cells[0].0 < width(cells));
    assert(0 <= cells[0].1 < height(cells));
}

/// Adding a cell a second time changes nothing.
pub proof fn lemma_with_cell_twice(cells: Seq<(int, int)>, cell: (int, int))
    ensures
        with_cell(with_cell(cells, cell), cell) == with_cell(cells, cell),
        with_cell(cells, cell).contains(cell),
{
    if !cells.contains(cell) {
        let more = cells.push(cell);
        assert(more[cells.len() as int] == cell);
    }
}

/// Adding a cell keeps what was there, in its place, and adds nothing but
/// that cell.
pub proof fn lemma_with_cell_set(cells: Seq<(int, int)>, cell: (int, int))
    ensures
        with_cell(cells, cell).to_set() == cells.to_set().insert(cell),
        cells.no_duplicates() ==> with_cell(cells, cell).no_duplicates(),
        cells.is_prefix_of(with_cell(cells, cell)),
{
    let more = with_cell(cells, cell);
    assert forall|c: (int, int)| more.to_set().contains(c) <==> cells.to_set().insert(
        cell,
    ).contains(c) by {
        if more.contains(c) {
            let i = choose|i: int| 0 <= i < more.len() && more[i] == c;
            if i < cells.len() {
                assert(cells[i] == c);
            }
        }
        if cells.contains(c) {
            let i = choose|i: int| 0 <= i < cells.len() && cells[i] == c;
            assert(more[i] == c);
        }
        if c == cell && !cells.contains(cell) {
            assert(more[cells.len() as int] == c);
        }
    }
    assert(more.to_set() =~= cells.to_set().insert(cell));
}

/// Every body matches itself.
pub proof fn lemma_matched_reflexive(cells: Seq<(int, int)>)
    ensures
        matched(cells, cells),
{
}

/// Bodies of different numbers of cells never match, whatever cells they
/// share.
pub proof fn lemma_matched_sizes(target: Seq<(int, int)>, body: Seq<(int, int)>)
    requires
        target.len() != body.len(),
    ensures
        !matched(target, body),
        !matched(body, target),
{
}

/// Where neither side holds a cell twice, to match is to have the same set
/// of cells.
pub proof fn lemma_matched_sets(target: Seq<(int, int)>, body: Seq<(int, int)>)
    requires
        target.no_duplicates(),
        body.no_duplicates(),
    ensures
        matched(target, body) <==> target.to_set() == body.to_set(),
{
    target.unique_seq_to_set();
    body.unique_seq_to_set();
    if matched(target, body) {
        assert forall|c: (int, int)| target.to_set().contains(c) implies body.to_set().contains(
            c,
        ) by {
            let i = choose|i: int| 0 <= i < target.len() && target[i] == c;
            assert(body.contains(target[i]));
        }
        assert(target.to_set().subset_of(body.to_set()));
        vstd::set_lib::lemma_subset_equality(target.to_set(), body.to_set());
    }
    if target.to_set() == body.to_set() {
        assert forall|i: int| 0 <= i < target.len() implies body.contains(
            #[trigger] target[i],
        ) by {
            assert(target.to_set().contains(target[i]));
            assert(body.to_set().contains(target[i]));
        }
    }
}

/// Where neither side holds a cell twice, it does not matter which of the
/// two is the target.
pub proof fn lemma_matched_symmetric(target: Seq<(int, int)>, body: Seq<(int, int)>)
    requires
        target.no_duplicates(),
        body.no_duplicates(),
    ensures
        matched(target, body) == matched(body, target),
{
    lemma_matched_sets(target, body);
    lemma_matched_sets(body, target);
}

/// Whether the bounding box of the squares can be computed in `i32`.
pub fn check_fits(squares: &Vec<SquarePos>) -> (ok: bool)
    ensures
        ok == fits(cells_of(squares@)),
{
    let mut i: usize = 0;
    while i < squares.len()
        invariant
            0 <= i <= squares.len(),
            forall|j: int|
                0 <= j < i ==> (#[trigger] cells_of(squares@)[j]).0 <= MAX_COORD && cells_of(
                    squares@,
                )[j].1 <= MAX_COORD,
        decreases squares.len() - i,
    {
        if squares[i].0 > MAX_COORD || squares[i].1 > MAX_COORD {
            assert(cells_of(squares@)[i as int] == squares@[i as int]@);
            return false;
        }
        assert(cells_of(squares@)[i as int] == squares@[i as int]@);
        i += 1;
    }
    true
}

/// The bounding box `(width, height)` of the squares. It holds every
/// square, and that of a well-formed body is at least one cell wide and
/// high.
pub fn dimens(squares: &Vec<SquarePos>) -> (dims: (i32, i32))
    requires
        fits(cells_of(squares@)),
    ensures
        dims.0 == width(cells_of(squares@)),
        dims.1 == height(cells_of(squares@)),
        forall|i: int|
            0 <= i < squares@.len() ==> (#[trigger] squares@[i]).0 < dims.0 && squares@[i].1
                < dims.1,
        well_formed(cells_of(squares@)) ==> dims.0 >= 1 && dims.1 >= 1,
{
    let mut max_x: i32 = 0;
    let mut max_y: i32 = 0;
    let mut i: usize = 0;
    while i < squares.len()
        invariant
            0 <= i <= squares.len(),
            fits(cells_of(squares@)),
            max_x == width(cells_of(squares@).take(i as int)),
            max_y == height(cells_of(squares@).take(i as int)),
        decreases squares.len() - i,
    {
        let square = squares[i];
        proof {
            let all = cells_of(squares@);
            assert(all[i as int] == square@);
            assert(all.take(i as int + 1).drop_last() == all.take(i as int));
            assert(all.take(i as int + 1).last() == square@);
        }
        if square.0 + 1 > max_x {
            max_x = square.0 + 1;
        }
        if square.1 + 1 > max_y {
            max_y = square.1 + 1;
        }
        i += 1;
    }
    proof {
        let all = cells_of(squares@);
        assert(all.take(squares.len() as int) == all);
        lemma_width(all);
        lemma_height(all);
        assert forall|i: int| 0 <= i < squares@.len() implies (#[trigger] squares@[i]).0 < max_x
            && squares@[i].1 < max_y by {
            assert(all[i] == squares@[i]@);
        }
        if well_formed(all) {
            lemma_bounding_box(all);
        }
    }
    (max_x, max_y)
}

/// Whether one of the squares is at `(x, y)`.
pub fn has_square(squares: &Vec<SquarePos>, x: i32, y: i32) -> (found: bool)
    ensures
        found == cells_of(squares@).contains((x as int, y as int)),
{
    let mut i: usize = 0;
    while i < squares.len()
        invariant
            0 <= i <= squares.len(),
            forall|j: int| 0 <= j < i ==> cells_of(squares@)[j] != (x as int, y as int),
        decreases squares.len() - i,
    {
        if squares[i].0 == x && squares[i].1 == y {
            assert(cells_of(squares@)[i as int] == (x as int, y as int));
            return true;
        }
        i += 1;
    }
    false
}

/// The outline of the squares: one rectangle for each, in their order.
pub fn outline(squares: &Vec<SquarePos>) -> (shape: Vec<Rectangle>)
    ensures
        shape@ == outline_of(cells_of(squares@)),
{
    let mut shape: Vec<Rectangle> = Vec::new();
    let mut i: usize = 0;
    while i < squares.len()
        invariant
            0 <= i <= squares.len(),
            shape@ == outline_of(cells_of(squares@).take(i as int)),
        decreases squares.len() - i,
    {
        let square = squares[i];
        let size: i64 = CELL_SIZE as i64;
        let rectangle = Rectangle {
            width: CELL_SIZE,
            height: CELL_SIZE,
            center_x: size * (square.0 as i64),
            center_y: size * (square.1 as i64),
        };
        assert(rectangle == rectangle_of(square@));
        shape.push(rectangle);
        i += 1;
        assert(shape@ =~= outline_of(cells_of(squares@).take(i as int)));
    }
    assert(cells_of(squares@).take(i as int) == cells_of(squares@));
    shape
}

/// The compound collider of the squares: one box for each, in their order.
pub fn compound(squares: &Vec<SquarePos>) -> (boxes: Vec<Cuboid>)
    ensures
        boxes@ == compound_of(cells_of(squares@)),
{
    let mut boxes: Vec<Cuboid> = Vec::new();
    let mut i: usize = 0;
    while i < squares.len()
        invariant
            0 <= i <= squares.len(),
            boxes@ == compound_of(cells_of(squares@).take(i as int)),
        decreases squares.len() - i,
    {
        let square = squares[i];
        let size: i64 = CELL_SIZE as i64;
        let cuboid = Cuboid {
            x: size * (square.0 as i64),
            y: size * (square.1 as i64),
            half_width: HALF_CELL,
            half_height: HALF_CELL,
        };
        assert(cuboid == cuboid_of(square@));
        boxes.push(cuboid);
        i += 1;
        assert(boxes@ =~= compound_of(cells_of(squares@).take(i as int)));
    }
    assert(cells_of(squares@).take(i as int) == cells_of(squares@));
    boxes
}

} // verus!
