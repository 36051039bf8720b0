use vstd::prelude::*;

verus! {

/// What a cell of the level is made of.
#[derive(Clone, Copy, Debug, PartialEq, Eq, Structural)]
pub enum TileType {
    Wall,
    Floor,
}

/// A dense `width` x `height` grid stored row by row: cell `(x, y)` lives at
/// `y * width + x`.
pub struct Buffer2D<T> {
    pub height: i32,
    pub width: i32,
    pub data: Vec<T>,
}

/// Row-major index of `(x, y)` in a grid `width` cells wide.
pub open spec fn index_of(width: int, x: int, y: int) -> int {
    y * width + x
}

pub open spec fn in_grid(width: int, height: int, x: int, y: int) -> bool {
    0 <= x < width && 0 <= y < height
}

/// An in-bounds cell has an index inside the backing array.
pub proof fn lemma_index_in_range(width: int, height: int, x: int, y: int)
    requires
        in_grid(width, height, x, y),
    ensures
        0 <= index_of(width, x, y) < width * height,
{
    assert(0 <= y * width) by (nonlinear_arith)
        requires
            0 <= y,
            0 <= width,
    ;
    assert(y * width + x < width * height) by (nonlinear_arith)
        requires
            0 <= x < width,
            0 <= y < height,
    ;
}

/// The cell that sits at a given index of the backing array.
pub proof fn lemma_index_inverse(width: int, height: int, i: int)
    requires
        width > 0,
        0 <= i < width * height,
    ensures
        in_grid(width, height, i % width, i / width),
        index_of(width, i % width, i / width) == i,
{
    let q = i / width;
    let r = i % width;
    vstd::arithmetic::div_mod::lemma_fundamental_div_mod(i, width);
    vstd::arithmetic::div_mod::lemma_mod_pos_bound(i, width);
    vstd::arithmetic::div_mod::lemma_div_pos_is_pos(i, width);
    assert(q * width == width * q) by (nonlinear_arith);
    if q >= height {
        assert(width * q >= width * height) by (nonlinear_arith)
            requires
                q >= height,
                width > 0,
        ;
    }
}

/// Row-major indexing is a bijection from the in-bounds cells onto
/// `[0, width * height)`: distinct cells get distinct indices, every cell's
/// index is in range, and every index in range is some cell's.
pub proof fn lemma_index_bijective(width: int, height: int)
    requires
        width > 0,
        height >= 0,
    ensures
        forall|x: int, y: int|
            #![trigger index_of(width, x, y)]
            in_grid(width, height, x, y) ==> 0 <= index_of(width, x, y) < width * height,
        forall|x1: int, y1: int, x2: int, y2: int|
            #![trigger index_of(width, x1, y1), index_of(width, x2, y2)]
            in_grid(width, height, x1, y1) && in_grid(width, height, x2, y2) && index_of(
                width,
                x1,
                y1,
            ) == index_of(width, x2, y2) ==> x1 == x2 && y1 == y2,
        forall|i: int|
            #![trigger i % width]
            0 <= i < width * height ==> in_grid(width, height, i % width, i / width) && index_of(
                width,
                i % width,
                i / width,
            ) == i,
{
    assert forall|x: int, y: int|
        #![trigger index_of(width, x, y)]
        in_grid(width, height, x, y) implies 0 <= index_of(width, x, y) < width * height by {
        lemma_index_in_range(width, height, x, y);
    }
    assert forall|x1: int, y1: int, x2: int, y2: int|
        #![trigger index_of(width, x1, y1), index_of(width, x2, y2)]
        in_grid(width, height, x1, y1) && in_grid(width, height, x2, y2) && index_of(
            width,
            x1,
            y1,
        ) == index_of(width, x2, y2) implies x1 == x2 && y1 == y2 by {
        lemma_index_unique(width, x1, y1, x2, y2);
    }
    assert forall|i: int|
        #![trigger i % width]
        0 <= i < width * height implies in_grid(width, height, i % width, i / width) && index_of(
            width,
            i % width,
            i / width,
        ) == i by {
        lemma_index_inverse(width, height, i);
    }
}

/// Two in-row positions with the same index are the same cell.
pub proof fn lemma_index_unique(width: int, x1: int, y1: int, x2: int, y2: int)
    requires
        0 <= x1 < width,
        0 <= x2 < width,
        0 <= y1,
        0 <= y2,
        index_of(width, x1, y1) == index_of(width, x2, y2),
    ensures
        x1 == x2,
        y1 == y2,
{
    if y1 < y2 {
        assert(y1 * width + width <= y2 * width) by (nonlinear_arith)
            requires
                y1 < y2,
                width > 0,
        ;
    } else if y2 < y1 {
        assert(y2 * width + width <= y1 * width) by (nonlinear_arith)
            requires
                y2 < y1,
                width > 0,
        ;
    }
}

impl<T> Buffer2D<T> {
    pub open spec fn wf(&self) -> bool {
        &&& self.width >= 0
        &&& self.height >= 0
        &&& self.data@.len() == self.width * self.height
    }

    pub open spec fn in_bounds(&self, x: int, y: int) -> bool {
        in_grid(self.width as int, self.height as int, x, y)
    }

    pub open spec fn idx(&self, x: int, y: int) -> int {
        index_of(self.width as int, x, y)
    }

    pub open spec fn cell(&self, x: int, y: int) -> T {
        self.data@[self.idx(x, y)]
    }

    /// `after` is `before` with the single cell `(x, y)` replaced by `v`.
    pub open spec fn is_set(before: Buffer2D<T>, after: Buffer2D<T>, x: int, y: int, v: T) -> bool {
        &&& after.width == before.width
        &&& after.height == before.height
        &&& after.data@ == before.data@.update(before.idx(x, y), v)
    }

    /// A `width` x `height` grid with every cell a clone of `fill`.
    pub fn new(width: i32, height: i32, fill: T) -> (r: Buffer2D<T>) where T: Clone
        requires
            width >= 0,
            height >= 0,
            width * height <= usize::MAX,
        ensures
            r.wf(),
            r.width == width,
            r.height == height,
            forall|i: int| 0 <= i < r.data@.len() ==> cloned(fill, #[trigger] r.data@[i]),
    {
        let n: usize = (width as usize) * (height as usize);
        Buffer2D { width, height, data: vec![fill; n] }
    }

    /// Index of `(x, y)` in `data`.
    pub fn xy_idx(&self, x: i32, y: i32) -> (r: usize)
        requires
            self.wf(),
            self.in_bounds(x as int, y as int),
        ensures
            r as int == self.idx(x as int, y as int),
            r < self.data@.len(),
    {
        proof {
            lemma_index_in_range(self.width as int, self.height as int, x as int, y as int);
            assert(self.data@.len() == self.data.len());
            assert(0 <= (y as int) * (self.width as int) <= (y as int) * (self.width as int) + (
            x as int));
        }
        (y as usize) * (self.width as usize) + (x as usize)
    }

    pub fn set(&mut self, x: i32, y: i32, tile: T)
        requires
            old(self).wf(),
            old(self).in_bounds(x as int, y as int),
        ensures
            final(self).wf(),
            Self::is_set(*old(self), *final(self), x as int, y as int, tile),
    {
        let idx = self.xy_idx(x, y);
        self.data.set(idx, tile);
    }

    pub fn get(&self, x: i32, y: i32) -> (r: &T)
        requires
            self.wf(),
            self.in_bounds(x as int, y as int),
        ensures
            *r == self.cell(x as int, y as int),
    {
        let idx = self.xy_idx(x, y);
        &self.data[idx]
    }

    /// Replaces the cell `(x, y)` by what `func` makes of it.
    pub fn mutate<F>(&mut self, x: i32, y: i32, func: F) where F: Fn(&T) -> T
        requires
            old(self).wf(),
            old(self).in_bounds(x as int, y as int),
            func.requires((&old(self).cell(x as int, y as int),)),
        ensures
            final(self).wf(),
            Self::is_set(*old(self), *final(self), x as int, y as int, final(self).cell(x as int, y as int)),
            func.ensures((&old(self).cell(x as int, y as int),), final(self).cell(x as int, y as int)),
    {
        let idx = self.xy_idx(x, y);
        let v = func(&self.data[idx]);
        self.data.set(idx, v);
    }
}

/// Reading a cell right after writing it gives the written value, and every
/// other in-bounds cell keeps its value.
pub proof fn lemma_get_after_set<T>(before: Buffer2D<T>, after: Buffer2D<T>, x: int, y: int, v: T)
    requires
        before.wf(),
        before.in_bounds(x, y),
        Buffer2D::is_set(before, after, x, y, v),
    ensures
        after.wf(),
        after.cell(x, y) == v,
        forall|x2: int, y2: int|
            #![trigger after.cell(x2, y2)]
            before.in_bounds(x2, y2) && (x2 != x || y2 != y) ==> after.cell(x2, y2) == before.cell(
                x2,
                y2,
            ),
{
    lemma_index_in_range(before.width as int, before.height as int, x, y);
    assert forall|x2: int, y2: int|
        #![trigger after.cell(x2, y2)]
        before.in_bounds(x2, y2) && (x2 != x || y2 != y) implies after.cell(x2, y2)
        == before.cell(x2, y2) by {
        lemma_index_in_range(before.width as int, before.height as int, x2, y2);
        if before.idx(x2, y2) == before.idx(x, y) {
            lemma_index_unique(before.width as int, x2, y2, x, y);
        }
    }
}

} // verus!
