//! A dense two-dimensional array of fixed size, stored row by row.

use vstd::prelude::*;
use vstd::slice::slice_subrange;
use crate::vector::UVec2;

verus! {

/// A grid of `width * height` values. The value at `(x, y)` is entry
/// `y * width + x` of the view.
#[derive(Debug, PartialEq, Eq)]
pub struct Grid<T> {
    width: u32,
    height: u32,
    data: Vec<T>,
}

impl<T> View for Grid<T> {
    type V = Seq<T>;

    closed spec fn view(&self) -> Seq<T> {
        self.data@
    }
}

impl<T> Grid<T> {
    /// How many cells a row of the grid has.
    pub closed spec fn spec_width(&self) -> u32 {
        self.width
    }

    /// How many rows the grid has.
    pub closed spec fn spec_height(&self) -> u32 {
        self.height
    }

    /// The grid holds exactly one value for each coordinate.
    #[verifier::type_invariant]
    pub open spec fn wf(&self) -> bool {
        self@.len() == self.spec_width() * self.spec_height()
    }

    /// Width and height of the grid.
    pub open spec fn spec_size(&self) -> UVec2 {
        UVec2 { x: self.spec_width(), y: self.spec_height() }
    }

    /// Whether `pos` is a coordinate of the grid.
    pub open spec fn contains(&self, pos: UVec2) -> bool {
        pos.x < self.spec_width() && pos.y < self.spec_height()
    }

    /// The value at `pos`.
    pub open spec fn spec_index(&self, pos: UVec2) -> T
        recommends
            self.contains(pos),
    {
        self@[pos.y * self.spec_width() + pos.x]
    }

    /// A coordinate of the grid has its own place in the row-major view.
    pub proof fn lemma_index_in_bounds(&self, pos: UVec2)
        requires
            self.wf(),
            self.contains(pos),
        ensures
            0 <= pos.y * self.spec_width() + pos.x < self@.len(),
    {
        let w = self.spec_width() as int;
        let h = self.spec_height() as int;
        let x = pos.x as int;
        let y = pos.y as int;
        assert(y * w + x < h * w) by (nonlinear_arith)
            requires
                0 <= x < w,
                0 <= y < h,
        ;
        assert(0 <= y * w) by (nonlinear_arith)
            requires
                0 <= y,
                0 <= w,
        ;
        assert(h * w == w * h) by (nonlinear_arith);
    }

    /// Two coordinates of the grid that share a place in the view are the
    /// same coordinate.
    pub proof fn lemma_index_injective(&self, a: UVec2, b: UVec2)
        requires
            self.contains(a),
            self.contains(b),
            a.y * self.spec_width() + a.x == b.y * self.spec_width() + b.x,
        ensures
            a == b,
    {
        let w = self.spec_width() as int;
        let (ax, ay, bx, by) = (a.x as int, a.y as int, b.x as int, b.y as int);
        assert(ay == by) by (nonlinear_arith)
            requires
                0 <= ax < w,
                0 <= bx < w,
                0 <= ay,
                0 <= by,
                ay * w + ax == by * w + bx,
        ;
    }

    /// A grid of the given size with the default value in every cell.
    pub fn new(size: UVec2) -> (grid: Self) where T: Default
        requires
            size.x * size.y <= usize::MAX,
        ensures
            grid.wf(),
            grid.spec_size() == size,
            forall|i: int|
                0 <= i < grid@.len() ==> call_ensures(T::default, (), #[trigger] grid@[i]),
    {
        let area: usize = size.x as usize * size.y as usize;
        let mut data: Vec<T> = Vec::with_capacity(area);
        let mut i: usize = 0;
        while i < area
            invariant
                i <= area,
                data@.len() == i,
                forall|k: int| 0 <= k < i ==> call_ensures(T::default, (), #[trigger] data@[k]),
            decreases area - i,
        {
            data.push(T::default());
            i += 1;
        }
        Grid { width: size.x, height: size.y, data }
    }

    /// The grid whose rows are the consecutive chunks of `width` values of
    /// `data`.
    pub fn from_vec(data: Vec<T>, width: usize) -> (grid: Self)
        requires
            0 < width <= u32::MAX,
            data@.len() as int % width as int == 0,
            data@.len() as int / width as int <= u32::MAX,
        ensures
            grid.wf(),
            grid@ == data@,
            grid.spec_width() == width,
            grid.spec_height() == data@.len() as int / width as int,
    {
        let height: usize = data.len() / width;
        proof {
            let n = data@.len() as int;
            let w = width as int;
            assert(n == w * (n / w) + n % w) by (nonlinear_arith)
                requires
                    w > 0,
            ;
        }
        Grid { width: width as u32, height: height as u32, data }
    }

    #[verifier::when_used_as_spec(spec_width)]
    pub fn width(&self) -> (w: u32)
        ensures
            w == self.spec_width(),
    {
        self.width
    }

    #[verifier::when_used_as_spec(spec_height)]
    pub fn height(&self) -> (h: u32)
        ensures
            h == self.spec_height(),
    {
        self.height
    }

    #[verifier::when_used_as_spec(spec_size)]
    pub fn size(&self) -> (s: UVec2)
        ensures
            s == self.spec_size(),
    {
        UVec2 { x: self.width, y: self.height }
    }

    /// The place of `pos` in the row-major storage.
    fn offset(&self, pos: UVec2) -> (i: usize)
        requires
            self.wf(),
            self.contains(pos),
        ensures
            i == pos.y * self.spec_width() + pos.x,
            i < self@.len(),
    {
        proof {
            self.lemma_index_in_bounds(pos);
            let w = self.spec_width() as int;
            let y = pos.y as int;
            assert(0 <= y * w <= y * w + pos.x) by (nonlinear_arith)
                requires
                    0 <= y,
                    0 <= w,
                    0 <= pos.x,
            ;
            assert(self@.len() == self.data.len());
        }
        pos.y as usize * self.width as usize + pos.x as usize
    }

    /// The value at `pos`.
    pub fn get(&self, pos: UVec2) -> (value: &T)
        requires
            self.contains(pos),
        ensures
            *value == self.spec_index(pos),
    {
        proof {
            use_type_invariant(self);
        }
        let i = self.offset(pos);
        &self.data[i]
    }

    /// Replaces the value at `pos` and leaves every other cell as it was.
    pub fn set(&mut self, pos: UVec2, value: T)
        requires
            old(self).contains(pos),
        ensures
            final(self).wf(),
            final(self).spec_size() == old(self).spec_size(),
            final(self)@ == old(self)@.update(pos.y * old(self).spec_width() + pos.x, value),
            final(self).spec_index(pos) == value,
            forall|other: UVec2|
                old(self).contains(other) && other != pos ==> final(self).spec_index(other) == old(
                    self,
                ).spec_index(other),
    {
        proof {
            use_type_invariant(&*self);
        }
        let i = self.offset(pos);
        self.data[i] = value;
        proof {
            assert forall|other: UVec2| old(self).contains(other) && other != pos implies self.spec_index(
                other,
            ) == old(self).spec_index(other) by {
                old(self).lemma_index_in_bounds(other);
                if other.y * old(self).spec_width() + other.x == pos.y * old(self).spec_width()
                    + pos.x {
                    old(self).lemma_index_injective(other, pos);
                }
            }
        }
    }

    /// The rows of the grid from top to bottom, each from left to right.
    pub fn rows(&self) -> (rows: Vec<&[T]>)
        ensures
            rows@.len() == self.spec_height(),
            forall|y: int|
                0 <= y < self.spec_height() ==> (#[trigger] rows@[y])@ == self@.subrange(
                    y * self.spec_width(),
                    (y + 1) * self.spec_width(),
                ),
    {
        proof {
            use_type_invariant(self);
        }
        let w: usize = self.width as usize;
        let mut rows: Vec<&[T]> = Vec::with_capacity(self.height as usize);
        let mut y: u32 = 0;
        while y < self.height
            invariant
                self.wf(),
                w == self.spec_width(),
                y <= self.spec_height(),
                rows@.len() == y,
                forall|k: int|
                    0 <= k < y ==> (#[trigger] rows@[k])@ == self@.subrange(
                        k * self.spec_width(),
                        (k + 1) * self.spec_width(),
                    ),
            decreases self.spec_height() - y,
        {
            proof {
                let wi = w as int;
                let yi = y as int;
                let h = self.spec_height() as int;
                assert(0 <= yi * wi && (yi + 1) * wi == yi * wi + wi && (yi + 1) * wi <= wi * h)
                    by (nonlinear_arith)
                    requires
                        0 <= yi < h,
                        0 <= wi,
                ;
                assert(self@.len() == self.data.len());
            }
            let start: usize = y as usize * w;
            let row = slice_subrange(self.data.as_slice(), start, start + w);
            rows.push(row);
            y += 1;
        }
        rows
    }
}

impl<T: Clone> Clone for Grid<T> {
    /// A grid of the same size whose cells are clones of the cells of `self`.
    fn clone(&self) -> (copy: Self)
        ensures
            copy.wf(),
            copy.spec_size() == self.spec_size(),
            copy@.len() == self@.len(),
            forall|i: int| 0 <= i < self@.len() ==> cloned(#[trigger] self@[i], copy@[i]),
    {
        proof {
            use_type_invariant(self);
        }
        Grid { width: self.width, height: self.height, data: self.data.clone() }
    }
}

} // verus!
