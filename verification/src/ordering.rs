//! The order in which the pixels of a picture are drawn.

use vstd::prelude::*;
use crate::art::{Art, Pixel, PixelColor};
use crate::vector::UVec2;

verus! {

/// The kinds of order that a picture can be drawn in.
#[derive(Clone, Copy, Debug, Default, PartialEq, Eq, Hash, Structural)]
pub enum OrderingType {
    #[default]
    Default,
    SideToSide,
    Spiral,
}

/// The pixels of a picture in the order in which they are drawn.
#[derive(Debug)]
pub struct PixelOrdering {
    data: Vec<Pixel>,
}

impl Clone for PixelOrdering {
    /// The same pixels in the same order.
    fn clone(&self) -> (copy: Self)
        ensures
            copy@ == self@,
    {
        let copy = PixelOrdering { data: self.data.clone() };
        assert(copy@ =~= self@);
        copy
    }
}

impl View for PixelOrdering {
    type V = Seq<Pixel>;

    closed spec fn view(&self) -> Seq<Pixel> {
        self.data@
    }
}

impl PixelOrdering {
    /// The order that draws `pixels` one after the other.
    pub fn from_pixels(pixels: Vec<Pixel>) -> (ordering: PixelOrdering)
        ensures
            ordering@ == pixels@,
    {
        PixelOrdering { data: pixels }
    }

    /// How many pixels the order draws.
    pub fn len(&self) -> (len: usize)
        ensures
            len == self@.len(),
    {
        self.data.len()
    }
}

/// The pixels that are present among the first `count` cells of a grid of
/// colours of the given width, read row by row.
pub open spec fn present_pixels(cells: Seq<Option<PixelColor>>, width: int, count: int) -> Seq<Pixel>
    decreases count,
{
    if count <= 0 {
        Seq::empty()
    } else {
        let i = count - 1;
        let before = present_pixels(cells, width, i);
        match cells[i] {
            Some(color) => before.push(
                Pixel { pos: UVec2 { x: (i % width) as u32, y: (i / width) as u32 }, color },
            ),
            None => before,
        }
    }
}

/// The default order: the pixels that are present, row by row from the top
/// and in each row from the left.
pub fn generate_fast(art: &Art) -> (ordering: PixelOrdering)
    ensures
        ordering@ == present_pixels(
            art.grid()@,
            art.spec_width() as int,
            art.spec_width() * art.spec_height(),
        ),
{
    proof {
        use_type_invariant(art);
    }
    let width = art.width();
    let height = art.height();
    let ghost cells = art.grid()@;
    let ghost w = width as int;
    let mut data: Vec<Pixel> = Vec::new();
    let mut y: u32 = 0;
    while y < height
        invariant
            art.wf(),
            width == art.spec_width(),
            height == art.spec_height(),
            cells == art.grid()@,
            w == width,
            w >= 2,
            y <= height,
            data@ == present_pixels(cells, w, y * w),
        decreases height - y,
    {
        let mut x: u32 = 0;
        proof {
            assert(y * w + 0 == y * w);
        }
        while x < width
            invariant
                art.wf(),
                width == art.spec_width(),
                height == art.spec_height(),
                cells == art.grid()@,
                w == width,
                w >= 2,
                y < height,
                x <= width,
                data@ == present_pixels(cells, w, y * w + x),
            decreases width - x,
        {
            let pos = UVec2 { x, y };
            let pixel = art.pixel(pos);
            proof {
                let i = y * w + x;
                assert(i / w == y && i % w == x) by (nonlinear_arith)
                    requires
                        i == y * w + x,
                        0 <= x < w,
                        0 <= y,
                ;
                assert(i + 1 - 1 == i);
                assert(art.grid().spec_index(pos) == cells[i]);
                assert(i >= 0) by (nonlinear_arith)
                    requires
                        i == y * w + x,
                        0 <= x,
                        0 <= y,
                        0 <= w,
                ;
            }
            if let Some(pixel) = pixel {
                data.push(pixel);
            }
            x += 1;
        }
        proof {
            assert(y * w + w == (y + 1) * w) by (nonlinear_arith);
        }
        y += 1;
    }
    proof {
        assert(height * w == w * height) by (nonlinear_arith);
    }
    PixelOrdering { data }
}

/// An order and how far drawing has come in it.
#[derive(Debug)]
pub struct CurrentOrdering {
    ordering: PixelOrdering,
    pos: usize,
}

impl CurrentOrdering {
    /// The pixels that are still to be drawn, the next one first.
    pub closed spec fn remaining(&self) -> Seq<Pixel> {
        if self.pos <= self.ordering@.len() {
            self.ordering@.skip(self.pos as int)
        } else {
            Seq::empty()
        }
    }

    /// Starts to draw in the given order.
    pub fn init(ordering: PixelOrdering) -> (current: CurrentOrdering)
        ensures
            current.remaining() == ordering@,
    {
        assert(ordering@.skip(0) =~= ordering@);
        CurrentOrdering { ordering, pos: 0 }
    }

    /// The next pixel that is due to be drawn.
    pub open spec fn spec_peek(&self) -> Option<Pixel> {
        if self.remaining().len() > 0 {
            Some(self.remaining()[0])
        } else {
            None
        }
    }

    /// The next pixel that is due to be drawn.
    #[verifier::when_used_as_spec(spec_peek)]
    pub fn peek(&self) -> (pixel: Option<Pixel>)
        ensures
            pixel == self.spec_peek(),
    {
        if self.pos < self.ordering.data.len() {
            Some(self.ordering.data[self.pos])
        } else {
            None
        }
    }

    /// Takes the next pixel that is due to be drawn.
    pub fn next(&mut self) -> (pixel: Option<Pixel>)
        ensures
            pixel == old(self).spec_peek(),
            final(self).remaining() == (if old(self).remaining().len() > 0 {
                old(self).remaining().skip(1)
            } else {
                old(self).remaining()
            }),
    {
        let pixel = self.peek();
        if self.pos < self.ordering.data.len() {
            self.pos += 1;
            assert(self.remaining() =~= old(self).remaining().skip(1));
        }
        pixel
    }
}

} // verus!
