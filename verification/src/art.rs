//! The picture that is drawn: a grid of pixels, some of them absent.

use vstd::prelude::*;
use crate::grid::Grid;
use crate::vector::{world_pos, world_pos_spec, UVec2, Vec2};

verus! {

/// A colour as red, green, blue and alpha.
#[derive(Clone, Copy, Debug, PartialEq, Eq, Hash, Structural)]
pub struct PixelColor {
    pub red: u8,
    pub green: u8,
    pub blue: u8,
    pub alpha: u8,
}

impl PixelColor {
    pub open spec fn spec_transparent(self) -> PixelColor {
        PixelColor { red: self.red, green: self.green, blue: self.blue, alpha: self.alpha / 2 }
    }

    /// The same colour with half the alpha, rounded down.
    #[verifier::when_used_as_spec(spec_transparent)]
    pub fn transparent(self) -> (color: PixelColor)
        ensures
            color == self.spec_transparent(),
    {
        PixelColor { red: self.red, green: self.green, blue: self.blue, alpha: self.alpha / 2 }
    }

    pub open spec fn spec_channels(self) -> Seq<u8> {
        seq![self.red, self.green, self.blue, self.alpha]
    }

    /// Red, green, blue and alpha, in this order.
    pub fn channels(self) -> (channels: [u8; 4])
        ensures
            channels@ == self.spec_channels(),
    {
        let channels = [self.red, self.green, self.blue, self.alpha];
        assert(channels@ =~= self.spec_channels());
        channels
    }
}

impl vstd::std_specs::convert::FromSpecImpl<[u8; 4]> for PixelColor {
    open spec fn obeys_from_spec() -> bool {
        true
    }

    open spec fn from_spec(value: [u8; 4]) -> PixelColor {
        PixelColor { red: value[0], green: value[1], blue: value[2], alpha: value[3] }
    }
}

impl From<[u8; 4]> for PixelColor {
    /// The colour with the given red, green, blue and alpha.
    fn from(value: [u8; 4]) -> (color: PixelColor) {
        PixelColor { red: value[0], green: value[1], blue: value[2], alpha: value[3] }
    }
}

/// A pixel of the picture: where it is and what colour it has.
#[derive(Clone, Copy, Debug, PartialEq, Eq, Structural)]
pub struct Pixel {
    pub pos: UVec2,
    pub color: PixelColor,
}

impl Pixel {
    /// The pixel of the given colour in column `x` of row `y`.
    pub fn new(x: u32, y: u32, color: PixelColor) -> (pixel: Pixel)
        ensures
            pixel == (Pixel { pos: UVec2 { x, y }, color }),
    {
        Pixel { pos: UVec2 { x, y }, color }
    }

    pub open spec fn spec_world_pos(&self) -> Vec2 {
        world_pos_spec(self.pos)
    }

    /// The world position of the middle of the pixel.
    #[verifier::when_used_as_spec(spec_world_pos)]
    pub fn world_pos(&self) -> (p: Vec2)
        ensures
            p == self.spec_world_pos(),
    {
        world_pos(self.pos)
    }
}

/// Why a grid of colours is no picture.
#[derive(Clone, Copy, Debug, PartialEq, Eq, Structural)]
pub enum ArtError {
    /// The image is less than two pixels wide or high.
    TooSmall,
    /// Every pixel of the image has an alpha of zero.
    NoPixel,
}

impl ArtError {
    /// What is wrong, in words.
    pub fn message(self) -> (text: &'static str)
        ensures
            text@ == (match self {
                ArtError::TooSmall => "Image must be at least 2x2"@,
                ArtError::NoPixel => "Image must have at least one pixel"@,
            }),
    {
        match self {
            ArtError::TooSmall => "Image must be at least 2x2",
            ArtError::NoPixel => "Image must have at least one pixel",
        }
    }
}

/// The pixel that an image has where its colour is `value`: none where the
/// alpha is zero.
pub open spec fn spec_pixel_of(value: [u8; 4]) -> Option<PixelColor> {
    if value[3] > 0 {
        Some(PixelColor { red: value[0], green: value[1], blue: value[2], alpha: value[3] })
    } else {
        None
    }
}

/// A picture: at least two pixels wide and high, with at least one pixel
/// present.
#[derive(Debug)]
pub struct Art {
    pixels: Grid<Option<PixelColor>>,
}

impl Art {
    /// The colours of the picture, none where no pixel is present.
    pub closed spec fn grid(&self) -> Grid<Option<PixelColor>> {
        self.pixels
    }

    /// The picture is at least two pixels wide and high and has a pixel.
    #[verifier::type_invariant]
    pub open spec fn wf(&self) -> bool {
        &&& self.grid().wf()
        &&& self.grid().spec_width() >= 2
        &&& self.grid().spec_height() >= 2
        &&& exists|i: int| 0 <= i < self.grid()@.len() && (#[trigger] self.grid()@[i]) is Some
    }

    /// The picture of an image of the given size whose colours are `image`,
    /// row by row: the pixels with an alpha of zero are absent.
    pub fn from_rgba(width: u32, height: u32, image: Vec<[u8; 4]>) -> (art: Result<Art, ArtError>)
        requires
            image@.len() == width * height,
        ensures
            match art {
                Ok(art) => {
                    &&& art.wf()
                    &&& art.grid().spec_width() == width
                    &&& art.grid().spec_height() == height
                    &&& art.grid()@.len() == image@.len()
                    &&& forall|i: int|
                        0 <= i < image@.len() ==> #[trigger] art.grid()@[i] == spec_pixel_of(image@[i])
                },
                Err(ArtError::TooSmall) => width < 2 || height < 2,
                Err(ArtError::NoPixel) => {
                    &&& width >= 2
                    &&& height >= 2
                    &&& forall|i: int| 0 <= i < image@.len() ==> (#[trigger] image@[i])[3] == 0
                },
            },
    {
        if width < 2 || height < 2 {
            return Err(ArtError::TooSmall);
        }
        let mut data: Vec<Option<PixelColor>> = Vec::with_capacity(image.len());
        let mut any = false;
        let mut i: usize = 0;
        while i < image.len()
            invariant
                i <= image@.len(),
                data@.len() == i,
                forall|k: int| 0 <= k < i ==> #[trigger] data@[k] == spec_pixel_of(image@[k]),
                any <==> exists|k: int| 0 <= k < i && (#[trigger] data@[k]) is Some,
            decreases image@.len() - i,
        {
            let value = image[i];
            let pixel = if value[3] > 0 {
                Some(PixelColor::from(value))
            } else {
                None
            };
            let ghost before = data@;
            data.push(pixel);
            proof {
                assert forall|k: int| 0 <= k < i implies #[trigger] data@[k] == before[k] by {}
                if pixel is Some {
                    assert(data@[i as int] is Some);
                } else if any {
                    let k = choose|k: int| 0 <= k < i && (#[trigger] before[k]) is Some;
                    assert(data@[k] is Some);
                } else {
                    assert forall|k: int| 0 <= k < i + 1 implies !((#[trigger] data@[k]) is Some) by {
                        if k < i {
                            assert(before[k] == data@[k]);
                        }
                    }
                }
            }
            any = any || pixel.is_some();
            i += 1;
        }
        if any {
            proof {
                let w = width as int;
                let n = data@.len() as int;
                assert(n % w == 0 && n / w == height) by (nonlinear_arith)
                    requires
                        n == w * height,
                        w > 0,
                        0 <= height,
                ;
            }
            Ok(Art { pixels: Grid::from_vec(data, width as usize) })
        } else {
            proof {
                assert forall|k: int| 0 <= k < image@.len() implies (#[trigger] image@[k])[3] == 0 by {
                    assert(!(data@[k] is Some));
                }
            }
            Err(ArtError::NoPixel)
        }
    }

    pub open spec fn spec_width(&self) -> u32 {
        self.grid().spec_width()
    }

    pub open spec fn spec_height(&self) -> u32 {
        self.grid().spec_height()
    }

    pub open spec fn spec_size(&self) -> UVec2 {
        self.grid().spec_size()
    }

    /// The colour at `pos`, if a pixel is present there.
    pub open spec fn spec_index(&self, pos: UVec2) -> Option<PixelColor> {
        self.grid().spec_index(pos)
    }

    pub open spec fn spec_pixel(&self, pos: UVec2) -> Option<Pixel> {
        match self.spec_index(pos) {
            Some(color) => Some(Pixel { pos, color }),
            None => None,
        }
    }

    #[verifier::when_used_as_spec(spec_width)]
    pub fn width(&self) -> (w: u32)
        ensures
            w == self.spec_width(),
            w >= 2,
    {
        proof {
            use_type_invariant(self);
        }
        self.pixels.width()
    }

    #[verifier::when_used_as_spec(spec_height)]
    pub fn height(&self) -> (h: u32)
        ensures
            h == self.spec_height(),
            h >= 2,
    {
        proof {
            use_type_invariant(self);
        }
        self.pixels.height()
    }

    #[verifier::when_used_as_spec(spec_size)]
    pub fn size(&self) -> (s: UVec2)
        ensures
            s == self.spec_size(),
    {
        self.pixels.size()
    }

    /// The rows of the picture from top to bottom.
    pub fn rows(&self) -> (rows: Vec<&[Option<PixelColor>]>)
        ensures
            rows@.len() == self.spec_height(),
            forall|y: int|
                0 <= y < self.spec_height() ==> (#[trigger] rows@[y])@ == self.grid()@.subrange(
                    y * self.spec_width(),
                    (y + 1) * self.spec_width(),
                ),
    {
        self.pixels.rows()
    }

    /// The colour at `pos`, if a pixel is present there.
    pub fn get(&self, pos: UVec2) -> (color: &Option<PixelColor>)
        requires
            self.grid().contains(pos),
        ensures
            *color == self.spec_index(pos),
    {
        self.pixels.get(pos)
    }

    /// The pixel at `pos`, if one is present there.
    #[verifier::when_used_as_spec(spec_pixel)]
    pub fn pixel(&self, pos: UVec2) -> (pixel: Option<Pixel>)
        requires
            self.grid().contains(pos),
        ensures
            pixel == self.spec_pixel(pos),
    {
        match *self.pixels.get(pos) {
            Some(color) => Some(Pixel { pos, color }),
            None => None,
        }
    }
}

} // verus!
