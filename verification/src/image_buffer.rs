//! A row-major two-dimensional buffer of pixels.

use vstd::prelude::*;

verus! {

/// What an image buffer holds: its width and height and its pixels, row
/// after row.
pub struct ImageView<PixelData> {
    pub width: nat,
    pub height: nat,
    pub pixels: Seq<PixelData>,
}

impl<PixelData> ImageView<PixelData> {
    /// The buffer holds exactly one pixel per position.
    pub open spec fn wf(&self) -> bool {
        self.pixels.len() == self.width * self.height
    }

    pub open spec fn in_bounds(&self, x: int, y: int) -> bool {
        0 <= x < self.width && 0 <= y < self.height
    }

    /// Where pixel `(x, y)` is stored.
    pub open spec fn offset(&self, x: int, y: int) -> int {
        y * self.width + x
    }

    /// The pixel at column `x` of row `y`.
    pub open spec fn pixel(&self, x: int, y: int) -> PixelData {
        self.pixels[self.offset(x, y)]
    }
}

/// A `width` by `height` image, stored row after row in `buffer`.
#[derive(Debug, Clone)]
pub struct ImageBuffer<PixelData> {
    width: usize,
    height: usize,
    pub buffer: Vec<PixelData>,
}

impl<PixelData> View for ImageBuffer<PixelData> {
    type V = ImageView<PixelData>;

    closed spec fn view(&self) -> ImageView<PixelData> {
        ImageView { width: self.width as nat, height: self.height as nat, pixels: self.buffer@ }
    }
}

impl<PixelData> ImageBuffer<PixelData> {
    /// The width, the height and the number of pixels of an image all fit
    /// in `usize`.
    pub proof fn lemma_view_fits(&self)
        ensures
            self@.width <= usize::MAX,
            self@.height <= usize::MAX,
            self@.pixels.len() <= usize::MAX,
    {
        assert(self.buffer.len() == self.buffer@.len());
    }
}

impl<PixelData> Default for ImageBuffer<PixelData> {
    /// An image with no pixels.
    fn default() -> (img: Self)
        ensures
            img@.width == 0,
            img@.height == 0,
            img@.pixels == Seq::<PixelData>::empty(),
    {
        ImageBuffer { width: 0, height: 0, buffer: Vec::new() }
    }
}

/// Row-major offsets of distinct in-bounds positions are distinct and in range.
pub proof fn lemma_offset_in_range(width: int, height: int, x: int, y: int)
    requires
        0 <= x < width,
        0 <= y < height,
    ensures
        0 <= y * width + x < width * height,
{
    assert(y * width + x < width * height) by (nonlinear_arith)
        requires
            0 <= x < width,
            0 <= y < height,
    ;
    assert(0 <= y * width) by (nonlinear_arith)
        requires
            0 <= y,
            0 <= width,
    ;
}

pub proof fn lemma_offset_injective(width: int, x1: int, y1: int, x2: int, y2: int)
    requires
        0 <= x1 < width,
        0 <= x2 < width,
        0 <= y1,
        0 <= y2,
        y1 * width + x1 == y2 * width + x2,
    ensures
        x1 == x2 && y1 == y2,
{
    if y1 < y2 {
        assert(y1 * width + width <= y2 * width) by (nonlinear_arith)
            requires
                y1 < y2,
                0 <= width,
        ;
    } else if y2 < y1 {
        assert(y2 * width + width <= y1 * width) by (nonlinear_arith)
            requires
                y2 < y1,
                0 <= width,
        ;
    }
}

/// Reading a pixel after writing one: the written position holds the new
/// value and every other position keeps its old value.
pub proof fn lemma_get_after_set<PixelData>(
    img: ImageView<PixelData>,
    x: int,
    y: int,
    value: PixelData,
    x2: int,
    y2: int,
)
    requires
        img.wf(),
        img.in_bounds(x, y),
        img.in_bounds(x2, y2),
    ensures
        ({
            let written = ImageView {
                width: img.width,
                height: img.height,
                pixels: img.pixels.update(img.offset(x, y), value),
            };
            &&& written.wf()
            &&& written.pixel(x2, y2) == if x2 == x && y2 == y {
                value
            } else {
                img.pixel(x2, y2)
            }
        }),
{
    lemma_offset_in_range(img.width as int, img.height as int, x, y);
    lemma_offset_in_range(img.width as int, img.height as int, x2, y2);
    if img.offset(x, y) == img.offset(x2, y2) {
        lemma_offset_injective(img.width as int, x, y, x2, y2);
    }
}

/// The position that `iter_pixels` reports for storage offset `i` lies in
/// the image and is stored at offset `i`: every position is reported once.
pub proof fn lemma_iter_position(width: nat, height: nat, i: int)
    requires
        0 <= i < width * height,
    ensures
        0 <= i % (width as int) < width,
        0 <= i / (width as int) < height,
        (i / (width as int)) * width + i % (width as int) == i,
{
    let width = width as int;
    assert(width > 0) by (nonlinear_arith)
        requires
            0 <= i < width * height,
            width >= 0,
            height >= 0,
    ;
    vstd::arithmetic::div_mod::lemma_fundamental_div_mod(i, width);
    vstd::arithmetic::div_mod::lemma_mod_bound(i, width);
    vstd::arithmetic::div_mod::lemma_div_pos_is_pos(i, width);
    assert((i / width) * width == width * (i / width)) by (nonlinear_arith);
    assert(i / width < height) by (nonlinear_arith)
        requires
            i == width * (i / width) + i % width,
            0 <= i % width,
            i < width * height,
            width > 0,
    ;
}

impl<PixelData: Copy + Default> ImageBuffer<PixelData> {
    /// A `width` by `height` image with every pixel set to one default value.
    pub fn new(width: usize, height: usize) -> (img: Self)
        requires
            width * height <= usize::MAX,
        ensures
            img@.width == width,
            img@.height == height,
            img@.wf(),
            forall|i: int|
                0 <= i < img@.pixels.len() ==> call_ensures(
                    PixelData::default,
                    (),
                    #[trigger] img@.pixels[i],
                ),
            forall|i: int| 0 <= i < img@.pixels.len() ==> #[trigger] img@.pixels[i] == img@.pixels[0],
    {
        let value = PixelData::default();
        let n = width * height;
        let mut buffer: Vec<PixelData> = Vec::new();
        let mut i: usize = 0;
        while i < n
            invariant
                i <= n,
                buffer@.len() == i,
                forall|j: int| 0 <= j < i ==> #[trigger] buffer@[j] == value,
            decreases n - i,
        {
            buffer.push(value);
            i += 1;
        }
        Self { width, height, buffer }
    }

    /// Width and height, each cast to `u32`.
    pub fn get_dimensions(&self) -> (dims: [u32; 2])
        ensures
            dims[0] == self@.width as u32,
            dims[1] == self@.height as u32,
    {
        [self.width as u32, self.height as u32]
    }

    /// The pixel at `(x, y)`, or `None` outside the image.
    pub fn get_pixel(&self, x: usize, y: usize) -> (p: Option<PixelData>)
        requires
            self@.width * self@.height <= self@.pixels.len(),
        ensures
            self@.in_bounds(x as int, y as int) ==> p == Some(self@.pixel(x as int, y as int)),
            !self@.in_bounds(x as int, y as int) ==> p is None,
    {
        if x < self.width && y < self.height {
            proof {
                assert(self.buffer.len() == self.buffer@.len());
                lemma_offset_in_range(self.width as int, self.height as int, x as int, y as int);
            }
            Some(self.buffer[y * self.width + x])
        } else {
            None
        }
    }

    /// Sets the pixel at `(x, y)`; does nothing outside the image.
    pub fn set_pixel(&mut self, x: usize, y: usize, value: PixelData)
        requires
            old(self)@.width * old(self)@.height <= old(self)@.pixels.len(),
        ensures
            final(self)@.width == old(self)@.width,
            final(self)@.height == old(self)@.height,
            old(self)@.in_bounds(x as int, y as int) ==> final(self)@.pixels == old(
                self,
            )@.pixels.update(old(self)@.offset(x as int, y as int), value),
            !old(self)@.in_bounds(x as int, y as int) ==> final(self)@.pixels == old(self)@.pixels,
    {
        if x < self.width && y < self.height {
            proof {
                assert(self.buffer.len() == self.buffer@.len());
                lemma_offset_in_range(self.width as int, self.height as int, x as int, y as int);
            }
            self.buffer.set(y * self.width + x, value);
        }
    }

    /// Replaces every pixel `p` by `f(p)`.
    pub fn map<F>(&mut self, f: F)
        where
            F: Fn(PixelData) -> PixelData,
        requires
            forall|p: PixelData| call_requires(f, (p,)),
        ensures
            final(self)@.width == old(self)@.width,
            final(self)@.height == old(self)@.height,
            final(self)@.pixels.len() == old(self)@.pixels.len(),
            forall|i: int|
                0 <= i < old(self)@.pixels.len() ==> call_ensures(
                    f,
                    (old(self)@.pixels[i],),
                    #[trigger] final(self)@.pixels[i],
                ),
    {
        let ghost start = self.buffer@;
        let mut i: usize = 0;
        while i < self.buffer.len()
            invariant
                i <= self.buffer@.len(),
                self.buffer@.len() == start.len(),
                self.width == old(self).width,
                self.height == old(self).height,
                start == old(self).buffer@,
                forall|p: PixelData| call_requires(f, (p,)),
                forall|j: int| i <= j < start.len() ==> #[trigger] self.buffer@[j] == start[j],
                forall|j: int|
                    0 <= j < i ==> call_ensures(f, (start[j],), #[trigger] self.buffer@[j]),
            decreases start.len() - i,
        {
            let p = self.buffer[i];
            let q = f(p);
            self.buffer.set(i, q);
            i += 1;
        }
    }

    /// Every pixel with its position, in storage order: the pixel at offset
    /// `i` is reported at column `i % width` of row `i / width`.
    pub fn iter_pixels(&self) -> (pixels: Vec<(usize, usize, PixelData)>)
        requires
            self@.width > 0 || self@.pixels.len() == 0,
        ensures
            pixels@.len() == self@.pixels.len(),
            forall|i: int|
                0 <= i < pixels@.len() ==> {
                    &&& #[trigger] pixels@[i].0 == i % (self@.width as int)
                    &&& pixels@[i].1 == i / (self@.width as int)
                    &&& pixels@[i].2 == self@.pixels[i]
                },
    {
        let mut out: Vec<(usize, usize, PixelData)> = Vec::new();
        let mut i: usize = 0;
        while i < self.buffer.len()
            invariant
                i <= self.buffer@.len(),
                self@.width > 0 || self@.pixels.len() == 0,
                out@.len() == i,
                forall|j: int|
                    0 <= j < i ==> {
                        &&& #[trigger] out@[j].0 == j % (self@.width as int)
                        &&& out@[j].1 == j / (self@.width as int)
                        &&& out@[j].2 == self@.pixels[j]
                    },
            decreases self.buffer@.len() - i,
        {
            out.push((i % self.width, i / self.width, self.buffer[i]));
            i += 1;
        }
        out
    }
}

impl<PixelData> core::ops::Index<(usize, usize)> for ImageBuffer<PixelData> {
    type Output = PixelData;

    /// The pixel stored at offset `y * width + x`.
    fn index(&self, xy: (usize, usize)) -> (p: &PixelData)
        ensures
            *p == self@.pixels[self@.offset(xy.0 as int, xy.1 as int)],
    {
        let (x, y) = xy;
        proof {
            assert(self.buffer.len() == self.buffer@.len());
        }
        &self.buffer[y * self.width + x]
    }
}

impl<PixelData> core::ops::IndexMut<(usize, usize)> for ImageBuffer<PixelData> {
    /// The pixel stored at offset `y * width + x`, to be written in place.
    fn index_mut(&mut self, xy: (usize, usize)) -> (p: &mut PixelData)
        requires
            0 <= old(self)@.offset(xy.0 as int, xy.1 as int) < old(self)@.pixels.len(),
        ensures
            *p == old(self)@.pixels[old(self)@.offset(xy.0 as int, xy.1 as int)],
            final(self)@.width == old(self)@.width,
            final(self)@.height == old(self)@.height,
            final(self)@.pixels == old(self)@.pixels.update(
                old(self)@.offset(xy.0 as int, xy.1 as int),
                *final(p),
            ),
    {
        let (x, y) = xy;
        proof {
            assert(self.buffer.len() == self.buffer@.len());
        }
        &mut self.buffer[y * self.width + x]
    }
}

impl<PixelData> vstd::std_specs::core::IndexSpecImpl<(usize, usize)> for ImageBuffer<PixelData> {
    open spec fn index_req(&self, xy: &(usize, usize)) -> bool {
        0 <= self@.offset(xy.0 as int, xy.1 as int) < self@.pixels.len()
    }
}

} // verus!
