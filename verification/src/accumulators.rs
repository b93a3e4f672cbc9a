//! Per-pixel sums of radiance samples: a whole-image accumulator and the
//! tile-sized accumulators that render jobs fill and hand back.
//!
//! Pixel values are summed by a caller-supplied function `combine`.

use vstd::prelude::*;

use crate::image_buffer::{lemma_offset_in_range, lemma_offset_injective};
use crate::renderer::{job_at, job_index, lemma_tile_jobs_partition, tiles_across};

verus! {

/// The samples gathered for one `width` by `height` tile whose top-left
/// pixel sits at `(offset_x, offset_y)` of the image; both buffers are row
/// after row.
pub struct TileAccumulator<P> {
    pub offset_x: u32,
    pub offset_y: u32,
    pub width: u32,
    pub height: u32,
    pub framebuffer: Vec<P>,
    pub sample_counts: Vec<u32>,
}

impl<P> TileAccumulator<P> {
    pub open spec fn wf(&self) -> bool {
        &&& self.width * self.height <= u32::MAX
        &&& self.framebuffer@.len() == self.width * self.height
        &&& self.sample_counts@.len() == self.width * self.height
    }

    /// Where local pixel `(x, y)` is stored.
    pub open spec fn local_offset(&self, x: int, y: int) -> int {
        y * self.width + x
    }

    /// Whether image pixel `(x, y)` lies in this tile.
    pub open spec fn covers(&self, x: int, y: int) -> bool {
        &&& self.offset_x <= x < self.offset_x + self.width
        &&& self.offset_y <= y < self.offset_y + self.height
    }

    /// Whether image pixel `(x, y)` lies in this tile and comes, in row-major
    /// order, before local pixel `(tx, ty)`.
    pub open spec fn covers_before(&self, x: int, y: int, tx: int, ty: int) -> bool {
        &&& self.covers(x, y)
        &&& (y - self.offset_y < ty || (y - self.offset_y == ty && x - self.offset_x < tx))
    }

    /// The offset in this tile of image pixel `(x, y)`.
    pub open spec fn offset_of(&self, x: int, y: int) -> int {
        self.local_offset(x - self.offset_x, y - self.offset_y)
    }
}

impl<P: Copy + Default> TileAccumulator<P> {
    /// An empty tile: every pixel the default value, every count zero.
    pub fn new(offset_x: u32, offset_y: u32, width: u32, height: u32) -> (tile: Self)
        requires
            width * height <= u32::MAX,
        ensures
            tile.wf(),
            tile.offset_x == offset_x,
            tile.offset_y == offset_y,
            tile.width == width,
            tile.height == height,
            forall|i: int| 0 <= i < tile.sample_counts@.len() ==> #[trigger] tile.sample_counts@[i] == 0,
            forall|i: int|
                0 <= i < tile.framebuffer@.len() ==> call_ensures(
                    P::default,
                    (),
                    #[trigger] tile.framebuffer@[i],
                ),
            forall|i: int|
                0 <= i < tile.framebuffer@.len() ==> #[trigger] tile.framebuffer@[i]
                    == tile.framebuffer@[0],
    {
        let n = (width * height) as usize;
        let zero = P::default();
        let mut framebuffer: Vec<P> = Vec::new();
        let mut sample_counts: Vec<u32> = Vec::new();
        let mut i: usize = 0;
        while i < n
            invariant
                i <= n,
                framebuffer@.len() == i,
                sample_counts@.len() == i,
                forall|j: int| 0 <= j < i ==> #[trigger] framebuffer@[j] == zero,
                forall|j: int| 0 <= j < i ==> #[trigger] sample_counts@[j] == 0,
            decreases n - i,
        {
            framebuffer.push(zero);
            sample_counts.push(0);
            i += 1;
        }
        Self { offset_x, offset_y, width, height, framebuffer, sample_counts }
    }

    /// Adds one sample `color` to local pixel `(local_x, local_y)`.
    pub fn accumulate<F>(&mut self, local_x: u32, local_y: u32, color: P, combine: F)
        where
            F: Fn(P, P) -> P,
        requires
            old(self).wf(),
            local_y * old(self).width + local_x < old(self).width * old(self).height,
            old(self).sample_counts@[old(self).local_offset(local_x as int, local_y as int)]
                < u32::MAX,
            forall|a: P, b: P| call_requires(combine, (a, b)),
        ensures
            ({
                let i = old(self).local_offset(local_x as int, local_y as int);
                &&& final(self).wf()
                &&& final(self).offset_x == old(self).offset_x
                &&& final(self).offset_y == old(self).offset_y
                &&& final(self).width == old(self).width
                &&& final(self).height == old(self).height
                &&& final(self).sample_counts@ == old(self).sample_counts@.update(
                    i,
                    (old(self).sample_counts@[i] + 1) as u32,
                )
                &&& final(self).framebuffer@.len() == old(self).framebuffer@.len()
                &&& forall|j: int|
                    0 <= j < old(self).framebuffer@.len() && j != i
                        ==> #[trigger] final(self).framebuffer@[j] == old(self).framebuffer@[j]
                &&& call_ensures(combine, (old(self).framebuffer@[i], color), final(self).framebuffer@[i])
            }),
    {
        let index = (local_y * self.width + local_x) as usize;
        let sum = combine(self.framebuffer[index], color);
        self.framebuffer.set(index, sum);
        let c = self.sample_counts[index];
        self.sample_counts.set(index, c + 1);
    }
}

impl<P: Copy + Default> TileAccumulator<P> {
    /// Accumulates one sample into every pixel of the tile, row after row,
    /// the sample of local pixel `(x, y)` being `colors[y * width + x]`.
    pub fn accumulate_all<F>(&mut self, colors: &Vec<P>, combine: F)
        where
            F: Fn(P, P) -> P,
        requires
            old(self).wf(),
            colors@.len() == old(self).width * old(self).height,
            forall|i: int| 0 <= i < old(self).sample_counts@.len() ==> #[trigger] old(self).sample_counts@[i] < u32::MAX,
            forall|a: P, b: P| call_requires(combine, (a, b)),
        ensures
            final(self).wf(),
            final(self).offset_x == old(self).offset_x,
            final(self).offset_y == old(self).offset_y,
            final(self).width == old(self).width,
            final(self).height == old(self).height,
            forall|i: int|
                0 <= i < old(self).sample_counts@.len() ==> #[trigger] final(self).sample_counts@[i]
                    == old(self).sample_counts@[i] + 1,
            forall|i: int|
                0 <= i < old(self).framebuffer@.len() ==> call_ensures(
                    combine,
                    (old(self).framebuffer@[i], colors@[i]),
                    #[trigger] final(self).framebuffer@[i],
                ),
    {
        let ghost start = *self;
        let width = self.width;
        let height = self.height;
        let mut dy: u32 = 0;
        while dy < height
            invariant
                self.wf(),
                start.wf(),
                self.offset_x == start.offset_x,
                self.offset_y == start.offset_y,
                self.width == width,
                self.height == height,
                start.width == width,
                start.height == height,
                colors@.len() == width * height,
                forall|i: int| 0 <= i < start.sample_counts@.len() ==> #[trigger] start.sample_counts@[i] < u32::MAX,
                forall|a: P, b: P| call_requires(combine, (a, b)),
                dy <= height,
                forall|i: int| 0 <= i < dy * width ==> #[trigger] self.sample_counts@[i] == start.sample_counts@[i] + 1,
                forall|i: int|
                    0 <= i < dy * width ==> call_ensures(
                        combine,
                        (start.framebuffer@[i], colors@[i]),
                        #[trigger] self.framebuffer@[i],
                    ),
                forall|i: int| dy * width <= i < width * height ==> #[trigger] self.sample_counts@[i] == start.sample_counts@[i],
                forall|i: int| dy * width <= i < width * height ==> #[trigger] self.framebuffer@[i] == start.framebuffer@[i],
            decreases height - dy,
        {
            let mut dx: u32 = 0;
            while dx < width
                invariant
                    self.wf(),
                    start.wf(),
                    self.offset_x == start.offset_x,
                    self.offset_y == start.offset_y,
                    self.width == width,
                    self.height == height,
                    start.width == width,
                    start.height == height,
                    colors@.len() == width * height,
                    forall|i: int| 0 <= i < start.sample_counts@.len() ==> #[trigger] start.sample_counts@[i] < u32::MAX,
                    forall|a: P, b: P| call_requires(combine, (a, b)),
                    dy < height,
                    dx <= width,
                    forall|i: int| 0 <= i < dy * width + dx ==> #[trigger] self.sample_counts@[i] == start.sample_counts@[i] + 1,
                    forall|i: int|
                        0 <= i < dy * width + dx ==> call_ensures(
                            combine,
                            (start.framebuffer@[i], colors@[i]),
                            #[trigger] self.framebuffer@[i],
                        ),
                    forall|i: int| dy * width + dx <= i < width * height ==> #[trigger] self.sample_counts@[i] == start.sample_counts@[i],
                    forall|i: int| dy * width + dx <= i < width * height ==> #[trigger] self.framebuffer@[i] == start.framebuffer@[i],
                decreases width - dx,
            {
                proof {
                    lemma_offset_in_range(width as int, height as int, dx as int, dy as int);
                }
                let index = (dy * width + dx) as usize;
                self.accumulate(dx, dy, colors[index], &combine);
                dx += 1;
            }
            proof {
                assert((dy + 1) * width == dy * width + width) by (nonlinear_arith);
            }
            dy += 1;
        }
        proof {
            assert(height * width == width * height) by (nonlinear_arith);
        }
    }
}

/// What an accumulator holds: per pixel, row after row, the sum of its
/// samples and how many there were.
pub struct AccumulatorView<P> {
    pub width: nat,
    pub height: nat,
    pub pixels: Seq<P>,
    pub counts: Seq<u32>,
}

impl<P> AccumulatorView<P> {
    pub open spec fn wf(&self) -> bool {
        &&& self.width * self.height <= u32::MAX
        &&& self.pixels.len() == self.width * self.height
        &&& self.counts.len() == self.width * self.height
    }

    pub open spec fn in_bounds(&self, x: int, y: int) -> bool {
        0 <= x < self.width && 0 <= y < self.height
    }

    pub open spec fn offset(&self, x: int, y: int) -> int {
        y * self.width + x
    }

    pub open spec fn count_at(&self, x: int, y: int) -> u32 {
        self.counts[self.offset(x, y)]
    }

    pub open spec fn pixel_at(&self, x: int, y: int) -> P {
        self.pixels[self.offset(x, y)]
    }

    pub open spec fn same_size(&self, other: &Self) -> bool {
        &&& self.width == other.width
        &&& self.height == other.height
        &&& self.pixels.len() == other.pixels.len()
        &&& self.counts.len() == other.counts.len()
    }
}

/// `new` is `old` with the samples of the pixels of `tile` that satisfy
/// `merged` added in, pixel sums combined by `combine`, and every other pixel
/// unchanged.
pub open spec fn merged_where<P, F: Fn(P, P) -> P>(
    new: AccumulatorView<P>,
    old: AccumulatorView<P>,
    tile: TileAccumulator<P>,
    combine: F,
    merged: spec_fn(int, int) -> bool,
) -> bool {
    &&& new.same_size(&old)
    &&& forall|x: int, y: int|
        #![trigger new.count_at(x, y)]
        #![trigger new.pixel_at(x, y)]
        old.in_bounds(x, y) ==> if merged(x, y) {
            &&& new.count_at(x, y) == old.count_at(x, y) + tile.sample_counts@[tile.offset_of(x, y)]
            &&& call_ensures(
                combine,
                (old.pixel_at(x, y), tile.framebuffer@[tile.offset_of(x, y)]),
                new.pixel_at(x, y),
            )
        } else {
            &&& new.count_at(x, y) == old.count_at(x, y)
            &&& new.pixel_at(x, y) == old.pixel_at(x, y)
        }
}

/// The fields of an accumulator: image size, pixel sums and sample counts,
/// each buffer row after row.
#[derive(Debug)]
struct Sums<P> {
    width: u32,
    height: u32,
    image_buffer: Vec<P>,
    sample_counts: Vec<u32>,
}

impl<P> View for Sums<P> {
    type V = AccumulatorView<P>;

    closed spec fn view(&self) -> AccumulatorView<P> {
        AccumulatorView {
            width: self.width as nat,
            height: self.height as nat,
            pixels: self.image_buffer@,
            counts: self.sample_counts@,
        }
    }
}

/// The running sums of the samples of a `width` by `height` image.
#[derive(Debug)]
pub struct Accumulator<P> {
    sums: Sums<P>,
}

impl<P> View for Accumulator<P> {
    type V = AccumulatorView<P>;

    closed spec fn view(&self) -> AccumulatorView<P> {
        self.sums@
    }
}

impl<P> Accumulator<P> {
    /// Both buffers hold one entry per pixel of an image whose pixel count
    /// fits in `u32`.
    #[verifier::type_invariant]
    spec fn inv(self) -> bool {
        self.sums@.wf()
    }

    /// A `0` by `0` accumulator, to stand in while the fields are updated.
    fn empty() -> (acc: Self)
        ensures
            acc@.width == 0,
            acc@.height == 0,
    {
        Accumulator { sums: Sums { width: 0, height: 0, image_buffer: Vec::new(), sample_counts: Vec::new() } }
    }
}

impl<P: Copy + Default> Accumulator<P> {
    /// Copies of the pixel sums, row after row.
    pub fn get_buffer(&self) -> (buf: Vec<P>)
        ensures
            buf@ == self@.pixels,
    {
        proof {
            use_type_invariant(self);
        }
        let mut buf: Vec<P> = Vec::new();
        let mut i: usize = 0;
        while i < self.sums.image_buffer.len()
            invariant
                i <= self@.pixels.len(),
                self.sums.image_buffer@ == self@.pixels,
                buf@ == self@.pixels.take(i as int),
            decreases self@.pixels.len() - i,
        {
            buf.push(self.sums.image_buffer[i]);
            i += 1;
            proof {
                assert(self@.pixels.take(i as int) == self@.pixels.take(i - 1).push(self@.pixels[i - 1]));
            }
        }
        proof {
            assert(self@.pixels.take(i as int) == self@.pixels);
        }
        buf
    }

    /// An accumulator with no samples: every count zero, every pixel the
    /// default value.
    pub fn new(width: u32, height: u32) -> (acc: Self)
        requires
            width * height <= u32::MAX,
        ensures
            acc@.wf(),
            acc@.width == width,
            acc@.height == height,
            forall|i: int| 0 <= i < acc@.counts.len() ==> #[trigger] acc@.counts[i] == 0,
            forall|i: int|
                0 <= i < acc@.pixels.len() ==> call_ensures(P::default, (), #[trigger] acc@.pixels[i]),
            forall|i: int| 0 <= i < acc@.pixels.len() ==> #[trigger] acc@.pixels[i] == acc@.pixels[0],
    {
        let size = (width * height) as usize;
        let zero = P::default();
        let mut framebuffer: Vec<P> = Vec::new();
        let mut sample_counts: Vec<u32> = Vec::new();
        let mut i: usize = 0;
        while i < size
            invariant
                i <= size,
                framebuffer@.len() == i,
                sample_counts@.len() == i,
                forall|j: int| 0 <= j < i ==> #[trigger] framebuffer@[j] == zero,
                forall|j: int| 0 <= j < i ==> #[trigger] sample_counts@[j] == 0,
            decreases size - i,
        {
            framebuffer.push(zero);
            sample_counts.push(0);
            i += 1;
        }
        Accumulator { sums: Sums { width, height, image_buffer: framebuffer, sample_counts } }
    }

    pub fn get_resolution(&self) -> (res: [u32; 2])
        ensures
            res[0] == self@.width,
            res[1] == self@.height,
    {
        proof {
            use_type_invariant(self);
        }
        [self.sums.width, self.sums.height]
    }

    /// Adds the samples of `tile` into the pixels that it covers, pixel sums
    /// combined by `combine`; the other pixels keep their samples.
    pub fn merge_tile<F>(&mut self, tile: TileAccumulator<P>, combine: F)
        where
            F: Fn(P, P) -> P,
        requires
            tile.wf(),
            tile.offset_x + tile.width <= old(self)@.width,
            tile.offset_y + tile.height <= old(self)@.height,
            forall|x: int, y: int|
                #![trigger old(self)@.count_at(x, y)]
                tile.covers(x, y) ==> old(self)@.count_at(x, y) + tile.sample_counts@[tile.offset_of(
                    x,
                    y,
                )] <= u32::MAX,
            forall|a: P, b: P| call_requires(combine, (a, b)),
        ensures
            final(self)@.wf(),
            merged_where(final(self)@, old(self)@, tile, combine, |x: int, y: int| tile.covers(x, y)),
    {
        proof {
            use_type_invariant(&*self);
        }
        let mut taken = Self::empty();
        core::mem::swap(self, &mut taken);
        let Accumulator { sums: mut sums } = taken;
        let ghost start = sums@;
        let mut ty: u32 = 0;
        while ty < tile.height
            invariant
                sums@.wf(),
                tile.wf(),
                start.wf(),
                tile.offset_x + tile.width <= start.width,
                tile.offset_y + tile.height <= start.height,
                ty <= tile.height,
                forall|x: int, y: int|
                    #![trigger start.count_at(x, y)]
                    tile.covers(x, y) ==> start.count_at(x, y) + tile.sample_counts@[tile.offset_of(
                        x,
                        y,
                    )] <= u32::MAX,
                forall|a: P, b: P| call_requires(combine, (a, b)),
                merged_where(sums@, start, tile, combine, |x: int, y: int| tile.covers_before(x, y, 0, ty as int)),
            decreases tile.height - ty,
        {
            let mut tx: u32 = 0;
            while tx < tile.width
                invariant
                    sums@.wf(),
                    tile.wf(),
                    start.wf(),
                    tile.offset_x + tile.width <= start.width,
                    tile.offset_y + tile.height <= start.height,
                    ty < tile.height,
                    tx <= tile.width,
                    forall|x: int, y: int|
                        #![trigger start.count_at(x, y)]
                        tile.covers(x, y) ==> start.count_at(x, y) + tile.sample_counts@[tile.offset_of(
                            x,
                            y,
                        )] <= u32::MAX,
                    forall|a: P, b: P| call_requires(combine, (a, b)),
                    merged_where(sums@, start, tile, combine, |x: int, y: int| tile.covers_before(x, y, tx as int, ty as int)),
                decreases tile.width - tx,
            {
                proof {
                    lemma_offset_in_range(tile.width as int, tile.height as int, tx as int, ty as int);
                    lemma_offset_in_range(sums.width as int, sums.height as int, (tile.offset_x + tx) as int, (tile.offset_y + ty) as int);
                }
                let tile_index = (ty * tile.width + tx) as usize;
                let global_x = tile.offset_x + tx;
                let global_y = tile.offset_y + ty;
                let global_index = (global_y * sums.width + global_x) as usize;
                let ghost before = sums@;
                let ghost gx = global_x as int;
                let ghost gy = global_y as int;
                assert(before.count_at(gx, gy) == start.count_at(gx, gy));
                let sum = combine(sums.image_buffer[global_index], tile.framebuffer[tile_index]);
                sums.image_buffer.set(global_index, sum);
                let c = sums.sample_counts[global_index];
                sums.sample_counts.set(global_index, c + tile.sample_counts[tile_index]);
                tx += 1;
                proof {
                    let now = sums@;
                    assert forall|x: int, y: int| start.in_bounds(x, y) implies
                        (if tile.covers_before(x, y, tx as int, ty as int) {
                            &&& now.count_at(x, y) == start.count_at(x, y) + tile.sample_counts@[tile.offset_of(x, y)]
                            &&& call_ensures(
                                combine,
                                (start.pixel_at(x, y), tile.framebuffer@[tile.offset_of(x, y)]),
                                now.pixel_at(x, y),
                            )
                        } else {
                            &&& now.count_at(x, y) == start.count_at(x, y)
                            &&& now.pixel_at(x, y) == start.pixel_at(x, y)
                        }) by {
                        lemma_offset_in_range(start.width as int, start.height as int, x, y);
                        if x == gx && y == gy {
                        } else {
                            if start.offset(x, y) == start.offset(gx, gy) {
                                lemma_offset_injective(start.width as int, x, y, gx, gy);
                            }
                            assert(now.count_at(x, y) == before.count_at(x, y));
                            assert(now.pixel_at(x, y) == before.pixel_at(x, y));
                        }
                    }
                }
            }
            ty += 1;
            proof {
                assert forall|x: int, y: int| #[trigger] tile.covers_before(x, y, 0, ty as int) == tile.covers_before(x, y, tile.width as int, (ty - 1) as int) by {}
            }
        }
        proof {
            assert forall|x: int, y: int| #[trigger] tile.covers_before(x, y, 0, tile.height as int) == tile.covers(x, y) by {}
        }
        *self = Accumulator { sums };
    }

    /// Merges the tiles of one render pass, `tiles[k]` being the tile
    /// rendered for job `k` of `tile_jobs(width, height, tile_size)`: every
    /// pixel gets the samples of the one tile that holds it. Where each tile
    /// holds one sample per pixel, the pass adds exactly one sample to every
    /// pixel of the image.
    pub fn merge_pass<F>(&mut self, tiles: Vec<TileAccumulator<P>>, tile_size: u32, combine: F)
        where
            F: Fn(P, P) -> P,
        requires
            tile_size > 0,
            tiles@.len() == tiles_across(old(self)@.width as int, tile_size as int) * tiles_across(
                old(self)@.height as int,
                tile_size as int,
            ),
            forall|k: int|
                0 <= k < tiles@.len() ==> {
                    let job = job_at(old(self)@.width as u32, old(self)@.height as u32, tile_size, k);
                    &&& (#[trigger] tiles@[k]).wf()
                    &&& tiles@[k].offset_x == job.tile_x
                    &&& tiles@[k].offset_y == job.tile_y
                    &&& tiles@[k].width == job.tile_width
                    &&& tiles@[k].height == job.tile_height
                },
            forall|k: int, x: int, y: int|
                #![trigger tiles@[k].covers(x, y)]
                0 <= k < tiles@.len() && tiles@[k].covers(x, y) ==> old(self)@.count_at(x, y)
                    + tiles@[k].sample_counts@[tiles@[k].offset_of(x, y)] <= u32::MAX,
            forall|a: P, b: P| call_requires(combine, (a, b)),
        ensures
            final(self)@.wf(),
            final(self)@.same_size(&old(self)@),
            forall|x: int, y: int|
                #![trigger final(self)@.count_at(x, y)]
                #![trigger final(self)@.pixel_at(x, y)]
                old(self)@.in_bounds(x, y) ==> {
                    let tile = tiles@[job_index(old(self)@.width as u32, tile_size, x, y)];
                    &&& final(self)@.count_at(x, y) == old(self)@.count_at(x, y)
                        + tile.sample_counts@[tile.offset_of(x, y)]
                    &&& call_ensures(
                        combine,
                        (old(self)@.pixel_at(x, y), tile.framebuffer@[tile.offset_of(x, y)]),
                        final(self)@.pixel_at(x, y),
                    )
                },
            (forall|k: int, i: int|
                0 <= k < tiles@.len() && 0 <= i < tiles@[k].sample_counts@.len()
                    ==> #[trigger] tiles@[k].sample_counts@[i] == 1) ==> forall|x: int, y: int|
                old(self)@.in_bounds(x, y) ==> #[trigger] final(self)@.count_at(x, y)
                    == old(self)@.count_at(x, y) + 1,
    {
        proof {
            use_type_invariant(&*self);
        }
        let ghost start = self@;
        let ghost all = tiles@;
        let ghost w = start.width as u32;
        let ghost h = start.height as u32;
        let mut tiles = tiles;
        proof {
            assert(all.take(all.len() as int) =~= all);
            assert forall|x: int, y: int|
                #![trigger self@.count_at(x, y)]
                #![trigger self@.pixel_at(x, y)]
                start.in_bounds(x, y) implies job_index(w, tile_size, x, y) < tiles@.len() by {
                lemma_tile_jobs_partition(w, h, tile_size, x, y);
            }
        }
        while tiles.len() > 0
            invariant
                start.wf(),
                w == start.width,
                h == start.height,
                tile_size > 0,
                all.len() == tiles_across(start.width as int, tile_size as int) * tiles_across(
                    start.height as int,
                    tile_size as int,
                ),
                tiles@.len() <= all.len(),
                tiles@ == all.take(tiles@.len() as int),
                forall|k: int|
                    0 <= k < all.len() ==> {
                        let job = job_at(w, h, tile_size, k);
                        &&& (#[trigger] all[k]).wf()
                        &&& all[k].offset_x == job.tile_x
                        &&& all[k].offset_y == job.tile_y
                        &&& all[k].width == job.tile_width
                        &&& all[k].height == job.tile_height
                    },
                forall|k: int, x: int, y: int|
                    #![trigger all[k].covers(x, y)]
                    0 <= k < all.len() && all[k].covers(x, y) ==> start.count_at(x, y)
                        + all[k].sample_counts@[all[k].offset_of(x, y)] <= u32::MAX,
                forall|a: P, b: P| call_requires(combine, (a, b)),
                self@.wf(),
                self@.same_size(&start),
                forall|x: int, y: int|
                    #![trigger self@.count_at(x, y)]
                    #![trigger self@.pixel_at(x, y)]
                    start.in_bounds(x, y) ==> if job_index(w, tile_size, x, y) >= tiles@.len() {
                        let tile = all[job_index(w, tile_size, x, y)];
                        &&& self@.count_at(x, y) == start.count_at(x, y) + tile.sample_counts@[tile.offset_of(x, y)]
                        &&& call_ensures(
                            combine,
                            (start.pixel_at(x, y), tile.framebuffer@[tile.offset_of(x, y)]),
                            self@.pixel_at(x, y),
                        )
                    } else {
                        &&& self@.count_at(x, y) == start.count_at(x, y)
                        &&& self@.pixel_at(x, y) == start.pixel_at(x, y)
                    },
            decreases tiles@.len(),
        {
            let ghost before = self@;
            let ghost k = tiles@.len() - 1;
            let ghost remaining = tiles@;
            let tile = tiles.pop().unwrap();
            proof {
                assert(remaining[k] == all[k]);
                assert(tile == all[k]);
                assert(tiles@ =~= all.take(k));
                assert(w > 0 && h > 0) by {
                    let ts = tile_size as int;
                    let nx = tiles_across(w as int, ts);
                    let ny = tiles_across(h as int, ts);
                    assert((ts - 1) / ts == 0) by (nonlinear_arith)
                        requires
                            ts > 0,
                    ;
                    if w == 0 {
                        assert(nx == 0);
                        assert(nx * ny == 0);
                    }
                    if h == 0 {
                        assert(ny == 0);
                        assert(nx * ny == 0);
                    }
                }
                lemma_tile_jobs_partition(w, h, tile_size, 0, 0);
                assert(job_at(w, h, tile_size, k).tile_x + job_at(w, h, tile_size, k).tile_width <= w);
                assert forall|x: int, y: int|
                    #![trigger before.count_at(x, y)]
                    tile.covers(x, y) implies before.count_at(x, y) + tile.sample_counts@[tile.offset_of(x, y)] <= u32::MAX by {
                    lemma_tile_jobs_partition(w, h, tile_size, x, y);
                    assert(job_at(w, h, tile_size, k).contains(x, y));
                    assert(all[k].covers(x, y));
                }
            }
            self.merge_tile(tile, &combine);
            proof {
                let now = self@;
                assert forall|x: int, y: int|
                    #![trigger now.count_at(x, y)]
                    #![trigger now.pixel_at(x, y)]
                    start.in_bounds(x, y) implies if job_index(w, tile_size, x, y) >= tiles@.len() {
                        let t = all[job_index(w, tile_size, x, y)];
                        &&& now.count_at(x, y) == start.count_at(x, y) + t.sample_counts@[t.offset_of(x, y)]
                        &&& call_ensures(
                            combine,
                            (start.pixel_at(x, y), t.framebuffer@[t.offset_of(x, y)]),
                            now.pixel_at(x, y),
                        )
                    } else {
                        &&& now.count_at(x, y) == start.count_at(x, y)
                        &&& now.pixel_at(x, y) == start.pixel_at(x, y)
                    } by {
                    lemma_tile_jobs_partition(w, h, tile_size, x, y);
                    let j = job_index(w, tile_size, x, y);
                    assert(before.count_at(x, y) == before.count_at(x, y));
                    assert(before.pixel_at(x, y) == before.pixel_at(x, y));
                    if tile.covers(x, y) {
                        assert(job_at(w, h, tile_size, k).contains(x, y));
                        assert(j == k);
                    } else {
                        assert(all[j].covers(x, y));
                        assert(j != k);
                    }
                }
            }
        }
        proof {
            assert forall|x: int, y: int|
                #![trigger self@.count_at(x, y)]
                start.in_bounds(x, y) implies {
                    let t = all[job_index(w, tile_size, x, y)];
                    &&& 0 <= job_index(w, tile_size, x, y) < all.len()
                    &&& 0 <= t.offset_of(x, y) < t.sample_counts@.len()
                } by {
                lemma_tile_jobs_partition(w, h, tile_size, x, y);
                let j = job_index(w, tile_size, x, y);
                assert(all[j].covers(x, y));
                lemma_offset_in_range(all[j].width as int, all[j].height as int, x - all[j].offset_x, y - all[j].offset_y);
            }
        }
    }

    /// Adds one sample `color` to pixel `(x, y)`.
    pub fn _accumulate<F>(&mut self, x: u32, y: u32, color: P, combine: F)
        where
            F: Fn(P, P) -> P,
        requires
            old(self)@.in_bounds(x as int, y as int),
            old(self)@.count_at(x as int, y as int) < u32::MAX,
            forall|a: P, b: P| call_requires(combine, (a, b)),
        ensures
            final(self)@.wf(),
            final(self)@.same_size(&old(self)@),
            final(self)@.count_at(x as int, y as int) == old(self)@.count_at(x as int, y as int) + 1,
            call_ensures(
                combine,
                (old(self)@.pixel_at(x as int, y as int), color),
                final(self)@.pixel_at(x as int, y as int),
            ),
            forall|px: int, py: int|
                #![trigger final(self)@.count_at(px, py)]
                #![trigger final(self)@.pixel_at(px, py)]
                old(self)@.in_bounds(px, py) && !(px == x && py == y) ==> {
                    &&& final(self)@.count_at(px, py) == old(self)@.count_at(px, py)
                    &&& final(self)@.pixel_at(px, py) == old(self)@.pixel_at(px, py)
                },
    {
        proof {
            use_type_invariant(&*self);
        }
        let mut taken = Self::empty();
        core::mem::swap(self, &mut taken);
        let Accumulator { sums: mut sums } = taken;
        proof {
            lemma_offset_in_range(sums.width as int, sums.height as int, x as int, y as int);
        }
        let index = (y * sums.width + x) as usize;
        let ghost before = sums@;
        let sum = combine(sums.image_buffer[index], color);
        sums.image_buffer.set(index, sum);
        let c = sums.sample_counts[index];
        sums.sample_counts.set(index, c + 1);
        proof {
            let now = sums@;
            assert forall|px: int, py: int|
                #![trigger now.count_at(px, py)]
                #![trigger now.pixel_at(px, py)]
                before.in_bounds(px, py) && !(px == x && py == y) implies {
                    &&& now.count_at(px, py) == before.count_at(px, py)
                    &&& now.pixel_at(px, py) == before.pixel_at(px, py)
                } by {
                lemma_offset_in_range(before.width as int, before.height as int, px, py);
                if before.offset(px, py) == before.offset(x as int, y as int) {
                    lemma_offset_injective(before.width as int, px, py, x as int, y as int);
                }
            }
        }
        *self = Accumulator { sums };
    }

    /// Adds every sample of `b`, an accumulator of the same size, into `self`.
    pub fn _merge<F>(&mut self, b: Self, combine: F)
        where
            F: Fn(P, P) -> P,
        requires
            old(self)@.width == b@.width,
            old(self)@.height == b@.height,
            forall|i: int|
                0 <= i < b@.counts.len() ==> old(self)@.counts[i] + #[trigger] b@.counts[i]
                    <= u32::MAX,
            forall|a: P, c: P| call_requires(combine, (a, c)),
        ensures
            final(self)@.wf(),
            final(self)@.same_size(&old(self)@),
            forall|i: int|
                0 <= i < old(self)@.counts.len() ==> #[trigger] final(self)@.counts[i]
                    == old(self)@.counts[i] + b@.counts[i],
            forall|i: int|
                0 <= i < old(self)@.pixels.len() ==> call_ensures(
                    combine,
                    (old(self)@.pixels[i], b@.pixels[i]),
                    #[trigger] final(self)@.pixels[i],
                ),
    {
        proof {
            use_type_invariant(&*self);
            use_type_invariant(&b);
        }
        let mut taken = Self::empty();
        core::mem::swap(self, &mut taken);
        let Accumulator { sums: mut sums } = taken;
        let ghost start = sums@;
        let mut i: usize = 0;
        while i < sums.image_buffer.len()
            invariant
                sums@.wf(),
                sums@.same_size(&start),
                b@.pixels.len() == start.pixels.len(),
                b@.counts.len() == start.counts.len(),
                start.counts.len() == start.pixels.len(),
                i <= start.pixels.len(),
                forall|j: int|
                    0 <= j < b@.counts.len() ==> start.counts[j] + #[trigger] b@.counts[j]
                        <= u32::MAX,
                forall|a: P, c: P| call_requires(combine, (a, c)),
                forall|j: int| i <= j < start.pixels.len() ==> #[trigger] sums@.pixels[j] == start.pixels[j],
                forall|j: int| i <= j < start.counts.len() ==> #[trigger] sums@.counts[j] == start.counts[j],
                forall|j: int|
                    0 <= j < i ==> #[trigger] sums@.counts[j] == start.counts[j] + b@.counts[j],
                forall|j: int|
                    0 <= j < i ==> call_ensures(
                        combine,
                        (start.pixels[j], b@.pixels[j]),
                        #[trigger] sums@.pixels[j],
                    ),
            decreases start.pixels.len() - i,
        {
            let sum = combine(sums.image_buffer[i], b.sums.image_buffer[i]);
            sums.image_buffer.set(i, sum);
            let c = sums.sample_counts[i];
            sums.sample_counts.set(i, c + b.sums.sample_counts[i]);
            i += 1;
        }
        *self = Accumulator { sums };
    }

    /// Writes into `buffer` one packed colour per pixel, `to_argb` applied to
    /// the pixel's sum and sample count; `buffer` is first replaced by one of
    /// the right length, all `0xFF000000`, when its length differs.
    pub fn write_to_image_buffer<F>(&self, buffer: &mut Vec<u32>, to_argb: F)
        where
            F: Fn(P, u32) -> u32,
        requires
            forall|p: P, n: u32| call_requires(to_argb, (p, n)),
        ensures
            final(buffer)@.len() == self@.pixels.len(),
            forall|i: int|
                0 <= i < self@.pixels.len() ==> call_ensures(
                    to_argb,
                    (self@.pixels[i], self@.counts[i]),
                    #[trigger] final(buffer)@[i],
                ),
    {
        proof {
            use_type_invariant(self);
        }
        let n = self.sums.image_buffer.len();
        if buffer.len() != n {
            let mut fresh: Vec<u32> = Vec::new();
            let mut k: usize = 0;
            while k < n
                invariant
                    k <= n,
                    fresh@.len() == k,
                    forall|j: int| 0 <= j < k ==> #[trigger] fresh@[j] == 0xFF000000u32,
                decreases n - k,
            {
                fresh.push(0xFF000000u32);
                k += 1;
            }
            *buffer = fresh;
        }
        let mut i: usize = 0;
        while i < n
            invariant
                self@.wf(),
                n == self@.pixels.len(),
                buffer@.len() == n,
                i <= n,
                forall|p: P, c: u32| call_requires(to_argb, (p, c)),
                forall|j: int|
                    0 <= j < i ==> call_ensures(
                        to_argb,
                        (self@.pixels[j], self@.counts[j]),
                        #[trigger] buffer@[j],
                    ),
            decreases n - i,
        {
            let argb = to_argb(self.sums.image_buffer[i], self.sums.sample_counts[i]);
            buffer.set(i, argb);
            i += 1;
        }
    }

    /// The sum of the samples of pixel `index` and how many there were.
    pub fn get_pixel_samples(&self, index: usize) -> (r: (P, u32))
        requires
            index < self@.pixels.len(),
        ensures
            r == (self@.pixels[index as int], self@.counts[index as int]),
    {
        proof {
            use_type_invariant(self);
        }
        (self.sums.image_buffer[index], self.sums.sample_counts[index])
    }
}

} // verus!
