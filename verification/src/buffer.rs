//! The pixel plane every operator consumes and produces.
//!
//! A buffer is a flat, row-major, channel-interleaved sequence of
//! fixed-point samples in thousandths.  Samples are nominally in
//! `[0, SCALE]` but are not clamped until the final stage; the
//! invariant only bounds their magnitude so that every stage's
//! arithmetic stays exact.

use vstd::prelude::*;

use crate::PipeError;
use crate::numeric::SCALE;

verus! {

/// Largest sample magnitude any stage may produce.
pub const SAMPLE_ABS: i64 = 1_000_000_000;

/// Largest width or height of a buffer.
pub const DIM_MAX: usize = 16384;

/// A 2-D, channel-interleaved plane of fixed-point samples.
pub struct PixelBuffer {
    width: usize,
    height: usize,
    channels: usize,
    data: Vec<i64>,
}

impl PixelBuffer {
    /// The flat sample sequence.
    pub closed spec fn samples(&self) -> Seq<i64> {
        self.data@
    }

    /// Declared width in pixels.
    pub closed spec fn spec_width(&self) -> int {
        self.width as int
    }

    /// Declared height in pixels.
    pub closed spec fn spec_height(&self) -> int {
        self.height as int
    }

    /// Declared channel count.
    pub closed spec fn spec_channels(&self) -> int {
        self.channels as int
    }

    /// Shape and sample-magnitude invariant.
    pub open spec fn wf(&self) -> bool {
        &&& 1 <= self.spec_width() <= DIM_MAX
        &&& 1 <= self.spec_height() <= DIM_MAX
        &&& 1 <= self.spec_channels() <= 4
        &&& self.samples().len() == self.spec_width() * self.spec_height() * self.spec_channels()
        &&& forall|i: int|
            0 <= i < self.samples().len() ==> -SAMPLE_ABS <= #[trigger] self.samples()[i]
                <= SAMPLE_ABS
    }

    /// The sample of channel `c` at pixel `(x, y)`.
    pub open spec fn at(&self, x: int, y: int, c: int) -> int {
        self.samples()[(y * self.spec_width() + x) * self.spec_channels() + c] as int
    }

    /// Builds a buffer after checking that the sample count matches
    /// the declared shape and that every sample is in range.
    /// `DecodeFailure` reports a shape mismatch; `DimensionLimitExceeded`
    /// reports an empty or oversized shape.
    pub fn new(width: usize, height: usize, channels: usize, data: Vec<i64>) -> (r: Result<
        PixelBuffer,
        PipeError,
    >)
        ensures
            match r {
                Ok(b) => {
                    &&& b.wf()
                    &&& b.spec_width() == width
                    &&& b.spec_height() == height
                    &&& b.spec_channels() == channels
                    &&& b.samples() == data@
                },
                Err(e) => {
                    &&& (e == PipeError::DimensionLimitExceeded <==> !(1 <= width <= DIM_MAX && 1
                        <= height <= DIM_MAX && 1 <= channels <= 4))
                    &&& (e == PipeError::DecodeFailure || e == PipeError::DimensionLimitExceeded)
                },
            },
            r is Err <==> !(1 <= width <= DIM_MAX && 1 <= height <= DIM_MAX && 1 <= channels <= 4
                && data@.len() == width * height * channels && (forall|i: int|
                0 <= i < data@.len() ==> -SAMPLE_ABS <= #[trigger] data@[i] <= SAMPLE_ABS)),
    {
        if !(1 <= width && width <= DIM_MAX && 1 <= height && height <= DIM_MAX && 1 <= channels
            && channels <= 4) {
            return Err(PipeError::DimensionLimitExceeded);
        }
        proof {
            assert(width * height <= 16384int * 16384 && width * height * channels <= 16384int
                * 16384 * 4) by (nonlinear_arith)
                requires
                    1 <= width <= 16384,
                    1 <= height <= 16384,
                    1 <= channels <= 4,
            ;
        }
        let expected: usize = width * height * channels;
        if data.len() != expected {
            return Err(PipeError::DecodeFailure);
        }
        let total = data.len();
        let mut i: usize = 0;
        while i < total
            invariant
                0 <= i <= total,
                total == data@.len(),
                1 <= width <= DIM_MAX,
                1 <= height <= DIM_MAX,
                1 <= channels <= 4,
                total == width * height * channels,
                forall|j: int| 0 <= j < i ==> -SAMPLE_ABS <= #[trigger] data@[j] <= SAMPLE_ABS,
            decreases total - i,
        {
            if data[i] < -SAMPLE_ABS || data[i] > SAMPLE_ABS {
                return Err(PipeError::DecodeFailure);
            }
            i += 1;
        }
        Ok(PixelBuffer { width, height, channels, data })
    }

    /// Width in pixels.
    pub fn width(&self) -> (r: usize)
        ensures
            r == self.spec_width(),
    {
        self.width
    }

    /// Height in pixels.
    pub fn height(&self) -> (r: usize)
        ensures
            r == self.spec_height(),
    {
        self.height
    }

    /// Channels per pixel.
    pub fn channels(&self) -> (r: usize)
        ensures
            r == self.spec_channels(),
    {
        self.channels
    }

    /// Number of samples held.
    pub fn len(&self) -> (r: usize)
        ensures
            r == self.samples().len(),
    {
        self.data.len()
    }

    /// The flat sample storage.
    pub fn data(&self) -> (r: &Vec<i64>)
        ensures
            r@ == self.samples(),
    {
        &self.data
    }

    /// One sample by flat index.
    pub fn get(&self, i: usize) -> (r: i64)
        requires
            i < self.samples().len(),
        ensures
            r == self.samples()[i as int],
    {
        self.data[i]
    }

    /// Overwrites one sample by flat index, keeping the shape.
    pub fn set(&mut self, i: usize, v: i64)
        requires
            old(self).wf(),
            i < old(self).samples().len(),
            -SAMPLE_ABS <= v <= SAMPLE_ABS,
        ensures
            final(self).wf(),
            final(self).spec_width() == old(self).spec_width(),
            final(self).spec_height() == old(self).spec_height(),
            final(self).spec_channels() == old(self).spec_channels(),
            final(self).samples() == old(self).samples().update(i as int, v),
    {
        self.data.set(i, v);
    }
}

} // verus!
