//! Frames produced by the emulation and the channel that carries them.

use vstd::prelude::*;

use crate::clock::Instant;
use crate::ringbuffer::{ClockedRingbuffer, Ringbuffer};

verus! {

/// One displayed pixel as an (R, G, B, A) quadruple.
pub type Pixel = (u8, u8, u8, u8);

/// How many frames the frame channel retains before dropping the oldest.
pub const FRAME_CHANNEL_CAPACITY: usize = 20;

/// A rendered frame: `width * height` pixels in row-major order.
pub struct Frame {
    /// Width of the frame in pixels.
    pub width: usize,
    /// Height of the frame in pixels.
    pub height: usize,
    /// The pixels, row by row from the top; `data.len() == width * height`.
    pub data: Vec<Pixel>,
}

impl Frame {
    /// An all-black, fully opaque frame of the given `(width, height)`.
    pub fn new(dimensions: (usize, usize)) -> (r: Frame)
        requires
            dimensions.0 * dimensions.1 <= usize::MAX,
        ensures
            r.width == dimensions.0,
            r.height == dimensions.1,
            r.data@.len() == dimensions.0 * dimensions.1,
            forall|i: int| 0 <= i < r.data@.len() ==> r.data@[i] == (0u8, 0u8, 0u8, 255u8),
    {
        let total = dimensions.0 * dimensions.1;
        let mut data: Vec<Pixel> = Vec::new();
        let mut idx: usize = 0;
        while idx < total
            invariant
                idx <= total,
                data@.len() == idx,
                forall|i: int| 0 <= i < idx ==> data@[i] == (0u8, 0u8, 0u8, 255u8),
            decreases total - idx,
        {
            data.push((0, 0, 0, 255));
            idx = idx + 1;
        }
        Frame { width: dimensions.0, height: dimensions.1, data }
    }

    /// The pixels flattened to bytes, four per pixel in R, G, B, A order.
    pub fn as_rgba_vec(&self) -> (r: Vec<u8>)
        ensures
            r@.len() == 4 * self.data@.len(),
            forall|i: int|
                0 <= i < self.data@.len() ==> r@[4 * i] == self.data@[i].0 && r@[4 * i + 1]
                    == self.data@[i].1 && r@[4 * i + 2] == self.data@[i].2 && r@[4 * i + 3]
                    == self.data@[i].3,
    {
        let mut result: Vec<u8> = Vec::new();
        let count = self.data.len();
        let mut idx: usize = 0;
        while idx < count
            invariant
                idx <= count,
                count == self.data@.len(),
                result@.len() == 4 * idx,
                forall|i: int|
                    0 <= i < idx ==> result@[4 * i] == self.data@[i].0 && result@[4 * i + 1]
                        == self.data@[i].1 && result@[4 * i + 2] == self.data@[i].2 && result@[4 * i
                        + 3] == self.data@[i].3,
            decreases count - idx,
        {
            let pixel = self.data[idx];
            result.push(pixel.0);
            result.push(pixel.1);
            result.push(pixel.2);
            result.push(pixel.3);
            idx = idx + 1;
        }
        result
    }
}

/// The one-way channel that carries clock-stamped frames from the emulation
/// to a display; a bounded buffer that drops its oldest frame on overflow.
pub struct FrameChannel {
    max_size: (usize, usize),
    queue: ClockedRingbuffer<Frame>,
}

impl FrameChannel {
    /// The clock-stamped frames currently buffered, oldest first.
    pub closed spec fn view(&self) -> Seq<(Instant, Frame)> {
        self.queue.view()
    }

    /// The display size the channel was built for.
    pub closed spec fn spec_max_size(&self) -> (usize, usize) {
        self.max_size
    }

    /// The bound the channel was built with.
    pub closed spec fn spec_capacity(&self) -> usize {
        self.queue.spec_capacity()
    }

    /// The display size the channel was built for.
    pub fn max_size(&self) -> (r: (usize, usize))
        ensures
            r == self.spec_max_size(),
    {
        self.max_size
    }

    /// Appends `frame` stamped with `clock`, dropping the oldest buffered
    /// frame when the channel is full.
    pub fn add(&mut self, clock: Instant, frame: Frame)
        ensures
            final(self).view().len() > 0,
            final(self).view()[final(self).view().len() - 1] == (clock, frame),
            final(self).spec_max_size() == old(self).spec_max_size(),
            final(self).spec_capacity() == old(self).spec_capacity(),
            old(self).view().len() < old(self).spec_capacity() ==> final(self).view() == old(self).view().push((clock, frame)),
            old(self).view().len() >= old(self).spec_capacity() && old(self).view().len() > 0
                ==> final(self).view() == old(self).view().subrange(
                1,
                old(self).view().len() as int,
            ).push((clock, frame)),
    {
        self.queue.push_back((clock, frame));
    }

    /// Discards every buffered frame and returns the newest, or `None`
    /// when nothing is buffered.
    pub fn latest(&mut self) -> (r: Option<(Instant, Frame)>)
        ensures
            final(self).view().len() == 0,
            final(self).spec_max_size() == old(self).spec_max_size(),
            match r {
                Some(v) => old(self).view().len() > 0 && v == old(self).view()[old(self).view().len() - 1],
                None => old(self).view().len() == 0,
            },
    {
        self.queue.drain_and_pop_latest()
    }
}

/// An empty frame channel for a display of `width` by `height` pixels.
pub fn build_frame_channel(width: usize, height: usize) -> (r: FrameChannel)
    ensures
        r.view().len() == 0,
        r.spec_max_size() == (width, height),
        r.spec_capacity() == FRAME_CHANNEL_CAPACITY,
{
    FrameChannel { max_size: (width, height), queue: Ringbuffer::new(FRAME_CHANNEL_CAPACITY) }
}

} // verus!
