//! The channel that carries clock-stamped text lines from the emulation to
//! a log view.

use vstd::prelude::*;

use crate::clock::Instant;
use crate::ringbuffer::{ClockedRingbuffer, Ringbuffer};

verus! {

/// How many lines the text channel retains before dropping the oldest.
pub const TEXT_CHANNEL_CAPACITY: usize = 20;

/// The one-way channel that carries clock-stamped text lines.
pub struct TextChannel {
    queue: ClockedRingbuffer<String>,
}

impl TextChannel {
    /// The clock-stamped lines currently buffered, oldest first.
    pub closed spec fn view(&self) -> Seq<(Instant, String)> {
        self.queue.view()
    }

    /// The bound the channel was built with.
    pub closed spec fn spec_capacity(&self) -> usize {
        self.queue.spec_capacity()
    }

    /// Appends `msg` stamped with `clock`, dropping the oldest buffered
    /// line when the channel is full.
    pub fn add(&mut self, clock: Instant, msg: String)
        ensures
            final(self).view().len() > 0,
            final(self).view()[final(self).view().len() - 1] == (clock, msg),
            final(self).spec_capacity() == old(self).spec_capacity(),
            old(self).view().len() < old(self).spec_capacity() ==> final(self).view() == old(self).view().push((clock, msg)),
            old(self).view().len() >= old(self).spec_capacity() && old(self).view().len() > 0
                ==> final(self).view() == old(self).view().subrange(
                1,
                old(self).view().len() as int,
            ).push((clock, msg)),
    {
        self.queue.push_back((clock, msg));
    }

    /// Removes and returns the oldest buffered line, or `None` when
    /// nothing is buffered.
    pub fn pop(&mut self) -> (r: Option<(Instant, String)>)
        ensures
            match r {
                Some(v) => old(self).view().len() > 0 && v == old(self).view()[0]
                    && final(self).view() == old(self).view().subrange(
                    1,
                    old(self).view().len() as int,
                ),
                None => old(self).view().len() == 0 && final(self).view() == old(self).view(),
            },
    {
        self.queue.pop_front()
    }

    /// Discards every buffered line and returns the newest, or `None`
    /// when nothing is buffered.
    pub fn latest(&mut self) -> (r: Option<(Instant, String)>)
        ensures
            final(self).view().len() == 0,
            match r {
                Some(v) => old(self).view().len() > 0 && v == old(self).view()[old(self).view().len() - 1],
                None => old(self).view().len() == 0,
            },
    {
        self.queue.drain_and_pop_latest()
    }

    /// Whether nothing is buffered.
    pub fn is_empty(&self) -> (r: bool)
        ensures
            r == (self.view().len() == 0),
    {
        self.queue.is_empty()
    }
}

/// An empty text channel.
pub fn build_text_channel() -> (r: TextChannel)
    ensures
        r.view().len() == 0,
        r.spec_capacity() == TEXT_CHANNEL_CAPACITY,
{
    TextChannel { queue: Ringbuffer::new(TEXT_CHANNEL_CAPACITY) }
}

} // verus!
