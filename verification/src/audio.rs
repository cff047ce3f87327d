//! The CHIP-8 audio generator and the channel that carries its samples.
//!
//! The generator runs at 48 kHz and describes each sample symbolically: a
//! tone sample carries the phase counter of a 440 Hz sine wave, a silence
//! sample stands for an amplitude of exactly zero.  Turning a tone sample
//! into an amplitude is left to the consumer, which evaluates
//! `sin(2 * pi * phase * 440 / rate)` at the channel's sample rate.

use vstd::prelude::*;

use crate::backend::{same_structure, Backend};
use crate::chip8::ST_TIMER;
use crate::clock::{Duration, Instant, FEMTOS_PER_NANOSEC};
use crate::error::Error;
use crate::ringbuffer::{ClockedRingbuffer, Ringbuffer};

verus! {

/// Samples produced per emulated second.
pub const AUDIO_SAMPLING_RATE: u32 = 48_000;

/// Nanoseconds between two samples at 48 kHz.
pub const AUDIO_CLOCK_SPEED_NS: u64 = 1_000_000_000 / (AUDIO_SAMPLING_RATE as u64);

/// The 48 kHz audio generator component.
///
/// Each step reads the sound timer byte from the bus, advances the phase
/// counter by one modulo the sample rate, and pushes one sample: a tone
/// sample while the sound timer is positive, silence otherwise.
pub struct Audio {
    /// Phase counter of the 440 Hz wave, always below the sample rate.
    pub sample_clock: u32,
}

impl Audio {
    /// The phase counter stays below the sample rate.
    pub open spec fn wf(&self) -> bool {
        self.sample_clock < AUDIO_SAMPLING_RATE
    }

    /// A generator with its phase counter at zero.
    pub fn new() -> (r: Audio)
        ensures
            r.wf(),
            r.sample_clock == 0,
    {
        Audio { sample_clock: 0 }
    }
}

/// One audio sample, described symbolically.
#[derive(Clone, Copy, Debug, PartialEq, Eq, Structural)]
pub enum AudioSample {
    /// An amplitude of exactly zero.
    Silence,
    /// The sine amplitude at the given phase counter of a 440 Hz wave.
    Tone(u32),
}

/// The one-way channel that carries clock-stamped samples from the audio
/// generator to a playback device.
pub struct AudioChannel {
    sample_rate: u32,
    queue: ClockedRingbuffer<AudioSample>,
}

impl AudioChannel {
    /// The clock-stamped samples currently buffered, oldest first.
    pub closed spec fn view(&self) -> Seq<(Instant, AudioSample)> {
        self.queue.view()
    }

    /// The sample rate the channel was built for.
    pub closed spec fn spec_sample_rate(&self) -> u32 {
        self.sample_rate
    }

    /// The bound the channel was built with.
    pub closed spec fn spec_capacity(&self) -> usize {
        self.queue.spec_capacity()
    }

    /// The sample rate the channel was built for.
    pub fn sample_rate(&self) -> (r: u32)
        ensures
            r == self.spec_sample_rate(),
    {
        self.sample_rate
    }

    /// Appends `sample` stamped with `clock`, dropping the oldest buffered
    /// sample when the channel is full.
    pub fn add(&mut self, clock: Instant, sample: AudioSample)
        ensures
            final(self).view().len() > 0,
            final(self).view()[final(self).view().len() - 1] == (clock, sample),
            final(self).spec_sample_rate() == old(self).spec_sample_rate(),
            final(self).spec_capacity() == old(self).spec_capacity(),
            old(self).view().len() < old(self).spec_capacity() ==> final(self).view() == old(self).view().push((clock, sample)),
            old(self).view().len() >= old(self).spec_capacity() && old(self).view().len() > 0
                ==> final(self).view() == old(self).view().subrange(
                1,
                old(self).view().len() as int,
            ).push((clock, sample)),
    {
        self.queue.push_back((clock, sample));
    }

    /// Removes and returns the oldest buffered sample, or `None` when
    /// nothing is buffered.
    pub fn pop(&mut self) -> (r: Option<(Instant, AudioSample)>)
        ensures
            final(self).spec_sample_rate() == old(self).spec_sample_rate(),
            match r {
                Some(v) => old(self).view().len() > 0 && v == old(self).view()[0]
                    && final(self).view() == old(self).view().subrange(
                    1,
                    old(self).view().len() as int,
                ),
                None => old(self).view().len() == 0 && final(self).view() == old(self).view(),
            },
    {
        self.queue.pop_front()
    }

    /// Discards every buffered sample and returns the newest, or `None`
    /// when nothing is buffered.
    pub fn latest(&mut self) -> (r: Option<(Instant, AudioSample)>)
        ensures
            final(self).view().len() == 0,
            final(self).spec_sample_rate() == old(self).spec_sample_rate(),
            match r {
                Some(v) => old(self).view().len() > 0 && v == old(self).view()[old(self).view().len() - 1],
                None => old(self).view().len() == 0,
            },
    {
        self.queue.drain_and_pop_latest()
    }

    /// Whether nothing is buffered.
    pub fn is_empty(&self) -> (r: bool)
        ensures
            r == (self.view().len() == 0),
    {
        self.queue.is_empty()
    }

    /// The number of samples currently buffered.
    pub fn len(&self) -> (r: usize)
        ensures
            r == self.view().len(),
    {
        self.queue.len()
    }

    /// The bound the channel was built with.
    pub fn capacity(&self) -> (r: usize)
        ensures
            r == self.spec_capacity(),
    {
        self.queue.capacity()
    }
}

impl Audio {
    /// One 48 kHz sample: advances the phase counter modulo the sample
    /// rate, reads the sound timer byte from the bus, and pushes one
    /// sample onto the backend's audio channel — a tone sample of the new
    /// phase while the sound timer is positive, silence otherwise.  Asks
    /// to run again after 1/48000 s.
    pub fn step(&mut self, backend: &mut Backend) -> (r: Result<Duration, Error>)
        requires
            old(self).wf(),
            old(backend).bus_wf(),
        ensures
            final(self).wf(),
            final(backend).bus_wf(),
            same_structure(old(backend), final(backend)),
            final(backend).input == old(backend).input,
            final(backend).frames == old(backend).frames,
            final(backend).text == old(backend).text,
            forall|a: int|
                #[trigger] final(backend).spec_bus_byte(a) == old(backend).spec_bus_byte(a),
            match r {
                Ok(d) => {
                    &&& d.fs == AUDIO_CLOCK_SPEED_NS * FEMTOS_PER_NANOSEC
                    &&& final(self).sample_clock == ((old(self).sample_clock + 1) as int % (
                    AUDIO_SAMPLING_RATE as int))
                    &&& (old(backend).spec_bus_byte(ST_TIMER as int) matches Some(st)
                        && {
                        let sample = if st > 0 {
                            AudioSample::Tone(final(self).sample_clock)
                        } else {
                            AudioSample::Silence
                        };
                        &&& final(backend).audio.view().len() > 0
                        &&& final(backend).audio.view()[final(backend).audio.view().len() - 1] == (
                        old(backend).clock, sample)
                        &&& old(backend).audio.view().len() < old(backend).audio.spec_capacity()
                            ==> final(backend).audio.view() == old(backend).audio.view().push(
                            (old(backend).clock, sample),
                        )
                    })
                },
                Err(e) => {
                    &&& *final(self) == *old(self)
                    &&& final(backend).audio == old(backend).audio
                    &&& old(backend).spec_bus_byte(ST_TIMER as int) is None
                    &&& e matches Error::Emulator(_, _)
                },
            },
    {
        let got_st = backend.bus_read_u8(ST_TIMER);
        let st = match got_st {
            Ok(b) => b,
            Err(e) => {
                return Err(e);
            },
        };
        self.sample_clock = (self.sample_clock + 1) % AUDIO_SAMPLING_RATE;
        let sample = if st > 0 {
            AudioSample::Tone(self.sample_clock)
        } else {
            AudioSample::Silence
        };
        let now = backend.get_current_clock();
        backend.audio.add(now, sample);
        proof {
            Backend::lemma_same_structure_fields(old(backend), backend);
            Backend::lemma_same_structure_bus_wf(old(backend), backend);
        }
        Ok(Duration::from_nanos(AUDIO_CLOCK_SPEED_NS))
    }
}

/// An empty audio channel for the given sample rate, retaining at most
/// `buffer_size` samples.
pub fn build_audio_channel(sample_rate: u32, buffer_size: usize) -> (r: AudioChannel)
    ensures
        r.view().len() == 0,
        r.spec_sample_rate() == sample_rate,
{
    AudioChannel { sample_rate, queue: Ringbuffer::new(buffer_size) }
}

} // verus!
