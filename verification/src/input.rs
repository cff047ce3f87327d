//! Input events sent by a frontend and the channel that carries them.

use vstd::prelude::*;

use crate::clock::Instant;
use crate::ringbuffer::{ClockedRingbuffer, Ringbuffer};

verus! {

/// How many input events the input channel retains before dropping the
/// oldest.
pub const INPUT_CHANNEL_CAPACITY: usize = 20;

/// A key on the sender's keyboard.
#[derive(Clone, Copy, Debug, PartialEq, Eq, Structural)]
pub enum KeyboardEventKey {
    /// The letter A.
    A,
    /// The letter B.
    B,
    /// The letter C.
    C,
    /// The letter D.
    D,
    /// The letter E.
    E,
    /// The letter F.
    F,
    /// The letter G.
    G,
    /// The letter H.
    H,
    /// The letter I.
    I,
    /// The letter J.
    J,
    /// The letter K.
    K,
    /// The letter L.
    L,
    /// The letter M.
    M,
    /// The letter N.
    N,
    /// The letter O.
    O,
    /// The letter P.
    P,
    /// The letter Q.
    Q,
    /// The letter R.
    R,
    /// The letter S.
    S,
    /// The letter T.
    T,
    /// The letter U.
    U,
    /// The letter V.
    V,
    /// The letter W.
    W,
    /// The letter X.
    X,
    /// The letter Y.
    Y,
    /// The letter Z.
    Z,
    /// The digit 0.
    Number0,
    /// The digit 1.
    Number1,
    /// The digit 2.
    Number2,
    /// The digit 3.
    Number3,
    /// The digit 4.
    Number4,
    /// The digit 5.
    Number5,
    /// The digit 6.
    Number6,
    /// The digit 7.
    Number7,
    /// The digit 8.
    Number8,
    /// The digit 9.
    Number9,
}

/// Whether a key or button is down or up.
#[derive(Clone, Copy, Debug, PartialEq, Eq, Structural)]
pub enum ButtonState {
    /// The key is held down.
    Pressed,
    /// The key is up.
    Released,
}

/// An event produced by a frontend's input source.
#[derive(Clone, Copy, Debug, PartialEq, Eq, Structural)]
pub enum InputEvent {
    /// A keyboard key changed state.
    Keyboard(KeyboardEventKey, ButtonState),
}

/// The one-way channel that carries input events from a frontend to the
/// emulation; events are delivered in the order they were enqueued.
pub struct InputChannel {
    queue: ClockedRingbuffer<InputEvent>,
}

impl InputChannel {
    /// The events currently queued, oldest first.
    pub closed spec fn view(&self) -> Seq<InputEvent> {
        Seq::new(self.queue.view().len(), |i: int| self.queue.view()[i].1)
    }

    /// Whether the channel was built with the channel's fixed capacity;
    /// holds for every channel that `build_input_channel` returns.
    pub closed spec fn wf(&self) -> bool {
        self.queue.spec_capacity() == INPUT_CHANNEL_CAPACITY
    }

    /// Enqueues `input` behind every event already queued, dropping the
    /// oldest queued event when the channel is full.
    pub fn add(&mut self, input: InputEvent)
        requires
            old(self).wf(),
        ensures
            final(self).wf(),
            final(self).view().len() > 0,
            final(self).view()[final(self).view().len() - 1] == input,
            old(self).view().len() < INPUT_CHANNEL_CAPACITY ==> final(self).view() == old(self).view().push(input),
    {
        self.queue.push_back((Instant::start(), input));
        proof {
            if old(self).view().len() < INPUT_CHANNEL_CAPACITY {
                assert(self.view() =~= old(self).view().push(input));
            } else {
                assert(self.view().len() > 0);
            }
        }
    }

    /// Removes and returns the oldest queued event, or `None` when the
    /// channel is empty.
    pub fn pop(&mut self) -> (r: Option<InputEvent>)
        ensures
            final(self).wf() == old(self).wf(),
            match r {
                Some(v) => old(self).view().len() > 0 && v == old(self).view()[0] && final(self).view() == old(self).view().subrange(
                    1,
                    old(self).view().len() as int,
                ),
                None => old(self).view().len() == 0 && final(self).view() == old(self).view(),
            },
    {
        let popped = self.queue.pop_front();
        proof {
            if old(self).view().len() > 0 {
                assert(self.view() =~= old(self).view().subrange(
                    1,
                    old(self).view().len() as int,
                ));
            } else {
                assert(self.view() =~= old(self).view());
            }
        }
        match popped {
            Some(p) => Some(p.1),
            None => None,
        }
    }

    /// Whether no event is queued.
    pub fn is_empty(&self) -> (r: bool)
        ensures
            r == (self.view().len() == 0),
    {
        self.queue.is_empty()
    }
}

/// An empty input channel.
pub fn build_input_channel() -> (r: InputChannel)
    ensures
        r.view().len() == 0,
        r.wf(),
{
    InputChannel { queue: Ringbuffer::new(INPUT_CHANNEL_CAPACITY) }
}

} // verus!
