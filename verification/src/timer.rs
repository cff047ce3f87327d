//! The CHIP-8 delay/sound timer component: a 60 Hz decrementer for the two
//! timer bytes mapped into the bus.

use vstd::prelude::*;

use crate::backend::{same_structure, Backend};
use crate::chip8::{DT_TIMER, ST_TIMER};
use crate::clock::{Duration, FEMTOS_PER_NANOSEC};
use crate::error::Error;

verus! {

/// Nanoseconds between two timer steps at 60 Hz.
pub const TIMER_CLOCK_SPEED_NS: u64 = 1_000_000_000 / 60;

/// The 60 Hz timer; its state lives in the two timer bytes on the bus, so
/// the component itself carries none.
#[derive(Default)]
pub struct Timer {}

/// A timer byte after one 60 Hz tick: decremented when positive, left at
/// zero otherwise.
pub open spec fn spec_tick(b: u8) -> u8 {
    if b > 0 {
        (b - 1) as u8
    } else {
        b
    }
}

impl Timer {
    /// A fresh timer.
    pub fn new() -> (r: Timer)
        ensures
            r == (Timer {  }),
    {
        Timer {  }
    }

    /// One 60 Hz tick: decrements each positive timer byte on the bus
    /// (saturating at zero) and asks to run again after 1/60 s.
    ///
    /// Fails when the timer bytes are not mapped to readable, writable
    /// memory; even then only the two timer bytes may have changed.
    pub fn step(&mut self, backend: &mut Backend) -> (r: Result<Duration, Error>)
        requires
            old(backend).bus_wf(),
        ensures
            *final(self) == *old(self),
            final(backend).bus_wf(),
            same_structure(old(backend), final(backend)),
            final(backend).input == old(backend).input,
            final(backend).frames == old(backend).frames,
            final(backend).audio == old(backend).audio,
            final(backend).text == old(backend).text,
            forall|a: int|
                a != DT_TIMER && a != ST_TIMER ==> #[trigger] final(backend).spec_bus_byte(a)
                    == old(backend).spec_bus_byte(a),
            match r {
                Ok(d) => {
                    &&& d.fs == TIMER_CLOCK_SPEED_NS * FEMTOS_PER_NANOSEC
                    &&& (old(backend).spec_bus_byte(DT_TIMER as int) matches Some(dt0)
                        && final(backend).spec_bus_byte(DT_TIMER as int) == Some(spec_tick(dt0)))
                    &&& (old(backend).spec_bus_byte(ST_TIMER as int) matches Some(st0)
                        && final(backend).spec_bus_byte(ST_TIMER as int) == Some(spec_tick(st0)))
                },
                Err(e) => {
                    &&& e matches Error::Emulator(_, _)
                    &&& !((old(backend).spec_bus_byte(DT_TIMER as int)) is Some && (old(
                        backend,
                    ).spec_bus_byte(ST_TIMER as int)) is Some && old(backend).spec_bus_writable(
                        DT_TIMER as int,
                    ) && old(backend).spec_bus_writable(ST_TIMER as int))
                },
            },
    {
        let got_dt = backend.bus_read_u8(DT_TIMER);
        let dt = match got_dt {
            Ok(b) => b,
            Err(e) => {
                return Err(e);
            },
        };
        let got_st = backend.bus_read_u8(ST_TIMER);
        let st = match got_st {
            Ok(b) => b,
            Err(e) => {
                return Err(e);
            },
        };
        if dt > 0 {
            let wrote = backend.bus_write_u8(DT_TIMER, dt - 1);
            match wrote {
                Ok(_) => {},
                Err(e) => {
                    return Err(e);
                },
            }
        }
        let ghost mid: Backend = *backend;
        if st > 0 {
            let wrote = backend.bus_write_u8(ST_TIMER, st - 1);
            proof {
                Backend::lemma_same_structure_trans(old(backend), &mid, backend);
            }
            match wrote {
                Ok(_) => {},
                Err(e) => {
                    return Err(e);
                },
            }
        }
        Ok(Duration::from_nanos(TIMER_CLOCK_SPEED_NS))
    }
}

} // verus!
