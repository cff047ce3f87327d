//! Assembly of a complete CHIP-8 machine: memory map, font set, and the
//! platform selection that picks a quirk profile.

use vstd::prelude::*;

use crate::audio::Audio;
use crate::backend::Backend;
use crate::bus::BusMount;
use crate::component::ComponentImpl;
use crate::cpu::{spec_quirks, Cpu, FRAME_HEIGHT, FRAME_WIDTH};
use crate::error::Error;
use crate::graphics::build_frame_channel;
use crate::memory::MemoryBlock;
use crate::timer::Timer;

verus! {

/// First address of the timer bytes on the bus.
pub const TIMER_BASE: usize = 0x100;

/// Address of the delay timer byte.
pub const DT_TIMER: usize = TIMER_BASE;

/// Address of the sound timer byte.
pub const ST_TIMER: usize = TIMER_BASE + 1;

/// First address of the font glyphs.
pub const FONT_BASE: usize = 0x50;

/// The CHIP-8 family platform to emulate.
#[derive(Clone, Copy, Debug, PartialEq, Eq, Structural)]
pub enum Platform {
    /// The original CHIP-8 interpreter.
    Chip8,
    /// The SUPER-CHIP variant with its divergent quirks.
    SuperChip,
}

/// What a CHIP-8 backend is built from: the ROM image and the platform
/// whose quirks it should run under.
pub struct Chip8Options {
    /// The ROM image, loaded verbatim at 0x200; bytes beyond the end of
    /// program RAM are truncated.
    pub rom_data: Vec<u8>,
    /// The platform whose quirk profile the CPU uses.
    pub platform: Platform,
}


/// One past the last RAM address.
pub const MEMORY_TOP: usize = 0xFFF;

/// Base of program RAM, where the ROM is loaded.
pub const ROM_BASE: usize = 0x200;

/// The canonical CHIP-8 font: sixteen hex glyphs of five bytes each.
pub const FONT_SET: [u8; 80] = [
    0xF0, 0x90, 0x90, 0x90, 0xF0, 0x20, 0x60, 0x20, 0x20, 0x70, 0xF0, 0x10, 0xF0, 0x80, 0xF0,
    0xF0, 0x10, 0xF0, 0x10, 0xF0, 0x90, 0x90, 0xF0, 0x10, 0x10, 0xF0, 0x80, 0xF0, 0x10, 0xF0,
    0xF0, 0x80, 0xF0, 0x90, 0xF0, 0xF0, 0x10, 0x20, 0x40, 0x40, 0xF0, 0x90, 0xF0, 0x90, 0xF0,
    0xF0, 0x90, 0xF0, 0x10, 0xF0, 0xF0, 0x90, 0xF0, 0x90, 0x90, 0xE0, 0x90, 0xE0, 0x90, 0xE0,
    0xF0, 0x80, 0x80, 0x80, 0xF0, 0xE0, 0x90, 0x90, 0x90, 0xE0, 0xF0, 0x80, 0xF0, 0x80, 0xF0,
    0xF0, 0x80, 0xF0, 0x80, 0x80,
];

/// The byte a fresh CHIP-8 machine shows at bus address `a`: the font in
/// its block, the ROM (truncated to program RAM, zero-padded) from the
/// ROM base, and zero elsewhere below the top of memory.
pub open spec fn spec_initial_byte(rom: Seq<u8>, a: int) -> Option<u8> {
    if FONT_BASE <= a < FONT_BASE + 80 {
        Some(FONT_SET@[a - FONT_BASE])
    } else if 0 <= a < ROM_BASE {
        Some(0u8)
    } else if ROM_BASE <= a < MEMORY_TOP {
        if a - ROM_BASE < rom.len() {
            Some(rom[a - ROM_BASE])
        } else {
            Some(0u8)
        }
    } else {
        None
    }
}

/// Assembles a complete CHIP-8 machine: interpreter memory with the font,
/// program RAM with the ROM loaded at the ROM base (a ROM longer than
/// program RAM is truncated), the 60 Hz timer, the CPU with the
/// platform's quirk profile, and the audio generator, all registered and
/// scheduled from a clock at the origin.
#[verifier::rlimit(100)]
pub fn create_chip8_backend(options: Chip8Options) -> (r: Result<Backend, Error>)
    ensures
        r matches Ok(b) ==> {
            &&& b.wf()
            &&& b.scheduler_queue@.len() == 3
            &&& b.clock.fs == 0
            &&& b.input.view().len() == 0
            &&& b.frames.view().len() == 0
            &&& b.audio.view().len() == 0
            &&& b.frames.spec_max_size() == (FRAME_WIDTH, FRAME_HEIGHT)
            &&& forall|a: int|
                #[trigger] b.spec_bus_byte(a) == spec_initial_byte(options.rom_data@, a)
            &&& forall|a: int| 0 <= a < MEMORY_TOP ==> #[trigger] b.spec_bus_writable(a)
            &&& (forall|a: int, n: int|
                0 <= a && 1 <= n && a + n <= ROM_BASE ==> #[trigger] b.bus.spec_covers_range(a, n))
            &&& (forall|a: int, n: int|
                ROM_BASE <= a && 1 <= n && a + n <= MEMORY_TOP ==> #[trigger] b.bus.spec_covers_range(
                    a,
                    n,
                ))
            &&& exists|ci: int|
                0 <= ci < b.components@.len() && ((#[trigger] b.components@[ci]).component.imp
                    matches ComponentImpl::Cpu(c) && c.quirks == spec_quirks(options.platform)
                    && c.state.pc == 0x200 && c.state.i == 0 && c.state.sp == 0 && !c.state.paused
                    && c.state.waiting_for_key is None && !c.state.waiting_for_vblank && (forall|
                    k: int,
                |
                    0 <= k < 16 ==> #[trigger] c.state.v@[k] == 0 && c.state.stack@[k] == 0
                        && !c.state.keypad_state.view()[k]) && (forall|k: int|
                    0 <= k < 2048 ==> !(#[trigger] c.state.frame_buffer@[k])))
        },
        r is Ok,
{
    let mut backend = Backend::new();
    let ghost b0: Backend = backend;
    backend.frames = build_frame_channel(FRAME_WIDTH, FRAME_HEIGHT);
    proof {
        Backend::lemma_same_structure_fields(&b0, &backend);
        Backend::lemma_same_structure_wf(&b0, &backend);
    }

    let mut interpreter_memory = MemoryBlock::from_vec(Vec::new());
    interpreter_memory.resize(ROM_BASE);
    let mut font: Vec<u8> = Vec::new();
    let mut fi: usize = 0;
    while fi < 80
        invariant
            fi <= 80,
            font@.len() == fi,
            forall|k: int| 0 <= k < fi ==> font@[k] == FONT_SET@[k],
        decreases 80 - fi,
    {
        font.push(FONT_SET[fi]);
        fi = fi + 1;
    }
    let wrote = interpreter_memory.write(FONT_BASE, font.as_slice());
    proof {
        assert(wrote is Ok);
    }
    let ghost interp_contents = interpreter_memory.contents();
    let id1 = backend.add_addressable_component(
        "mem_interpreter",
        0x0,
        ComponentImpl::Memory(interpreter_memory),
    );
    let ghost b1: Backend = backend;

    let mut ram = MemoryBlock::from_vec(options.rom_data);
    ram.resize(MEMORY_TOP - ROM_BASE);
    let ghost ram_contents = ram.contents();
    proof {
        assert(b1.bus.mounts@.len() == 1);
        assert(b1.bus.mounts@.contains(
            BusMount { base: 0, size: 0x200, component: id1 },
        ));
        assert(b1.bus.mounts@[0] == (BusMount { base: 0, size: 0x200, component: id1 }));
    }
    let id2 = backend.add_addressable_component("mem_ram", ROM_BASE, ComponentImpl::Memory(ram));
    let ghost b2: Backend = backend;

    backend.add_component("timer", ComponentImpl::Timer(Timer::new()));
    backend.add_component("cpu", ComponentImpl::Cpu(Cpu::new(options.platform)));
    let ghost b4: Backend = backend;
    let ghost cpu_ci = b4.components@.len() - 1;
    backend.add_component("audio", ComponentImpl::Audio(Audio::new()));

    proof {
        let rom = options.rom_data@;
        let bf: Backend = backend;
        assert(bf.components@[cpu_ci] == b4.components@[cpu_ci]);
        assert(bf.components@[cpu_ci].component.imp is Cpu);
        assert(bf.components@[0] == b2.components@[0]);
        assert(b2.components@[0] == b1.components@[0]);
        assert(bf.components@[1] == b2.components@[1]);
        assert(bf.bus.mounts@ == b2.bus.mounts@);
        assert(b2.bus.mounts@.len() == 2);
        assert(b2.bus.mounts@.contains(BusMount { base: 0, size: 0x200, component: id1 }));
        assert(b2.bus.mounts@.contains(
            BusMount { base: 0x200, size: 0xDFF, component: id2 },
        ));
        Backend::lemma_fresh_chip8_bytes(
            &bf,
            id1,
            id2,
            interp_contents,
            ram_contents,
        );
        let m1 = BusMount { base: 0, size: 0x200, component: id1 };
        let m2 = BusMount { base: 0x200, size: 0xDFF, component: id2 };
        assert forall|a: int, n: int|
            0 <= a && 1 <= n && a + n <= ROM_BASE implies #[trigger] bf.bus.spec_covers_range(
            a,
            n,
        ) by {
            let mi = choose|mi: int| 0 <= mi < bf.bus.mounts@.len() && bf.bus.mounts@[mi] == m1;
            assert(bf.bus.mounts@[mi].spec_contains_range(a, n));
        }
        assert forall|a: int, n: int|
            ROM_BASE <= a && 1 <= n && a + n <= MEMORY_TOP implies #[trigger] bf.bus.spec_covers_range(
            a,
            n,
        ) by {
            let mi = choose|mi: int| 0 <= mi < bf.bus.mounts@.len() && bf.bus.mounts@[mi] == m2;
            assert(bf.bus.mounts@[mi].spec_contains_range(a, n));
        }
        assert forall|a: int| #[trigger] bf.spec_bus_byte(a) == spec_initial_byte(rom, a) by {
            if 0 <= a < ROM_BASE {
                if FONT_BASE <= a < FONT_BASE + 80 {
                    assert(interp_contents[a] == font@[a - FONT_BASE]);
                } else {
                    assert(interp_contents[a] == 0);
                }
            } else if ROM_BASE <= a < MEMORY_TOP {
                if a - ROM_BASE < rom.len() {
                    assert(ram_contents[a - ROM_BASE] == rom[a - ROM_BASE]);
                } else {
                    assert(ram_contents[a - ROM_BASE] == 0);
                }
            }
        }
    }
    Ok(backend)
}

} // verus!
