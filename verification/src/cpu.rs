//! The CHIP-8 CPU: registers, opcode decoding, and the pure parts of
//! instruction execution.
//!
//! The CPU fetches 16-bit big-endian opcodes from the bus, decodes them
//! into `Instruction` values, and executes them against its register file,
//! stack, frame buffer and keypad.  Behavioural divergences between CHIP-8
//! and SUPER-CHIP are captured by `CpuQuirks`.

use vstd::prelude::*;

use crate::backend::{only_input_changed, same_structure, Backend, MAX_STEP_FS};
use crate::chip8::{DT_TIMER, FONT_BASE, Platform, ST_TIMER};
use crate::clock::{Duration, FEMTOS_PER_NANOSEC};
use crate::error::{EmulatorErrorKind, Error};
use crate::graphics::Frame;
use crate::input::{ButtonState, InputEvent};
use crate::keypad::{spec_button_from_key, spec_button_value, spec_parse_input_event, InputButton, KeypadState};

verus! {

/// Nanoseconds between two CPU steps at the nominal 700 Hz clock.
pub const CLOCK_SPEED_NS: u64 = 1_000_000_000 / 700;

/// Nanoseconds between two 60 Hz display refreshes.
pub const VBLANK_CLOCK_SPEED_NS: u64 = 1_000_000_000 / 60;

/// Width of the frame buffer in pixels.
pub const FRAME_WIDTH: usize = 64;

/// Height of the frame buffer in pixels.
pub const FRAME_HEIGHT: usize = 32;

/// The six behavioural quirks that distinguish CHIP-8 family platforms.
#[derive(Clone, Copy, Debug, PartialEq, Eq, Structural, Default)]
pub struct CpuQuirks {
    /// 8XY6 / 8XYE shift V[X] itself instead of first copying V[Y].
    pub quirks_shift_takes_x_instead_of_y: bool,
    /// FX55 / FX65 leave the index register unchanged.
    pub quirks_loadstore_leaves_i_unmodified: bool,
    /// FX55 / FX65 advance the index register by X instead of X + 1.
    pub quirks_loadstore_modifies_i_one_less: bool,
    /// BNNN jumps relative to V[high nibble of NNN] instead of V[0].
    pub quirks_jump_uses_x: bool,
    /// DXYN does not wait for the next 60 Hz boundary.
    pub quirks_draw_not_waiting_for_vblank: bool,
    /// 8XY1 / 8XY2 / 8XY3 leave V[F] unchanged.
    pub quirks_logic_leaves_flag_unmodified: bool,
}

/// The quirk profile of a platform: CHIP-8 has every quirk off, SUPER-CHIP
/// turns on all but the one-less load/store rule.
pub open spec fn spec_quirks(platform: Platform) -> CpuQuirks {
    match platform {
        Platform::Chip8 => CpuQuirks {
            quirks_shift_takes_x_instead_of_y: false,
            quirks_loadstore_leaves_i_unmodified: false,
            quirks_loadstore_modifies_i_one_less: false,
            quirks_jump_uses_x: false,
            quirks_draw_not_waiting_for_vblank: false,
            quirks_logic_leaves_flag_unmodified: false,
        },
        Platform::SuperChip => CpuQuirks {
            quirks_shift_takes_x_instead_of_y: true,
            quirks_loadstore_leaves_i_unmodified: true,
            quirks_loadstore_modifies_i_one_less: false,
            quirks_jump_uses_x: true,
            quirks_draw_not_waiting_for_vblank: true,
            quirks_logic_leaves_flag_unmodified: true,
        },
    }
}

impl CpuQuirks {
    /// The quirk profile of a platform: CHIP-8 has every quirk off,
    /// SUPER-CHIP turns on all but the one-less load/store rule.
    pub fn from_platform(platform: Platform) -> (r: CpuQuirks)
        ensures
            r == spec_quirks(platform),
            platform == Platform::Chip8 ==> r == (CpuQuirks {
                quirks_shift_takes_x_instead_of_y: false,
                quirks_loadstore_leaves_i_unmodified: false,
                quirks_loadstore_modifies_i_one_less: false,
                quirks_jump_uses_x: false,
                quirks_draw_not_waiting_for_vblank: false,
                quirks_logic_leaves_flag_unmodified: false,
            }),
            platform == Platform::SuperChip ==> r == (CpuQuirks {
                quirks_shift_takes_x_instead_of_y: true,
                quirks_loadstore_leaves_i_unmodified: true,
                quirks_loadstore_modifies_i_one_less: false,
                quirks_jump_uses_x: true,
                quirks_draw_not_waiting_for_vblank: true,
                quirks_logic_leaves_flag_unmodified: true,
            }),
    {
        match platform {
            Platform::Chip8 => CpuQuirks {
                quirks_shift_takes_x_instead_of_y: false,
                quirks_loadstore_leaves_i_unmodified: false,
                quirks_loadstore_modifies_i_one_less: false,
                quirks_jump_uses_x: false,
                quirks_draw_not_waiting_for_vblank: false,
                quirks_logic_leaves_flag_unmodified: false,
            },
            Platform::SuperChip => CpuQuirks {
                quirks_shift_takes_x_instead_of_y: true,
                quirks_loadstore_leaves_i_unmodified: true,
                quirks_loadstore_modifies_i_one_less: false,
                quirks_jump_uses_x: true,
                quirks_draw_not_waiting_for_vblank: true,
                quirks_logic_leaves_flag_unmodified: true,
            },
        }
    }
}

/// The CPU's architectural state.
pub struct CpuState {
    /// The sixteen general registers; `v[0xF]` doubles as the flag.
    pub v: Vec<u8>,
    /// The index register.
    pub i: u16,
    /// The program counter.
    pub pc: u16,
    /// The stack pointer: the number of return addresses on the stack.
    pub sp: u8,
    /// The sixteen-slot call stack.
    pub stack: Vec<u16>,
    /// Reserved external pause control; nothing in the core sets it.
    pub paused: bool,
    /// The register that an FX0A instruction is waiting to fill, if any.
    pub waiting_for_key: Option<usize>,
    /// Whether a draw is waiting for the next 60 Hz boundary.
    pub waiting_for_vblank: bool,
    /// The 64 by 32 monochrome display, row-major from the top left.
    pub frame_buffer: Vec<bool>,
    /// The held-state of the sixteen hex buttons.
    pub keypad_state: KeypadState,
}

impl CpuState {
    /// Structural invariants: sixteen registers, sixteen stack slots, a
    /// 64 by 32 frame buffer, an in-range wait register, a stack pointer
    /// that never passes the end of the stack, and a well-formed keypad.
    pub open spec fn wf(&self) -> bool {
        &&& self.v@.len() == 16
        &&& self.stack@.len() == 16
        &&& self.frame_buffer@.len() == FRAME_WIDTH * FRAME_HEIGHT
        &&& match self.waiting_for_key {
            Some(x) => x < 16,
            None => true,
        }
        &&& self.sp <= 16
        &&& self.keypad_state.wf()
    }

    /// The reset state: everything zeroed except the program counter,
    /// which starts at the conventional ROM base.
    pub fn new() -> (r: CpuState)
        ensures
            r.wf(),
            r.pc == 0x200,
            r.i == 0,
            r.sp == 0,
            !r.paused,
            r.waiting_for_key is None,
            !r.waiting_for_vblank,
            forall|k: int| 0 <= k < 16 ==> r.v@[k] == 0,
            forall|k: int| 0 <= k < 16 ==> r.stack@[k] == 0,
            forall|k: int| 0 <= k < FRAME_WIDTH * FRAME_HEIGHT ==> !r.frame_buffer@[k],
            forall|k: int| 0 <= k < 16 ==> !r.keypad_state.view()[k],
    {
        let mut v: Vec<u8> = Vec::new();
        let mut stack: Vec<u16> = Vec::new();
        let mut idx: usize = 0;
        while idx < 16
            invariant
                idx <= 16,
                v@.len() == idx,
                stack@.len() == idx,
                forall|k: int| 0 <= k < idx ==> v@[k] == 0,
                forall|k: int| 0 <= k < idx ==> stack@[k] == 0,
            decreases 16 - idx,
        {
            v.push(0);
            stack.push(0);
            idx = idx + 1;
        }
        let mut frame_buffer: Vec<bool> = Vec::new();
        let mut fidx: usize = 0;
        while fidx < FRAME_WIDTH * FRAME_HEIGHT
            invariant
                fidx <= FRAME_WIDTH * FRAME_HEIGHT,
                frame_buffer@.len() == fidx,
                forall|k: int| 0 <= k < fidx ==> !frame_buffer@[k],
            decreases FRAME_WIDTH * FRAME_HEIGHT - fidx,
        {
            frame_buffer.push(false);
            fidx = fidx + 1;
        }
        CpuState {
            v,
            i: 0,
            pc: 0x200,
            sp: 0,
            stack,
            paused: false,
            waiting_for_key: None,
            waiting_for_vblank: false,
            frame_buffer,
            keypad_state: KeypadState::new(),
        }
    }
}

/// The CHIP-8 CPU component: architectural state plus the quirk profile
/// it runs under.
pub struct Cpu {
    /// The architectural state.
    pub state: CpuState,
    /// The behavioural quirks of the platform being emulated.
    pub quirks: CpuQuirks,
}

impl Cpu {
    /// The CPU is well-formed when its state is.
    pub open spec fn wf(&self) -> bool {
        self.state.wf()
    }

    /// A CPU in the reset state, with the quirk profile of `platform`.
    pub fn new(platform: Platform) -> (r: Cpu)
        ensures
            r.wf(),
            r.quirks == spec_quirks(platform),
            r.state.pc == 0x200,
            r.state.i == 0,
            r.state.sp == 0,
            !r.state.paused,
            r.state.waiting_for_key is None,
            !r.state.waiting_for_vblank,
            forall|k: int| 0 <= k < 16 ==> r.state.v@[k] == 0,
            forall|k: int| 0 <= k < 16 ==> r.state.stack@[k] == 0,
            forall|k: int| 0 <= k < FRAME_WIDTH * FRAME_HEIGHT ==> !r.state.frame_buffer@[k],
            forall|k: int| 0 <= k < 16 ==> !r.state.keypad_state.view()[k],
    {
        Cpu { state: CpuState::new(), quirks: CpuQuirks::from_platform(platform) }
    }
}

/// One decoded CHIP-8 instruction.
#[derive(Clone, Copy, Debug, PartialEq, Eq, Structural)]
pub enum Instruction {
    /// 0NNN: jump to NNN (treated as a jump by this interpreter).
    Sys(usize),
    /// 00E0: clear the frame buffer and emit a frame.
    Cls,
    /// 00EE: return from a subroutine.
    Return,
    /// 1NNN: jump to NNN.
    Jump(usize),
    /// 2NNN: call the subroutine at NNN.
    Call(usize),
    /// 3XNN: skip the next instruction when V[X] equals NN.
    SkipIfVImmediate(usize, u8),
    /// 4XNN: skip the next instruction when V[X] differs from NN.
    SkipIfNotVImmediate(usize, u8),
    /// 5XY0: skip the next instruction when V[X] equals V[Y].
    SkipIfCmp(usize, usize),
    /// 6XNN: load NN into V[X].
    LoadVImmediate(usize, u8),
    /// 7XNN: add NN to V[X], wrapping, without touching the flag.
    AddVImmediate(usize, u8),
    /// 8XY0: copy V[Y] into V[X].
    LoadV(usize, usize),
    /// 8XY1: bitwise or.
    Or(usize, usize),
    /// 8XY2: bitwise and.
    And(usize, usize),
    /// 8XY3: bitwise exclusive or.
    Xor(usize, usize),
    /// 8XY4: add with carry flag.
    Add(usize, usize),
    /// 8XY5: subtract with no-borrow flag.
    Sub(usize, usize),
    /// 8XY6: shift right; the flag takes the bit shifted out.
    ShiftRight(usize, usize),
    /// 8XY7: reversed subtract with no-borrow flag.
    SubN(usize, usize),
    /// 8XYE: shift left; the flag takes the bit shifted out.
    ShiftLeft(usize, usize),
    /// 9XY0: skip the next instruction when V[X] differs from V[Y].
    SkipIfNotCmp(usize, usize),
    /// ANNN: load NNN into the index register.
    LoadIImmediate(usize),
    /// BNNN: jump to V[0] + NNN (or V[high nibble] + NNN under the quirk).
    JumpV0(usize),
    /// CXNN: load a random byte masked with NN into V[X].
    Random(usize, u8),
    /// DXYN: draw an 8 by N sprite at (V[X], V[Y]) with collision flag.
    Draw(usize, usize, usize),
    /// EX9E: skip the next instruction when the key in V[X] is pressed.
    SkipIfKey(usize),
    /// EXA1: skip the next instruction when the key in V[X] is released.
    SkipIfNotKey(usize),
    /// FX07: load the delay timer into V[X].
    LoadVDT(usize),
    /// FX0A: suspend fetching until a key release fills V[X].
    WaitAndLoadKeypress(usize),
    /// FX15: load V[X] into the delay timer.
    LoadDTV(usize),
    /// FX18: load V[X] into the sound timer.
    LoadSTV(usize),
    /// FX1E: add V[X] to the index register, wrapping.
    AddIV(usize),
    /// FX29: point the index register at the font glyph for V[X].
    LoadFontV(usize),
    /// FX33: store the decimal digits of V[X] at I, I+1, I+2.
    StoreBCDV(usize),
    /// FX55: store V[0] through V[X] at I onward.
    StoreAllV(usize),
    /// FX65: load V[0] through V[X] from I onward.
    LoadAllV(usize),
    /// Anything the decoder does not recognise, with the opcode word.
    Unknown(u16),
}

/// The instruction a 16-bit opcode word decodes to, nibble-addressed as in
/// the CHIP-8 instruction table.
pub open spec fn spec_decode(value: u16) -> Instruction {
    let x = ((value >> 8) & 0xF) as usize;
    let y = ((value >> 4) & 0xF) as usize;
    let n = (value & 0xF) as usize;
    let nn = (value & 0xFF) as u8;
    let nnn = (value & 0xFFF) as usize;
    if value == 0x00E0 {
        Instruction::Cls
    } else if value == 0x00EE {
        Instruction::Return
    } else if value >> 12 == 0x0 {
        Instruction::Sys(nnn)
    } else if value >> 12 == 0x1 {
        Instruction::Jump(nnn)
    } else if value >> 12 == 0x2 {
        Instruction::Call(nnn)
    } else if value >> 12 == 0x3 {
        Instruction::SkipIfVImmediate(x, nn)
    } else if value >> 12 == 0x4 {
        Instruction::SkipIfNotVImmediate(x, nn)
    } else if value >> 12 == 0x5 {
        if value & 0xF == 0x0 {
            Instruction::SkipIfCmp(x, y)
        } else {
            Instruction::Unknown(value)
        }
    } else if value >> 12 == 0x6 {
        Instruction::LoadVImmediate(x, nn)
    } else if value >> 12 == 0x7 {
        Instruction::AddVImmediate(x, nn)
    } else if value >> 12 == 0x8 {
        if value & 0xF == 0x0 {
            Instruction::LoadV(x, y)
        } else if value & 0xF == 0x1 {
            Instruction::Or(x, y)
        } else if value & 0xF == 0x2 {
            Instruction::And(x, y)
        } else if value & 0xF == 0x3 {
            Instruction::Xor(x, y)
        } else if value & 0xF == 0x4 {
            Instruction::Add(x, y)
        } else if value & 0xF == 0x5 {
            Instruction::Sub(x, y)
        } else if value & 0xF == 0x6 {
            Instruction::ShiftRight(x, y)
        } else if value & 0xF == 0x7 {
            Instruction::SubN(x, y)
        } else if value & 0xF == 0xE {
            Instruction::ShiftLeft(x, y)
        } else {
            Instruction::Unknown(value)
        }
    } else if value >> 12 == 0x9 {
        if value & 0xF == 0x0 {
            Instruction::SkipIfNotCmp(x, y)
        } else {
            Instruction::Unknown(value)
        }
    } else if value >> 12 == 0xA {
        Instruction::LoadIImmediate(nnn)
    } else if value >> 12 == 0xB {
        Instruction::JumpV0(nnn)
    } else if value >> 12 == 0xC {
        Instruction::Random(x, nn)
    } else if value >> 12 == 0xD {
        Instruction::Draw(x, y, n)
    } else if value >> 12 == 0xE {
        if value & 0xFF == 0x9E {
            Instruction::SkipIfKey(x)
        } else if value & 0xFF == 0xA1 {
            Instruction::SkipIfNotKey(x)
        } else {
            Instruction::Unknown(value)
        }
    } else if value >> 12 == 0xF {
        if value & 0xFF == 0x07 {
            Instruction::LoadVDT(x)
        } else if value & 0xFF == 0x0A {
            Instruction::WaitAndLoadKeypress(x)
        } else if value & 0xFF == 0x15 {
            Instruction::LoadDTV(x)
        } else if value & 0xFF == 0x18 {
            Instruction::LoadSTV(x)
        } else if value & 0xFF == 0x1E {
            Instruction::AddIV(x)
        } else if value & 0xFF == 0x29 {
            Instruction::LoadFontV(x)
        } else if value & 0xFF == 0x33 {
            Instruction::StoreBCDV(x)
        } else if value & 0xFF == 0x55 {
            Instruction::StoreAllV(x)
        } else if value & 0xFF == 0x65 {
            Instruction::LoadAllV(x)
        } else {
            Instruction::Unknown(value)
        }
    } else {
        Instruction::Unknown(value)
    }
}

impl Instruction {
    /// Decodes a 16-bit opcode word.
    pub fn decode(value: u16) -> (r: Instruction)
        ensures
            r == spec_decode(value),
    {
        proof {
            assert(value & 0xFF < 256) by (bit_vector);
            assert(value >> 12 <= 0xF) by (bit_vector);
            assert(value == 0x00E0 ==> value >> 12 == 0x0) by (bit_vector);
            assert(value == 0x00EE ==> value >> 12 == 0x0) by (bit_vector);
        }
        let x = ((value >> 8) & 0xF) as usize;
        let y = ((value >> 4) & 0xF) as usize;
        let n = (value & 0xF) as usize;
        let nn = (value & 0xFF) as u8;
        let nnn = (value & 0xFFF) as usize;
        match value >> 12 {
            0x0 => {
                if value == 0x00E0 {
                    Instruction::Cls
                } else if value == 0x00EE {
                    Instruction::Return
                } else {
                    Instruction::Sys(nnn)
                }
            },
            0x1 => Instruction::Jump(nnn),
            0x2 => Instruction::Call(nnn),
            0x3 => Instruction::SkipIfVImmediate(x, nn),
            0x4 => Instruction::SkipIfNotVImmediate(x, nn),
            0x5 => match value & 0xF {
                0x0 => Instruction::SkipIfCmp(x, y),
                _ => Instruction::Unknown(value),
            },
            0x6 => Instruction::LoadVImmediate(x, nn),
            0x7 => Instruction::AddVImmediate(x, nn),
            0x8 => match value & 0xF {
                0x0 => Instruction::LoadV(x, y),
                0x1 => Instruction::Or(x, y),
                0x2 => Instruction::And(x, y),
                0x3 => Instruction::Xor(x, y),
                0x4 => Instruction::Add(x, y),
                0x5 => Instruction::Sub(x, y),
                0x6 => Instruction::ShiftRight(x, y),
                0x7 => Instruction::SubN(x, y),
                0xE => Instruction::ShiftLeft(x, y),
                _ => Instruction::Unknown(value),
            },
            0x9 => match value & 0xF {
                0x0 => Instruction::SkipIfNotCmp(x, y),
                _ => Instruction::Unknown(value),
            },
            0xA => Instruction::LoadIImmediate(nnn),
            0xB => Instruction::JumpV0(nnn),
            0xC => Instruction::Random(x, nn),
            0xD => Instruction::Draw(x, y, n),
            0xE => match value & 0xFF {
                0x9E => Instruction::SkipIfKey(x),
                0xA1 => Instruction::SkipIfNotKey(x),
                _ => Instruction::Unknown(value),
            },
            0xF => match value & 0xFF {
                0x07 => Instruction::LoadVDT(x),
                0x0A => Instruction::WaitAndLoadKeypress(x),
                0x15 => Instruction::LoadDTV(x),
                0x18 => Instruction::LoadSTV(x),
                0x1E => Instruction::AddIV(x),
                0x29 => Instruction::LoadFontV(x),
                0x33 => Instruction::StoreBCDV(x),
                0x55 => Instruction::StoreAllV(x),
                0x65 => Instruction::LoadAllV(x),
                _ => Instruction::Unknown(value),
            },
            _ => Instruction::Unknown(value),
        }
    }
}


/// The program counter after the usual two-byte advance, wrapping at the
/// end of the address space.
pub open spec fn spec_pc_plus_2(pc: u16) -> u16 {
    (((pc as int) + 2) % 0x10000) as u16
}

/// Whether an instruction's fields are in range: register indices below
/// sixteen, addresses below 0x1000, sprite heights below sixteen.  The
/// decoder only produces such instructions.
pub open spec fn instr_wf(instr: Instruction) -> bool {
    match instr {
        Instruction::Sys(a) => a < 0x1000,
        Instruction::Cls => true,
        Instruction::Return => true,
        Instruction::Jump(a) => a < 0x1000,
        Instruction::Call(a) => a < 0x1000,
        Instruction::SkipIfVImmediate(x, _) => x < 16,
        Instruction::SkipIfNotVImmediate(x, _) => x < 16,
        Instruction::SkipIfCmp(x, y) => x < 16 && y < 16,
        Instruction::LoadVImmediate(x, _) => x < 16,
        Instruction::AddVImmediate(x, _) => x < 16,
        Instruction::LoadV(x, y) => x < 16 && y < 16,
        Instruction::Or(x, y) => x < 16 && y < 16,
        Instruction::And(x, y) => x < 16 && y < 16,
        Instruction::Xor(x, y) => x < 16 && y < 16,
        Instruction::Add(x, y) => x < 16 && y < 16,
        Instruction::Sub(x, y) => x < 16 && y < 16,
        Instruction::ShiftRight(x, y) => x < 16 && y < 16,
        Instruction::SubN(x, y) => x < 16 && y < 16,
        Instruction::ShiftLeft(x, y) => x < 16 && y < 16,
        Instruction::SkipIfNotCmp(x, y) => x < 16 && y < 16,
        Instruction::LoadIImmediate(a) => a < 0x1000,
        Instruction::JumpV0(a) => a < 0x1000,
        Instruction::Random(x, _) => x < 16,
        Instruction::Draw(x, y, n) => x < 16 && y < 16 && n < 16,
        Instruction::SkipIfKey(x) => x < 16,
        Instruction::SkipIfNotKey(x) => x < 16,
        Instruction::LoadVDT(x) => x < 16,
        Instruction::WaitAndLoadKeypress(x) => x < 16,
        Instruction::LoadDTV(x) => x < 16,
        Instruction::LoadSTV(x) => x < 16,
        Instruction::AddIV(x) => x < 16,
        Instruction::LoadFontV(x) => x < 16,
        Instruction::StoreBCDV(x) => x < 16,
        Instruction::StoreAllV(x) => x < 16,
        Instruction::LoadAllV(x) => x < 16,
        Instruction::Unknown(_) => true,
    }
}

/// The decoder only produces well-formed instructions.
pub proof fn lemma_decode_wf(value: u16)
    ensures
        instr_wf(spec_decode(value)),
{
    assert((value >> 8) & 0xF < 16 && (value >> 4) & 0xF < 16 && value & 0xF < 16 && value
        & 0xFFF < 0x1000) by (bit_vector);
}

/// All CPU state fields except the program counter agree.
pub open spec fn same_but_pc(s: CpuState, t: CpuState) -> bool {
    &&& t.v@ == s.v@
    &&& t.i == s.i
    &&& t.sp == s.sp
    &&& t.stack@ == s.stack@
    &&& t.paused == s.paused
    &&& t.waiting_for_key == s.waiting_for_key
    &&& t.waiting_for_vblank == s.waiting_for_vblank
    &&& t.frame_buffer@ == s.frame_buffer@
    &&& t.keypad_state == s.keypad_state
}

/// All CPU state fields except the general registers agree.
pub open spec fn same_but_v(s: CpuState, t: CpuState) -> bool {
    &&& t.i == s.i
    &&& t.pc == s.pc
    &&& t.sp == s.sp
    &&& t.stack@ == s.stack@
    &&& t.paused == s.paused
    &&& t.waiting_for_key == s.waiting_for_key
    &&& t.waiting_for_vblank == s.waiting_for_vblank
    &&& t.frame_buffer@ == s.frame_buffer@
    &&& t.keypad_state == s.keypad_state
}

/// All CPU state fields except the index register agree.
pub open spec fn same_but_i(s: CpuState, t: CpuState) -> bool {
    &&& t.v@ == s.v@
    &&& t.pc == s.pc
    &&& t.sp == s.sp
    &&& t.stack@ == s.stack@
    &&& t.paused == s.paused
    &&& t.waiting_for_key == s.waiting_for_key
    &&& t.waiting_for_vblank == s.waiting_for_vblank
    &&& t.frame_buffer@ == s.frame_buffer@
    &&& t.keypad_state == s.keypad_state
}

/// All CPU state fields except the program counter, stack pointer and
/// stack agree.
pub open spec fn same_but_pc_sp_stack(s: CpuState, t: CpuState) -> bool {
    &&& t.v@ == s.v@
    &&& t.i == s.i
    &&& t.paused == s.paused
    &&& t.waiting_for_key == s.waiting_for_key
    &&& t.waiting_for_vblank == s.waiting_for_vblank
    &&& t.frame_buffer@ == s.frame_buffer@
    &&& t.keypad_state == s.keypad_state
}

/// All CPU state fields except the general registers and the index
/// register agree.
pub open spec fn same_but_v_i(s: CpuState, t: CpuState) -> bool {
    &&& t.pc == s.pc
    &&& t.sp == s.sp
    &&& t.stack@ == s.stack@
    &&& t.paused == s.paused
    &&& t.waiting_for_key == s.waiting_for_key
    &&& t.waiting_for_vblank == s.waiting_for_vblank
    &&& t.frame_buffer@ == s.frame_buffer@
    &&& t.keypad_state == s.keypad_state
}

/// All CPU state fields except the frame buffer agree.
pub open spec fn same_but_fb(s: CpuState, t: CpuState) -> bool {
    &&& t.v@ == s.v@
    &&& t.i == s.i
    &&& t.pc == s.pc
    &&& t.sp == s.sp
    &&& t.stack@ == s.stack@
    &&& t.paused == s.paused
    &&& t.waiting_for_key == s.waiting_for_key
    &&& t.waiting_for_vblank == s.waiting_for_vblank
    &&& t.keypad_state == s.keypad_state
}

/// All CPU state fields except the registers, the frame buffer and the
/// draw-wait flag agree.
pub open spec fn same_but_v_fb_wvb(s: CpuState, t: CpuState) -> bool {
    &&& t.i == s.i
    &&& t.pc == s.pc
    &&& t.sp == s.sp
    &&& t.stack@ == s.stack@
    &&& t.paused == s.paused
    &&& t.waiting_for_key == s.waiting_for_key
    &&& t.keypad_state == s.keypad_state
}

/// All CPU state fields except the key-wait register agree.
pub open spec fn same_but_wk(s: CpuState, t: CpuState) -> bool {
    &&& t.v@ == s.v@
    &&& t.i == s.i
    &&& t.pc == s.pc
    &&& t.sp == s.sp
    &&& t.stack@ == s.stack@
    &&& t.paused == s.paused
    &&& t.waiting_for_vblank == s.waiting_for_vblank
    &&& t.frame_buffer@ == s.frame_buffer@
    &&& t.keypad_state == s.keypad_state
}

/// Whether `f` renders the frame buffer `fb`: a 64 by 32 frame whose lit
/// cells are white and whose dark cells are opaque black.
pub open spec fn is_frame_of(f: Frame, fb: Seq<bool>) -> bool {
    &&& f.width == FRAME_WIDTH
    &&& f.height == FRAME_HEIGHT
    &&& f.data@.len() == FRAME_WIDTH * FRAME_HEIGHT
    &&& forall|i: int|
        0 <= i < fb.len() && i < f.data@.len() ==> f.data@[i] == (if fb[i] {
            (255u8, 255u8, 255u8, 255u8)
        } else {
            (0u8, 0u8, 0u8, 255u8)
        })
}

/// Whether `post` is `pre` with one frame rendering `fb` pushed onto the
/// frame channel at `pre`'s clock, and nothing else changed.
pub open spec fn frame_pushed(pre: Backend, post: Backend, fb: Seq<bool>) -> bool {
    &&& post == (Backend { frames: post.frames, ..pre })
    &&& post.frames.spec_max_size() == pre.frames.spec_max_size()
    &&& post.frames.view().len() > 0
    &&& {
        let last = post.frames.view().last();
        last.0 == pre.clock && is_frame_of(last.1, fb)
    }
}

/// Whether the sprite row byte `row` lights the pixel in bit column `c`
/// (column 0 is the most significant bit).
pub open spec fn sprite_pixel(row: u8, c: int) -> bool {
    (row >> ((7 - c) as u8)) & 1 == 1
}

/// The frame buffer after XOR-drawing the sprite `rows` at `(sx, sy)`:
/// cells under the sprite are flipped where the sprite is lit, without
/// wrapping at the right or bottom edge; every other cell is untouched.
pub open spec fn spec_draw_fb(fb: Seq<bool>, sx: int, sy: int, rows: Seq<u8>) -> Seq<bool> {
    Seq::new(
        fb.len(),
        |i: int|
            {
                let y = i / 64;
                let x = i % 64;
                if sy <= y < sy + rows.len() && sx <= x < sx + 8 {
                    fb[i] != sprite_pixel(rows[y - sy], x - sx)
                } else {
                    fb[i]
                }
            },
    )
}

/// Whether XOR-drawing the sprite `rows` at `(sx, sy)` erases some lit
/// cell: the collision that sets the flag register.
pub open spec fn spec_draw_collision(fb: Seq<bool>, sx: int, sy: int, rows: Seq<u8>) -> bool {
    exists|y: int, x: int|
        sy <= y < sy + rows.len() && sx <= x < sx + 8 && x < 64 && #[trigger] fb[y * 64 + x]
            && sprite_pixel(rows[y - sy], x - sx)
}

/// The index register after the FX55 / FX65 update rule.
pub open spec fn spec_i_update(q: CpuQuirks, i: u16, x: int) -> u16 {
    if q.quirks_loadstore_leaves_i_unmodified {
        i
    } else if q.quirks_loadstore_modifies_i_one_less {
        (((i as int) + x) % 0x10000) as u16
    } else {
        (((i as int) + x + 1) % 0x10000) as u16
    }
}

/// What executing one instruction does: how the CPU state `t` and backend
/// `post_b` with result `r` relate to the starting state `s`, quirks `q`
/// and backend `pre_b`.  This is the CHIP-8 instruction table.
pub open spec fn instruction_effect(
    instr: Instruction,
    q: CpuQuirks,
    s: CpuState,
    pre_b: Backend,
    t: CpuState,
    post_b: Backend,
    r: Result<(), Error>,
) -> bool {
    match instr {
        Instruction::Sys(a) => r is Ok && post_b == pre_b && same_but_pc(s, t) && t.pc == a as u16,
        Instruction::Cls => {
            &&& r is Ok
            &&& same_but_fb(s, t)
            &&& t.frame_buffer@ == Seq::new(s.frame_buffer@.len(), |i: int| false)
            &&& frame_pushed(pre_b, post_b, t.frame_buffer@)
        },
        Instruction::Return => {
            &&& r is Ok
            &&& post_b == pre_b
            &&& same_but_pc_sp_stack(s, t)
            &&& t.stack@ == s.stack@
            &&& t.sp == (if s.sp > 0 {
                (s.sp - 1) as u8
            } else {
                0u8
            })
            &&& t.pc == s.stack@[t.sp as int]
        },
        Instruction::Jump(a) => r is Ok && post_b == pre_b && same_but_pc(s, t) && t.pc == a as u16,
        Instruction::Call(a) => {
            if s.sp < 16 {
                &&& r is Ok
                &&& post_b == pre_b
                &&& same_but_pc_sp_stack(s, t)
                &&& t.stack@ == s.stack@.update(s.sp as int, s.pc)
                &&& t.sp == s.sp + 1
                &&& t.pc == a as u16
            } else {
                &&& (r matches Err(e) && e matches Error::Emulator(k, _) && k
                    == EmulatorErrorKind::Misc)
                &&& post_b == pre_b
                &&& t == s
            }
        },
        Instruction::SkipIfVImmediate(x, nn) => {
            &&& r is Ok
            &&& post_b == pre_b
            &&& same_but_pc(s, t)
            &&& t.pc == (if s.v@[x as int] == nn {
                spec_pc_plus_2(s.pc)
            } else {
                s.pc
            })
        },
        Instruction::SkipIfNotVImmediate(x, nn) => {
            &&& r is Ok
            &&& post_b == pre_b
            &&& same_but_pc(s, t)
            &&& t.pc == (if s.v@[x as int] != nn {
                spec_pc_plus_2(s.pc)
            } else {
                s.pc
            })
        },
        Instruction::SkipIfCmp(x, y) => {
            &&& r is Ok
            &&& post_b == pre_b
            &&& same_but_pc(s, t)
            &&& t.pc == (if s.v@[x as int] == s.v@[y as int] {
                spec_pc_plus_2(s.pc)
            } else {
                s.pc
            })
        },
        Instruction::LoadVImmediate(x, nn) => {
            &&& r is Ok
            &&& post_b == pre_b
            &&& same_but_v(s, t)
            &&& t.v@ == s.v@.update(x as int, nn)
        },
        Instruction::AddVImmediate(x, nn) => {
            &&& r is Ok
            &&& post_b == pre_b
            &&& same_but_v(s, t)
            &&& t.v@ == s.v@.update(x as int, ((s.v@[x as int] + nn) % 256) as u8)
        },
        Instruction::LoadV(x, y) => {
            &&& r is Ok
            &&& post_b == pre_b
            &&& same_but_v(s, t)
            &&& t.v@ == s.v@.update(x as int, s.v@[y as int])
        },
        Instruction::Or(x, y) => {
            &&& r is Ok
            &&& post_b == pre_b
            &&& same_but_v(s, t)
            &&& {
                let base = s.v@.update(x as int, s.v@[x as int] | s.v@[y as int]);
                t.v@ == (if q.quirks_logic_leaves_flag_unmodified {
                    base
                } else {
                    base.update(15, 0u8)
                })
            }
        },
        Instruction::And(x, y) => {
            &&& r is Ok
            &&& post_b == pre_b
            &&& same_but_v(s, t)
            &&& {
                let base = s.v@.update(x as int, s.v@[x as int] & s.v@[y as int]);
                t.v@ == (if q.quirks_logic_leaves_flag_unmodified {
                    base
                } else {
                    base.update(15, 0u8)
                })
            }
        },
        Instruction::Xor(x, y) => {
            &&& r is Ok
            &&& post_b == pre_b
            &&& same_but_v(s, t)
            &&& {
                let base = s.v@.update(x as int, s.v@[x as int] ^ s.v@[y as int]);
                t.v@ == (if q.quirks_logic_leaves_flag_unmodified {
                    base
                } else {
                    base.update(15, 0u8)
                })
            }
        },
        Instruction::Add(x, y) => {
            &&& r is Ok
            &&& post_b == pre_b
            &&& same_but_v(s, t)
            &&& {
                let sum = s.v@[x as int] + s.v@[y as int];
                t.v@ == s.v@.update(x as int, (sum % 256) as u8).update(
                    15,
                    (if sum > 255 {
                        1u8
                    } else {
                        0u8
                    }),
                )
            }
        },
        Instruction::Sub(x, y) => {
            &&& r is Ok
            &&& post_b == pre_b
            &&& same_but_v(s, t)
            &&& {
                let vx = s.v@[x as int];
                let vy = s.v@[y as int];
                let res = if vx >= vy {
                    (vx - vy) as u8
                } else {
                    (vx - vy + 256) as u8
                };
                t.v@ == s.v@.update(x as int, res).update(
                    15,
                    (if vx >= vy {
                        1u8
                    } else {
                        0u8
                    }),
                )
            }
        },
        Instruction::ShiftRight(x, y) => {
            &&& r is Ok
            &&& post_b == pre_b
            &&& same_but_v(s, t)
            &&& {
                let src = if q.quirks_shift_takes_x_instead_of_y {
                    s.v@[x as int]
                } else {
                    s.v@[y as int]
                };
                t.v@ == s.v@.update(x as int, (src / 2) as u8).update(15, (src % 2) as u8)
            }
        },
        Instruction::SubN(x, y) => {
            &&& r is Ok
            &&& post_b == pre_b
            &&& same_but_v(s, t)
            &&& {
                let vx = s.v@[x as int];
                let vy = s.v@[y as int];
                let res = if vy >= vx {
                    (vy - vx) as u8
                } else {
                    (vy - vx + 256) as u8
                };
                t.v@ == s.v@.update(x as int, res).update(
                    15,
                    (if vy >= vx {
                        1u8
                    } else {
                        0u8
                    }),
                )
            }
        },
        Instruction::ShiftLeft(x, y) => {
            &&& r is Ok
            &&& post_b == pre_b
            &&& same_but_v(s, t)
            &&& {
                let src = if q.quirks_shift_takes_x_instead_of_y {
                    s.v@[x as int]
                } else {
                    s.v@[y as int]
                };
                t.v@ == s.v@.update(x as int, ((src * 2) % 256) as u8).update(
                    15,
                    (src / 128) as u8,
                )
            }
        },
        Instruction::SkipIfNotCmp(x, y) => {
            &&& r is Ok
            &&& post_b == pre_b
            &&& same_but_pc(s, t)
            &&& t.pc == (if s.v@[x as int] != s.v@[y as int] {
                spec_pc_plus_2(s.pc)
            } else {
                s.pc
            })
        },
        Instruction::LoadIImmediate(a) => r is Ok && post_b == pre_b && same_but_i(s, t) && t.i
            == a as u16,
        Instruction::JumpV0(a) => {
            &&& r is Ok
            &&& post_b == pre_b
            &&& same_but_pc(s, t)
            &&& {
                let reg = if q.quirks_jump_uses_x {
                    (a as int / 256) % 16
                } else {
                    0
                };
                t.pc == (((s.v@[reg] + a) as int) % 0x10000) as u16
            }
        },
        Instruction::Random(x, nn) => {
            &&& r is Ok
            &&& post_b == pre_b
            &&& same_but_v(s, t)
            &&& exists|rb: u8| t.v@ == s.v@.update(x as int, #[trigger] (rb & nn))
        },
        Instruction::Draw(x, y, n) => {
            let sx = s.v@[x as int] as int % 64;
            let sy = s.v@[y as int] as int % 32;
            let visible = if n as int <= 32 - sy {
                n as int
            } else {
                32 - sy
            };
            let readable = forall|k: int|
                0 <= k < visible ==> #[trigger] pre_b.spec_bus_byte(s.i + k) is Some;
            if readable {
                &&& r is Ok
                &&& same_but_v_fb_wvb(s, t)
                &&& exists|rows: Seq<u8>|
                    #![trigger rows.len()]
                    {
                        &&& rows.len() == visible
                        &&& (forall|k: int|
                            0 <= k < visible ==> pre_b.spec_bus_byte(s.i + k) == Some(
                                #[trigger] rows[k],
                            ))
                        &&& t.frame_buffer@ == spec_draw_fb(s.frame_buffer@, sx, sy, rows)
                        &&& t.v@ == s.v@.update(
                            15,
                            (if spec_draw_collision(s.frame_buffer@, sx, sy, rows) {
                                1u8
                            } else {
                                0u8
                            }),
                        )
                    }
                &&& t.waiting_for_vblank == (if !q.quirks_draw_not_waiting_for_vblank {
                    true
                } else {
                    s.waiting_for_vblank
                })
                &&& frame_pushed(pre_b, post_b, t.frame_buffer@)
            } else {
                &&& (r matches Err(e) && e matches Error::Emulator(_, _))
                &&& post_b == pre_b
                &&& same_but_v(s, t)
                &&& t.v@ == s.v@.update(15, 0u8)
            }
        },
        Instruction::SkipIfKey(x) => {
            if s.v@[x as int] < 16 {
                &&& r is Ok
                &&& post_b == pre_b
                &&& same_but_pc(s, t)
                &&& t.pc == (if s.keypad_state.view()[s.v@[x as int] as int] {
                    spec_pc_plus_2(s.pc)
                } else {
                    s.pc
                })
            } else {
                &&& (r matches Err(e) && e matches Error::Emulator(k, _) && k
                    == EmulatorErrorKind::Misc)
                &&& post_b == pre_b
                &&& t == s
            }
        },
        Instruction::SkipIfNotKey(x) => {
            if s.v@[x as int] < 16 {
                &&& r is Ok
                &&& post_b == pre_b
                &&& same_but_pc(s, t)
                &&& t.pc == (if !s.keypad_state.view()[s.v@[x as int] as int] {
                    spec_pc_plus_2(s.pc)
                } else {
                    s.pc
                })
            } else {
                &&& (r matches Err(e) && e matches Error::Emulator(k, _) && k
                    == EmulatorErrorKind::Misc)
                &&& post_b == pre_b
                &&& t == s
            }
        },
        Instruction::LoadVDT(x) => {
            if pre_b.spec_bus_byte(DT_TIMER as int) is Some {
                &&& r is Ok
                &&& post_b == pre_b
                &&& same_but_v(s, t)
                &&& t.v@ == s.v@.update(x as int, pre_b.spec_bus_byte(DT_TIMER as int).unwrap())
            } else {
                &&& (r matches Err(e) && e matches Error::Emulator(k, _) && k
                    == EmulatorErrorKind::Misc)
                &&& post_b == pre_b
                &&& t == s
            }
        },
        Instruction::WaitAndLoadKeypress(x) => {
            &&& r is Ok
            &&& post_b == pre_b
            &&& same_but_wk(s, t)
            &&& t.waiting_for_key == Some(x as usize)
        },
        Instruction::LoadDTV(x) => {
            if pre_b.spec_bus_byte(DT_TIMER as int) is Some && pre_b.spec_bus_writable(
                DT_TIMER as int,
            ) {
                &&& r is Ok
                &&& t == s
                &&& same_structure(&pre_b, &post_b)
                &&& post_b.input == pre_b.input && post_b.frames == pre_b.frames && post_b.audio
                    == pre_b.audio && post_b.text == pre_b.text
                &&& post_b.spec_bus_byte(DT_TIMER as int) == Some(s.v@[x as int])
                &&& forall|a: int|
                    a != DT_TIMER ==> #[trigger] post_b.spec_bus_byte(a) == pre_b.spec_bus_byte(a)
            } else {
                &&& (r matches Err(e) && e matches Error::Emulator(_, _))
                &&& same_structure(&pre_b, &post_b)
                &&& post_b.input == pre_b.input && post_b.frames == pre_b.frames && post_b.audio
                    == pre_b.audio && post_b.text == pre_b.text
                &&& forall|a: int| #[trigger] post_b.spec_bus_byte(a) == pre_b.spec_bus_byte(a)
                &&& t == s
            }
        },
        Instruction::LoadSTV(x) => {
            if pre_b.spec_bus_byte(ST_TIMER as int) is Some && pre_b.spec_bus_writable(
                ST_TIMER as int,
            ) {
                &&& r is Ok
                &&& t == s
                &&& same_structure(&pre_b, &post_b)
                &&& post_b.input == pre_b.input && post_b.frames == pre_b.frames && post_b.audio
                    == pre_b.audio && post_b.text == pre_b.text
                &&& post_b.spec_bus_byte(ST_TIMER as int) == Some(s.v@[x as int])
                &&& forall|a: int|
                    a != ST_TIMER ==> #[trigger] post_b.spec_bus_byte(a) == pre_b.spec_bus_byte(a)
            } else {
                &&& (r matches Err(e) && e matches Error::Emulator(_, _))
                &&& same_structure(&pre_b, &post_b)
                &&& post_b.input == pre_b.input && post_b.frames == pre_b.frames && post_b.audio
                    == pre_b.audio && post_b.text == pre_b.text
                &&& forall|a: int| #[trigger] post_b.spec_bus_byte(a) == pre_b.spec_bus_byte(a)
                &&& t == s
            }
        },
        Instruction::AddIV(x) => {
            &&& r is Ok
            &&& post_b == pre_b
            &&& same_but_i(s, t)
            &&& t.i == (((s.i + s.v@[x as int]) as int) % 0x10000) as u16
        },
        Instruction::LoadFontV(x) => {
            &&& r is Ok
            &&& post_b == pre_b
            &&& same_but_i(s, t)
            &&& t.i == (FONT_BASE + s.v@[x as int] * 5) as u16
        },
        Instruction::StoreBCDV(x) => {
            let vx = s.v@[x as int];
            let writable = forall|k: int|
                0 <= k < 3 ==> (#[trigger] pre_b.spec_bus_byte(s.i + k)) is Some
                    && pre_b.spec_bus_writable(s.i + k);
            &&& t == s
            &&& same_structure(&pre_b, &post_b)
            &&& post_b.input == pre_b.input && post_b.frames == pre_b.frames && post_b.audio
                == pre_b.audio && post_b.text == pre_b.text
            &&& forall|a: int|
                !(s.i <= a < s.i + 3) ==> #[trigger] post_b.spec_bus_byte(a)
                    == pre_b.spec_bus_byte(a)
            &&& if writable {
                &&& r is Ok
                &&& post_b.spec_bus_byte(s.i as int) == Some(((vx / 100) % 10) as u8)
                &&& post_b.spec_bus_byte(s.i + 1) == Some(((vx / 10) % 10) as u8)
                &&& post_b.spec_bus_byte(s.i + 2) == Some((vx % 10) as u8)
            } else {
                r matches Err(e) && e matches Error::Emulator(_, _)
            }
        },
        Instruction::StoreAllV(x) => {
            let writable = forall|k: int|
                0 <= k <= x ==> (#[trigger] pre_b.spec_bus_byte(s.i + k)) is Some
                    && pre_b.spec_bus_writable(s.i + k);
            &&& same_structure(&pre_b, &post_b)
            &&& post_b.input == pre_b.input && post_b.frames == pre_b.frames && post_b.audio
                == pre_b.audio && post_b.text == pre_b.text
            &&& forall|a: int|
                !(s.i <= a <= s.i + x) ==> #[trigger] post_b.spec_bus_byte(a)
                    == pre_b.spec_bus_byte(a)
            &&& if writable {
                &&& r is Ok
                &&& forall|k: int|
                    0 <= k <= x ==> #[trigger] post_b.spec_bus_byte(s.i + k) == Some(s.v@[k])
                &&& same_but_i(s, t)
                &&& t.i == spec_i_update(q, s.i, x as int)
            } else {
                &&& (r matches Err(e) && e matches Error::Emulator(_, _))
                &&& t == s
            }
        },
        Instruction::LoadAllV(x) => {
            let readable = forall|k: int|
                0 <= k <= x ==> (#[trigger] pre_b.spec_bus_byte(s.i + k)) is Some;
            &&& post_b == pre_b
            &&& if readable {
                &&& r is Ok
                &&& same_but_v_i(s, t)
                &&& t.v@.len() == 16
                &&& forall|k: int|
                    0 <= k <= x ==> #[trigger] t.v@[k] == pre_b.spec_bus_byte(s.i + k).unwrap()
                &&& forall|k: int| x < k < 16 ==> #[trigger] t.v@[k] == s.v@[k]
                &&& t.i == spec_i_update(q, s.i, x as int)
            } else {
                &&& (r matches Err(e) && e matches Error::Emulator(_, _))
                &&& same_but_v_i(s, t)
                &&& t.i == s.i
                &&& t.v@.len() == 16
            }
        },
        Instruction::Unknown(op) => {
            &&& (r matches Err(e) && e matches Error::Emulator(k, m) && k
                == EmulatorErrorKind::UnknownOpcode && m@ == spec_opcode_hex(op))
            &&& post_b == pre_b
            &&& t == s
        },
    }
}


/// The collision witness restricted to the part of the sprite already
/// drawn: full rows below `yl`, and the first `cl` columns of row `yl`.
pub open spec fn partial_collision(
    fb: Seq<bool>,
    sx: int,
    sy: int,
    rows: Seq<u8>,
    yl: int,
    cl: int,
) -> bool {
    exists|y: int, x: int|
        sy <= y < sy + rows.len() && sx <= x < sx + 8 && x < 64 && (y - sy < yl || (y - sy == yl
            && x - sx < cl)) && #[trigger] fb[y * 64 + x] && sprite_pixel(rows[y - sy], x - sx)
}

/// Relies on rand::random: a uniformly random byte; nothing is promised
/// of the value.
#[verifier::external_body]
fn random_byte() -> u8 {
    rand::random()
}

/// The lowercase hexadecimal digit for a nibble value.
pub open spec fn spec_hex_digit(n: int) -> char {
    if n == 0 {
        '0'
    } else if n == 1 {
        '1'
    } else if n == 2 {
        '2'
    } else if n == 3 {
        '3'
    } else if n == 4 {
        '4'
    } else if n == 5 {
        '5'
    } else if n == 6 {
        '6'
    } else if n == 7 {
        '7'
    } else if n == 8 {
        '8'
    } else if n == 9 {
        '9'
    } else if n == 10 {
        'a'
    } else if n == 11 {
        'b'
    } else if n == 12 {
        'c'
    } else if n == 13 {
        'd'
    } else if n == 14 {
        'e'
    } else {
        'f'
    }
}

/// An opcode word rendered in hex: `0x` followed by its four nibbles as
/// lowercase digits, most significant first.
pub open spec fn spec_opcode_hex(op: u16) -> Seq<char> {
    seq![
        '0',
        'x',
        spec_hex_digit(op as int / 4096),
        spec_hex_digit((op as int / 256) % 16),
        spec_hex_digit((op as int / 16) % 16),
        spec_hex_digit(op as int % 16),
    ]
}

/// Relies on `format!` with the `{:#06x}` format over core::fmt: a `u16`
/// renders as `0x` followed by exactly four zero-padded lowercase hex
/// digits, most significant nibble first.
#[verifier::external_body]
fn format_opcode(op: u16) -> (r: String)
    ensures
        r@ == spec_opcode_hex(op),
{
    format!("{:#06x}", op)
}

/// XOR-draws the sprite `rows` at `(sx, sy)` into the frame buffer and
/// sets the flag register to 1 exactly when a lit cell was erased.
/// Nothing outside the sprite's clipped rectangle changes, and nothing
/// outside the frame buffer and the flag register changes at all.
fn draw_sprite(state: &mut CpuState, sx: usize, sy: usize, rows: &Vec<u8>)
    requires
        old(state).wf(),
        sx < 64,
        sy < 32,
        sy + rows@.len() <= 32,
    ensures
        final(state).wf(),
        final(state).frame_buffer@ == spec_draw_fb(old(state).frame_buffer@, sx as int, sy as int, rows@),
        final(state).v@ == old(state).v@.update(
            15,
            (if spec_draw_collision(old(state).frame_buffer@, sx as int, sy as int, rows@) {
                1u8
            } else {
                0u8
            }),
        ),
        final(state).i == old(state).i,
        final(state).pc == old(state).pc,
        final(state).sp == old(state).sp,
        final(state).stack@ == old(state).stack@,
        final(state).paused == old(state).paused,
        final(state).waiting_for_key == old(state).waiting_for_key,
        final(state).waiting_for_vblank == old(state).waiting_for_vblank,
        final(state).keypad_state == old(state).keypad_state,
{
    let ghost fb0 = state.frame_buffer@;
    let mut collision: bool = false;
    let height = rows.len();
    let cmax: usize = if sx + 8 <= 64 {
        8
    } else {
        64 - sx
    };
    let mut y: usize = 0;
    while y < height
        invariant
            state.wf(),
            sx < 64,
            sy < 32,
            y <= height,
            height == rows@.len(),
            sy + height <= 32,
            cmax == (if sx + 8 <= 64 {
                8int
            } else {
                64 - sx
            }),
            state.frame_buffer@.len() == fb0.len(),
            fb0.len() == 2048,
            state.v@ == old(state).v@,
            state.i == old(state).i,
            state.pc == old(state).pc,
            state.sp == old(state).sp,
            state.stack@ == old(state).stack@,
            state.paused == old(state).paused,
            state.waiting_for_key == old(state).waiting_for_key,
            state.waiting_for_vblank == old(state).waiting_for_vblank,
            state.keypad_state == old(state).keypad_state,
            fb0 == old(state).frame_buffer@,
            forall|i: int|
                0 <= i < 2048 ==> #[trigger] state.frame_buffer@[i] == (if sy <= i / 64 < sy + y
                    && sx <= i % 64 < sx + cmax {
                    fb0[i] != sprite_pixel(rows@[i / 64 - sy], i % 64 - sx)
                } else {
                    fb0[i]
                }),
            collision == partial_collision(fb0, sx as int, sy as int, rows@, y as int, 0),
        decreases height - y,
    {
        let row = rows[y];
        let mut c: usize = 0;
        while c < cmax
            invariant
                state.wf(),
                sx < 64,
                sy < 32,
                y < height,
                c <= cmax,
                height == rows@.len(),
                sy + height <= 32,
                row == rows@[y as int],
                cmax == (if sx + 8 <= 64 {
                    8int
                } else {
                    64 - sx
                }),
                state.frame_buffer@.len() == fb0.len(),
                fb0.len() == 2048,
                state.v@ == old(state).v@,
                state.i == old(state).i,
                state.pc == old(state).pc,
                state.sp == old(state).sp,
                state.stack@ == old(state).stack@,
                state.paused == old(state).paused,
                state.waiting_for_key == old(state).waiting_for_key,
                state.waiting_for_vblank == old(state).waiting_for_vblank,
                state.keypad_state == old(state).keypad_state,
                fb0 == old(state).frame_buffer@,
                forall|i: int|
                    0 <= i < 2048 ==> #[trigger] state.frame_buffer@[i] == (if (sy <= i / 64 < sy
                        + y && sx <= i % 64 < sx + cmax) || (i / 64 == sy + y && sx <= i % 64 < sx
                        + c) {
                        fb0[i] != sprite_pixel(rows@[i / 64 - sy], i % 64 - sx)
                    } else {
                        fb0[i]
                    }),
                collision == partial_collision(fb0, sx as int, sy as int, rows@, y as int, c as int),
            decreases cmax - c,
        {
            let idx = (sy + y) * 64 + (sx + c);
            proof {
                vstd::arithmetic::div_mod::lemma_fundamental_div_mod_converse(
                    idx as int,
                    64,
                    (sy + y) as int,
                    (sx + c) as int,
                );
            }
            let shift: u8 = (7 - c) as u8;
            let new_pixel = ((row >> shift) & 1) == 1;
            let old_pixel = state.frame_buffer[idx];
            let ghost fb_before = state.frame_buffer@;
            state.frame_buffer[idx] = new_pixel != old_pixel;
            let ghost coll_before = collision;
            if new_pixel && old_pixel {
                collision = true;
            }
            proof {
                assert forall|i: int| 0 <= i < 2048 implies #[trigger] state.frame_buffer@[i] == (
                if (sy <= i / 64 < sy + y && sx <= i % 64 < sx + cmax) || (i / 64 == sy + y && sx
                    <= i % 64 < sx + c + 1) {
                    fb0[i] != sprite_pixel(rows@[i / 64 - sy], i % 64 - sx)
                } else {
                    fb0[i]
                }) by {
                    vstd::arithmetic::div_mod::lemma_fundamental_div_mod(i, 64);
                    if i != idx {
                        assert(state.frame_buffer@[i] == fb_before[i]);
                    } else {
                        assert(fb_before[i] == fb0[i]);
                    }
                }
                let yy = (sy + y) as int;
                let xx = (sx + c) as int;
                if new_pixel && old_pixel {
                    assert(fb0[yy * 64 + xx] && sprite_pixel(rows@[yy - sy], xx - sx));
                    assert(partial_collision(
                        fb0,
                        sx as int,
                        sy as int,
                        rows@,
                        y as int,
                        c as int + 1,
                    ));
                } else {
                    if partial_collision(fb0, sx as int, sy as int, rows@, y as int, c as int + 1) {
                        let (wy, wx) = choose|wy: int, wx: int|
                            sy <= wy < sy + rows@.len() && sx <= wx < sx + 8 && wx < 64 && (wy - sy
                                < y || (wy - sy == y && wx - sx < c + 1)) && #[trigger] fb0[wy * 64
                                + wx] && sprite_pixel(rows@[wy - sy], wx - sx);
                        if wy - sy < y || (wy - sy == y && wx - sx < c) {
                            assert(partial_collision(
                                fb0,
                                sx as int,
                                sy as int,
                                rows@,
                                y as int,
                                c as int,
                            ));
                        } else {
                            assert(wy == yy && wx == xx);
                            assert(fb0[yy * 64 + xx] == old_pixel);
                            assert(sprite_pixel(rows@[yy - sy], xx - sx) == new_pixel);
                        }
                    }
                    assert(collision == partial_collision(
                        fb0,
                        sx as int,
                        sy as int,
                        rows@,
                        y as int,
                        c as int + 1,
                    ));
                }
            }
            c = c + 1;
        }
        proof {
            assert forall|i: int| 0 <= i < 2048 implies #[trigger] state.frame_buffer@[i] == (
            if sy <= i / 64 < sy + y + 1 && sx <= i % 64 < sx + cmax {
                fb0[i] != sprite_pixel(rows@[i / 64 - sy], i % 64 - sx)
            } else {
                fb0[i]
            }) by {
                vstd::arithmetic::div_mod::lemma_fundamental_div_mod(i, 64);
            }
            if collision {
                assert(partial_collision(fb0, sx as int, sy as int, rows@, y as int + 1, 0));
            }
            if partial_collision(fb0, sx as int, sy as int, rows@, y as int + 1, 0) {
                let (wy, wx) = choose|wy: int, wx: int|
                    sy <= wy < sy + rows@.len() && sx <= wx < sx + 8 && wx < 64 && (wy - sy < y + 1
                        || (wy - sy == y + 1 && wx - sx < 0)) && #[trigger] fb0[wy * 64 + wx]
                        && sprite_pixel(rows@[wy - sy], wx - sx);
                if wy - sy < y {
                    assert(partial_collision(fb0, sx as int, sy as int, rows@, y as int, 0));
                } else {
                    assert(wy - sy == y);
                    assert(wx - sx < cmax);
                    assert(partial_collision(
                        fb0,
                        sx as int,
                        sy as int,
                        rows@,
                        y as int,
                        (wx - sx) as int + 1,
                    ));
                    assert(partial_collision(
                        fb0,
                        sx as int,
                        sy as int,
                        rows@,
                        y as int,
                        cmax as int,
                    ));
                }
            }
            assert(collision == partial_collision(fb0, sx as int, sy as int, rows@, y as int + 1, 0));
        }
        y = y + 1;
    }
    let flag: u8 = if collision {
        1
    } else {
        0
    };
    state.v[15] = flag;
    proof {
        assert(state.frame_buffer@ =~= spec_draw_fb(fb0, sx as int, sy as int, rows@)) by {
            assert forall|i: int| 0 <= i < 2048 implies state.frame_buffer@[i] == spec_draw_fb(
                fb0,
                sx as int,
                sy as int,
                rows@,
            )[i] by {
                vstd::arithmetic::div_mod::lemma_fundamental_div_mod(i, 64);
            }
        }
        if collision {
            let (wy, wx) = choose|wy: int, wx: int|
                sy <= wy < sy + rows@.len() && sx <= wx < sx + 8 && wx < 64 && (wy - sy < height
                    || (wy - sy == height && wx - sx < 0)) && #[trigger] fb0[wy * 64 + wx]
                    && sprite_pixel(rows@[wy - sy], wx - sx);
            assert(spec_draw_collision(fb0, sx as int, sy as int, rows@));
        }
        if spec_draw_collision(fb0, sx as int, sy as int, rows@) {
            let (wy, wx) = choose|wy: int, wx: int|
                sy <= wy < sy + rows@.len() && sx <= wx < sx + 8 && wx < 64 && #[trigger] fb0[wy
                    * 64 + wx] && sprite_pixel(rows@[wy - sy], wx - sx);
            assert(partial_collision(fb0, sx as int, sy as int, rows@, height as int, 0));
        }
    }
}

/// Renders the frame buffer and pushes it, stamped with the backend's
/// current clock, onto the backend's frame channel.
fn send_frame(fb: &Vec<bool>, backend: &mut Backend)
    requires
        fb@.len() == FRAME_WIDTH * FRAME_HEIGHT,
    ensures
        frame_pushed(*old(backend), *final(backend), fb@),
{
    let mut frame = Frame::new((FRAME_WIDTH, FRAME_HEIGHT));
    let total = FRAME_WIDTH * FRAME_HEIGHT;
    let mut idx: usize = 0;
    while idx < total
        invariant
            idx <= total,
            total == 2048,
            fb@.len() == 2048,
            frame.width == FRAME_WIDTH,
            frame.height == FRAME_HEIGHT,
            frame.data@.len() == 2048,
            forall|i: int|
                0 <= i < idx ==> #[trigger] frame.data@[i] == (if fb@[i] {
                    (255u8, 255u8, 255u8, 255u8)
                } else {
                    (0u8, 0u8, 0u8, 255u8)
                }),
            forall|i: int| idx <= i < 2048 ==> #[trigger] frame.data@[i] == (0u8, 0u8, 0u8, 255u8),
        decreases total - idx,
    {
        if fb[idx] {
            frame.data[idx] = (255, 255, 255, 255);
        }
        idx = idx + 1;
    }
    let now = backend.get_current_clock();
    backend.frames.add(now, frame);
}


/// Reduction of a small value modulo 2^16, written out for the wrapping
/// register arithmetic.
proof fn lemma_wrap16(a: int)
    requires
        0 <= a < 0x20000,
    ensures
        a % 0x10000 == (if a < 0x10000 {
            a
        } else {
            a - 0x10000
        }),
{
    if a < 0x10000 {
        vstd::arithmetic::div_mod::lemma_fundamental_div_mod_converse(a, 0x10000, 0, a);
    } else {
        vstd::arithmetic::div_mod::lemma_fundamental_div_mod_converse(a, 0x10000, 1, a - 0x10000);
    }
}


/// One instruction of the table, executed on its own: 00E0, clear the screen and emit a frame.
#[verifier::rlimit(100)]
fn exec_cls(cpu: &mut Cpu, backend: &mut Backend) -> (r: Result<(), Error>)
    requires
        instr_wf(Instruction::Cls),
        old(cpu).wf(),
        old(backend).bus_wf(),
    ensures
        final(cpu).wf(),
        final(cpu).quirks == old(cpu).quirks,
        final(backend).bus_wf(),
        same_structure(old(backend), final(backend)),
        final(backend).input == old(backend).input,
        final(backend).audio == old(backend).audio,
        final(backend).text == old(backend).text,
        r matches Err(e) ==> e matches Error::Emulator(_, _),
        instruction_effect(
            Instruction::Cls,
            old(cpu).quirks,
            old(cpu).state,
            *old(backend),
            final(cpu).state,
            *final(backend),
            r,
        ),
{
    proof {
        Backend::lemma_same_structure_refl(old(backend));
    }

                let total = FRAME_WIDTH * FRAME_HEIGHT;
                let mut idx: usize = 0;
                while idx < total
                    invariant
                        idx <= total,
                        total == 2048,
                        cpu.state.frame_buffer@.len() == 2048,
                        forall|i: int| 0 <= i < idx ==> !(#[trigger] cpu.state.frame_buffer@[i]),
                        cpu.state.v@ == old(cpu).state.v@,
                        cpu.state.i == old(cpu).state.i,
                        cpu.state.pc == old(cpu).state.pc,
                        cpu.state.sp == old(cpu).state.sp,
                        cpu.state.stack@ == old(cpu).state.stack@,
                        cpu.state.paused == old(cpu).state.paused,
                        cpu.state.waiting_for_key == old(cpu).state.waiting_for_key,
                        cpu.state.waiting_for_vblank == old(cpu).state.waiting_for_vblank,
                        cpu.state.keypad_state == old(cpu).state.keypad_state,
                        cpu.quirks == old(cpu).quirks,
                        cpu.state.v@.len() == 16,
                        cpu.state.stack@.len() == 16,
                    decreases total - idx,
                {
                    cpu.state.frame_buffer[idx] = false;
                    idx = idx + 1;
                }
                proof {
                    assert(cpu.state.frame_buffer@ =~= Seq::new(
                        old(cpu).state.frame_buffer@.len(),
                        |i: int| false,
                    ));
                }
                send_frame(&cpu.state.frame_buffer, backend);
                proof {
                    Backend::lemma_same_structure_fields(old(backend), backend);
                    Backend::lemma_same_structure_bus_wf(old(backend), backend);
                }
                Ok(())
            
}

/// One instruction of the table, executed on its own: DXYN, draw a sprite with collision flag.
#[verifier::rlimit(100)]
fn exec_draw(cpu: &mut Cpu, backend: &mut Backend, x: usize, y: usize, n: usize) -> (r: Result<(), Error>)
    requires
        instr_wf(Instruction::Draw(x, y, n)),
        old(cpu).wf(),
        old(backend).bus_wf(),
    ensures
        final(cpu).wf(),
        final(cpu).quirks == old(cpu).quirks,
        final(backend).bus_wf(),
        same_structure(old(backend), final(backend)),
        final(backend).input == old(backend).input,
        final(backend).audio == old(backend).audio,
        final(backend).text == old(backend).text,
        r matches Err(e) ==> e matches Error::Emulator(_, _),
        instruction_effect(
            Instruction::Draw(x, y, n),
            old(cpu).quirks,
            old(cpu).state,
            *old(backend),
            final(cpu).state,
            *final(backend),
            r,
        ),
{
    proof {
        Backend::lemma_same_structure_refl(old(backend));
    }

                let vx = cpu.state.v[x];
                let vy = cpu.state.v[y];
                let sx = (vx % 64) as usize;
                let sy = (vy % 32) as usize;
                cpu.state.v[15] = 0;
                let visible: usize = if n <= 32 - sy {
                    n
                } else {
                    32 - sy
                };
                let base_addr = cpu.state.i as usize;
                let ghost b0: Backend = *backend;
                let mut rows: Vec<u8> = Vec::new();
                let mut k: usize = 0;
                while k < visible
                    invariant
                        k <= visible,
                        *backend == *old(backend),
                        old(backend).bus_wf(),
                        rows@.len() == k,
                        base_addr == old(cpu).state.i,
                        visible <= 32,
                        x < 16,
                        y < 16,
                        n < 16,
                        cpu.wf(),
                        old(cpu).state.v@.len() == 16,
                        cpu.quirks == old(cpu).quirks,
                        cpu.state.v@ == old(cpu).state.v@.update(15, 0u8),
                        cpu.state.i == old(cpu).state.i,
                        cpu.state.pc == old(cpu).state.pc,
                        cpu.state.sp == old(cpu).state.sp,
                        cpu.state.stack@ == old(cpu).state.stack@,
                        cpu.state.paused == old(cpu).state.paused,
                        cpu.state.waiting_for_key == old(cpu).state.waiting_for_key,
                        cpu.state.waiting_for_vblank == old(cpu).state.waiting_for_vblank,
                        cpu.state.frame_buffer@ == old(cpu).state.frame_buffer@,
                        cpu.state.keypad_state == old(cpu).state.keypad_state,
                        sx == old(cpu).state.v@[x as int] as int % 64,
                        sy == old(cpu).state.v@[y as int] as int % 32,
                        visible as int == (if n as int <= 32 - sy {
                            n as int
                        } else {
                            32 - (sy as int)
                        }),
                        forall|j: int|
                            0 <= j < k ==> old(backend).spec_bus_byte(base_addr + j) == Some(
                                #[trigger] rows@[j],
                            ),
                    decreases visible - k,
                {
                    let got = backend.bus_read_u8(base_addr + k);
                    match got {
                        Ok(b) => {
                            rows.push(b);
                        },
                        Err(e) => {
                            proof {
                                Backend::lemma_same_structure_refl(old(backend));
                            }
                            return Err(e);
                        },
                    }
                    k = k + 1;
                }
                draw_sprite(&mut cpu.state, sx, sy, &rows);
                proof {
                    assert(cpu.state.v@ =~= old(cpu).state.v@.update(
                        15,
                        (if spec_draw_collision(
                            old(cpu).state.frame_buffer@,
                            sx as int,
                            sy as int,
                            rows@,
                        ) {
                            1u8
                        } else {
                            0u8
                        }),
                    ));
                }
                send_frame(&cpu.state.frame_buffer, backend);
                if !cpu.quirks.quirks_draw_not_waiting_for_vblank {
                    cpu.state.waiting_for_vblank = true;
                }
                proof {
                    Backend::lemma_same_structure_fields(old(backend), backend);
                    Backend::lemma_same_structure_bus_wf(old(backend), backend);
                    let s0 = old(cpu).state;
                    let sxs = s0.v@[x as int] as int % 64;
                    let sys = s0.v@[y as int] as int % 32;
                    let vis: int = if n as int <= 32 - sys {
                        n as int
                    } else {
                        32 - sys
                    };
                    let witness = rows@;
                    assert forall|kk: int|
                        0 <= kk < vis implies (#[trigger] old(backend).spec_bus_byte(s0.i + kk))
                            is Some by {
                        assert(old(backend).spec_bus_byte(base_addr + kk) == Some(witness[kk]));
                    }
                    assert(witness.len() == vis);
                    assert(forall|kk: int|
                        0 <= kk < vis ==> old(backend).spec_bus_byte(s0.i + kk) == Some(
                            #[trigger] witness[kk],
                        ));
                    assert(cpu.state.frame_buffer@ == spec_draw_fb(
                        s0.frame_buffer@,
                        sxs,
                        sys,
                        witness,
                    ));
                    assert(cpu.state.v@ == s0.v@.update(
                        15,
                        (if spec_draw_collision(s0.frame_buffer@, sxs, sys, witness) {
                            1u8
                        } else {
                            0u8
                        }),
                    ));
                }
                Ok(())
            
}

/// One instruction of the table, executed on its own: FX33, store the decimal digits of V[X].
#[verifier::rlimit(100)]
fn exec_store_bcd(cpu: &mut Cpu, backend: &mut Backend, x: usize) -> (r: Result<(), Error>)
    requires
        instr_wf(Instruction::StoreBCDV(x)),
        old(cpu).wf(),
        old(backend).bus_wf(),
    ensures
        final(cpu).wf(),
        final(cpu).quirks == old(cpu).quirks,
        final(backend).bus_wf(),
        same_structure(old(backend), final(backend)),
        final(backend).input == old(backend).input,
        final(backend).audio == old(backend).audio,
        final(backend).text == old(backend).text,
        r matches Err(e) ==> e matches Error::Emulator(_, _),
        instruction_effect(
            Instruction::StoreBCDV(x),
            old(cpu).quirks,
            old(cpu).state,
            *old(backend),
            final(cpu).state,
            *final(backend),
            r,
        ),
{
    proof {
        Backend::lemma_same_structure_refl(old(backend));
    }

                let vx = cpu.state.v[x];
                let hundreds = (vx / 100) % 10;
                let tens = (vx / 10) % 10;
                let ones = vx % 10;
                let mut digits: Vec<u8> = Vec::new();
                digits.push(hundreds);
                digits.push(tens);
                digits.push(ones);
                let i0 = cpu.state.i as usize;
                let ghost b0: Backend = *backend;
                let mut k: usize = 0;
                while k < 3
                    invariant
                        k <= 3,
                        i0 == old(cpu).state.i,
                        b0 == *old(backend),
                        cpu.wf(),
                        *cpu == *old(cpu),
                        digits@.len() == 3,
                        digits@[0] == (old(cpu).state.v@[x as int] / 100) % 10,
                        digits@[1] == (old(cpu).state.v@[x as int] / 10) % 10,
                        digits@[2] == old(cpu).state.v@[x as int] % 10,
                        x < 16,
                        backend.bus_wf(),
                        same_structure(&b0, backend),
                        backend.input == b0.input,
                        backend.frames == b0.frames,
                        backend.audio == b0.audio,
                        backend.text == b0.text,
                        b0.bus_wf(),
                        forall|a: int|
                            #[trigger] backend.spec_bus_writable(a) == b0.spec_bus_writable(a),
                        forall|j: int|
                            0 <= j < k ==> #[trigger] backend.spec_bus_byte(i0 + j) == Some(
                                digits@[j],
                            ),
                        forall|j: int|
                            0 <= j < k ==> (#[trigger] b0.spec_bus_byte(i0 + j)) is Some
                                && b0.spec_bus_writable(i0 + j),
                        forall|a: int|
                            !(i0 <= a < i0 + k) ==> #[trigger] backend.spec_bus_byte(a)
                                == b0.spec_bus_byte(a),
                    decreases 3 - k,
                {
                    let ghost bprev: Backend = *backend;
                    let wrote = backend.bus_write_u8(i0 + k, digits[k]);
                    proof {
                        Backend::lemma_same_structure_trans(&b0, &bprev, backend);
                    }
                    match wrote {
                        Ok(_) => {},
                        Err(e) => {
                            proof {
                                assert(!((b0.spec_bus_byte(i0 + k as int)) is Some
                                    && b0.spec_bus_writable(i0 + k as int)));
                            }
                            return Err(e);
                        },
                    }
                    k = k + 1;
                }
                proof {
                    assert(backend.spec_bus_byte(i0 + 0) == Some(digits@[0]));
                    assert(backend.spec_bus_byte(i0 + 1) == Some(digits@[1]));
                    assert(backend.spec_bus_byte(i0 + 2) == Some(digits@[2]));
                }
                Ok(())
}

/// One instruction of the table, executed on its own: FX55, store V[0] through V[X] at I onward.
#[verifier::rlimit(100)]
fn exec_store_all(cpu: &mut Cpu, backend: &mut Backend, x: usize) -> (r: Result<(), Error>)
    requires
        instr_wf(Instruction::StoreAllV(x)),
        old(cpu).wf(),
        old(backend).bus_wf(),
    ensures
        final(cpu).wf(),
        final(cpu).quirks == old(cpu).quirks,
        final(backend).bus_wf(),
        same_structure(old(backend), final(backend)),
        final(backend).input == old(backend).input,
        final(backend).audio == old(backend).audio,
        final(backend).text == old(backend).text,
        r matches Err(e) ==> e matches Error::Emulator(_, _),
        instruction_effect(
            Instruction::StoreAllV(x),
            old(cpu).quirks,
            old(cpu).state,
            *old(backend),
            final(cpu).state,
            *final(backend),
            r,
        ),
{
    proof {
        Backend::lemma_same_structure_refl(old(backend));
    }

                let i0 = cpu.state.i as usize;
                let ghost b0: Backend = *backend;
                let mut k: usize = 0;
                while k <= x
                    invariant
                        x < 16,
                        k <= x + 1,
                        i0 == old(cpu).state.i,
                        b0 == *old(backend),
                        cpu.wf(),
                        *cpu == *old(cpu),
                        backend.bus_wf(),
                        same_structure(&b0, backend),
                        backend.input == b0.input,
                        backend.frames == b0.frames,
                        backend.audio == b0.audio,
                        backend.text == b0.text,
                        b0.bus_wf(),
                        forall|a: int|
                            #[trigger] backend.spec_bus_writable(a) == b0.spec_bus_writable(a),
                        forall|j: int|
                            0 <= j < k ==> #[trigger] backend.spec_bus_byte(i0 + j) == Some(
                                old(cpu).state.v@[j],
                            ),
                        forall|j: int|
                            0 <= j < k ==> (#[trigger] b0.spec_bus_byte(i0 + j)) is Some
                                && b0.spec_bus_writable(i0 + j),
                        forall|a: int|
                            !(i0 <= a < i0 + k) ==> #[trigger] backend.spec_bus_byte(a)
                                == b0.spec_bus_byte(a),
                    decreases x + 1 - k,
                {
                    let ghost bprev: Backend = *backend;
                    let wrote = backend.bus_write_u8(i0 + k, cpu.state.v[k]);
                    proof {
                        Backend::lemma_same_structure_trans(&b0, &bprev, backend);
                    }
                    match wrote {
                        Ok(_) => {},
                        Err(e) => {
                            proof {
                                assert(!((b0.spec_bus_byte(i0 + k as int)) is Some
                                    && b0.spec_bus_writable(i0 + k as int)));
                            }
                            return Err(e);
                        },
                    }
                    k = k + 1;
                }
                if !cpu.quirks.quirks_loadstore_leaves_i_unmodified {
                    let i_now = cpu.state.i;
                    cpu.state.i = i_now.wrapping_add(x as u16);
                    proof {
                        lemma_wrap16(old(cpu).state.i + x);
                    }
                    if !cpu.quirks.quirks_loadstore_modifies_i_one_less {
                        let i_mid = cpu.state.i;
                        cpu.state.i = i_mid.wrapping_add(1);
                        proof {
                            lemma_wrap16(i_mid as int + 1);
                            vstd::arithmetic::div_mod::lemma_add_mod_noop(
                                old(cpu).state.i + x,
                                1,
                                0x10000,
                            );
                        }
                    }
                }
                Ok(())
            
}

/// One instruction of the table, executed on its own: FX65, load V[0] through V[X] from I onward.
#[verifier::rlimit(100)]
fn exec_load_all(cpu: &mut Cpu, backend: &mut Backend, x: usize) -> (r: Result<(), Error>)
    requires
        instr_wf(Instruction::LoadAllV(x)),
        old(cpu).wf(),
        old(backend).bus_wf(),
    ensures
        final(cpu).wf(),
        final(cpu).quirks == old(cpu).quirks,
        final(backend).bus_wf(),
        same_structure(old(backend), final(backend)),
        final(backend).input == old(backend).input,
        final(backend).audio == old(backend).audio,
        final(backend).text == old(backend).text,
        r matches Err(e) ==> e matches Error::Emulator(_, _),
        instruction_effect(
            Instruction::LoadAllV(x),
            old(cpu).quirks,
            old(cpu).state,
            *old(backend),
            final(cpu).state,
            *final(backend),
            r,
        ),
{
    proof {
        Backend::lemma_same_structure_refl(old(backend));
    }

                let i0 = cpu.state.i as usize;
                let ghost b0: Backend = *backend;
                let mut k: usize = 0;
                while k <= x
                    invariant
                        x < 16,
                        k <= x + 1,
                        i0 == old(cpu).state.i,
                        b0 == *old(backend),
                        cpu.wf(),
                        *backend == b0,
                        b0.bus_wf(),
                        cpu.quirks == old(cpu).quirks,
                        cpu.state.i == old(cpu).state.i,
                        cpu.state.pc == old(cpu).state.pc,
                        cpu.state.sp == old(cpu).state.sp,
                        cpu.state.stack@ == old(cpu).state.stack@,
                        cpu.state.paused == old(cpu).state.paused,
                        cpu.state.waiting_for_key == old(cpu).state.waiting_for_key,
                        cpu.state.waiting_for_vblank == old(cpu).state.waiting_for_vblank,
                        cpu.state.frame_buffer@ == old(cpu).state.frame_buffer@,
                        cpu.state.keypad_state == old(cpu).state.keypad_state,
                        cpu.state.v@.len() == 16,
                        forall|j: int|
                            0 <= j < k ==> (#[trigger] b0.spec_bus_byte(i0 + j)) is Some
                                && cpu.state.v@[j] == b0.spec_bus_byte(i0 + j).unwrap(),
                        forall|j: int| k <= j < 16 ==> #[trigger] cpu.state.v@[j] == old(
                            cpu,
                        ).state.v@[j],
                    decreases x + 1 - k,
                {
                    let got = backend.bus_read_u8(i0 + k);
                    match got {
                        Ok(b) => {
                            cpu.state.v[k] = b;
                        },
                        Err(e) => {
                            proof {
                                Backend::lemma_same_structure_refl(old(backend));
                            }
                            return Err(e);
                        },
                    }
                    k = k + 1;
                }
                if !cpu.quirks.quirks_loadstore_leaves_i_unmodified {
                    let i_now = cpu.state.i;
                    cpu.state.i = i_now.wrapping_add(x as u16);
                    proof {
                        lemma_wrap16(old(cpu).state.i + x);
                    }
                    if !cpu.quirks.quirks_loadstore_modifies_i_one_less {
                        let i_mid = cpu.state.i;
                        cpu.state.i = i_mid.wrapping_add(1);
                        proof {
                            lemma_wrap16(i_mid as int + 1);
                            vstd::arithmetic::div_mod::lemma_add_mod_noop(
                                old(cpu).state.i + x,
                                1,
                                0x10000,
                            );
                        }
                    }
                }
                Ok(())
            
}

impl Instruction {
    /// Executes one decoded instruction against the CPU state and the
    /// bus, exactly as the instruction table
    /// (`instruction_effect`) says.
    ///
    /// A keypad query whose register holds a value above 0xF, and a call
    /// on a full stack, are surfaced as `Misc` emulator faults.
    #[verifier::rlimit(100)]
    pub fn execute(&self, cpu: &mut Cpu, backend: &mut Backend) -> (r: Result<(), Error>)
        requires
            instr_wf(*self),
            old(cpu).wf(),
            old(backend).bus_wf(),
        ensures
            final(cpu).wf(),
            final(cpu).quirks == old(cpu).quirks,
            final(backend).bus_wf(),
            same_structure(old(backend), final(backend)),
            final(backend).input == old(backend).input,
            final(backend).audio == old(backend).audio,
            final(backend).text == old(backend).text,
            r matches Err(e) ==> e matches Error::Emulator(_, _),
            instruction_effect(
                *self,
                old(cpu).quirks,
                old(cpu).state,
                *old(backend),
                final(cpu).state,
                *final(backend),
                r,
            ),
    {
        proof {
            Backend::lemma_same_structure_refl(old(backend));
        }
        match *self {
            Instruction::Sys(address) => {
                cpu.state.pc = address as u16;
                Ok(())
            },
            Instruction::Cls => exec_cls(cpu, backend),
            Instruction::Return => {
                let new_sp: u8 = if cpu.state.sp > 0 {
                    cpu.state.sp - 1
                } else {
                    0
                };
                cpu.state.sp = new_sp;
                cpu.state.pc = cpu.state.stack[new_sp as usize];
                Ok(())
            },
            Instruction::Jump(address) => {
                cpu.state.pc = address as u16;
                Ok(())
            },
            Instruction::Call(address) => {
                if cpu.state.sp >= 16 {
                    Err(Error::emulator(EmulatorErrorKind::Misc, "call stack overflow"))
                } else {
                    let sp = cpu.state.sp;
                    cpu.state.stack[sp as usize] = cpu.state.pc;
                    cpu.state.sp = sp + 1;
                    cpu.state.pc = address as u16;
                    Ok(())
                }
            },
            Instruction::SkipIfVImmediate(x, value) => {
                if cpu.state.v[x] == value {
                    cpu.state.pc = cpu.state.pc.wrapping_add(2);
                    proof {
                        lemma_wrap16(old(cpu).state.pc + 2);
                    }
                }
                Ok(())
            },
            Instruction::SkipIfNotVImmediate(x, value) => {
                if cpu.state.v[x] != value {
                    cpu.state.pc = cpu.state.pc.wrapping_add(2);
                    proof {
                        lemma_wrap16(old(cpu).state.pc + 2);
                    }
                }
                Ok(())
            },
            Instruction::SkipIfCmp(x, y) => {
                if cpu.state.v[x] == cpu.state.v[y] {
                    cpu.state.pc = cpu.state.pc.wrapping_add(2);
                    proof {
                        lemma_wrap16(old(cpu).state.pc + 2);
                    }
                }
                Ok(())
            },
            Instruction::LoadVImmediate(x, value) => {
                cpu.state.v[x] = value;
                Ok(())
            },
            Instruction::AddVImmediate(x, value) => {
                let sum: u16 = cpu.state.v[x] as u16 + value as u16;
                cpu.state.v[x] = (sum % 256) as u8;
                Ok(())
            },
            Instruction::LoadV(x, y) => {
                cpu.state.v[x] = cpu.state.v[y];
                Ok(())
            },
            Instruction::Or(x, y) => {
                cpu.state.v[x] = cpu.state.v[x] | cpu.state.v[y];
                if !cpu.quirks.quirks_logic_leaves_flag_unmodified {
                    cpu.state.v[15] = 0;
                }
                Ok(())
            },
            Instruction::And(x, y) => {
                cpu.state.v[x] = cpu.state.v[x] & cpu.state.v[y];
                if !cpu.quirks.quirks_logic_leaves_flag_unmodified {
                    cpu.state.v[15] = 0;
                }
                Ok(())
            },
            Instruction::Xor(x, y) => {
                cpu.state.v[x] = cpu.state.v[x] ^ cpu.state.v[y];
                if !cpu.quirks.quirks_logic_leaves_flag_unmodified {
                    cpu.state.v[15] = 0;
                }
                Ok(())
            },
            Instruction::Add(x, y) => {
                let sum: u16 = cpu.state.v[x] as u16 + cpu.state.v[y] as u16;
                cpu.state.v[x] = (sum % 256) as u8;
                cpu.state.v[15] = if sum > 255 {
                    1
                } else {
                    0
                };
                Ok(())
            },
            Instruction::Sub(x, y) => {
                let vx = cpu.state.v[x];
                let vy = cpu.state.v[y];
                let res: u8 = if vx >= vy {
                    vx - vy
                } else {
                    (((vx as u16) + 256) - (vy as u16)) as u8
                };
                cpu.state.v[x] = res;
                cpu.state.v[15] = if vx >= vy {
                    1
                } else {
                    0
                };
                Ok(())
            },
            Instruction::ShiftRight(x, y) => {
                let src = if cpu.quirks.quirks_shift_takes_x_instead_of_y {
                    cpu.state.v[x]
                } else {
                    cpu.state.v[y]
                };
                proof {
                    let s8 = src;
                    assert(s8 >> 1u8 == s8 / 2 && s8 & 1 == s8 % 2) by (bit_vector);
                }
                cpu.state.v[x] = src >> 1u8;
                cpu.state.v[15] = src & 1;
                Ok(())
            },
            Instruction::SubN(x, y) => {
                let vx = cpu.state.v[x];
                let vy = cpu.state.v[y];
                let res: u8 = if vy >= vx {
                    vy - vx
                } else {
                    (((vy as u16) + 256) - (vx as u16)) as u8
                };
                cpu.state.v[x] = res;
                cpu.state.v[15] = if vy >= vx {
                    1
                } else {
                    0
                };
                Ok(())
            },
            Instruction::ShiftLeft(x, y) => {
                let src = if cpu.quirks.quirks_shift_takes_x_instead_of_y {
                    cpu.state.v[x]
                } else {
                    cpu.state.v[y]
                };
                proof {
                    let s8 = src;
                    assert(s8 << 1u8 == ((2 * (s8 as u16)) % 256) as u8 && s8 >> 7u8 == s8 / 128)
                        by (bit_vector);
                }
                cpu.state.v[x] = src << 1u8;
                cpu.state.v[15] = src >> 7u8;
                Ok(())
            },
            Instruction::SkipIfNotCmp(x, y) => {
                if cpu.state.v[x] != cpu.state.v[y] {
                    cpu.state.pc = cpu.state.pc.wrapping_add(2);
                    proof {
                        lemma_wrap16(old(cpu).state.pc + 2);
                    }
                }
                Ok(())
            },
            Instruction::LoadIImmediate(address) => {
                cpu.state.i = address as u16;
                Ok(())
            },
            Instruction::JumpV0(address) => {
                let reg: usize = if cpu.quirks.quirks_jump_uses_x {
                    (address / 256) % 16
                } else {
                    0
                };
                let target: u16 = (cpu.state.v[reg] as u16) + (address as u16);
                cpu.state.pc = target;
                proof {
                    lemma_wrap16(old(cpu).state.v@[reg as int] + address);
                }
                Ok(())
            },
            Instruction::Random(x, mask) => {
                let rb = random_byte();
                cpu.state.v[x] = rb & mask;
                proof {
                    assert(cpu.state.v@ == old(cpu).state.v@.update(x as int, rb & mask));
                }
                Ok(())
            },
            Instruction::Draw(x, y, n) => exec_draw(cpu, backend, x, y, n),
            Instruction::SkipIfKey(x) => {
                let vx = cpu.state.v[x];
                if vx >= 16 {
                    return Err(
                        Error::emulator(EmulatorErrorKind::Misc, "keypad query out of range"),
                    );
                }
                let button = InputButton::from_value(vx);
                match button {
                    Some(b) => {
                        if cpu.state.keypad_state.get_state_for_button(b)
                            == ButtonState::Pressed {
                            cpu.state.pc = cpu.state.pc.wrapping_add(2);
                            proof {
                                lemma_wrap16(old(cpu).state.pc + 2);
                            }
                        }
                        proof {
                            assert(spec_button_value(b) == vx);
                        }
                        Ok(())
                    },
                    None => {
                        proof {
                            assert(false);
                        }
                        Err(Error::emulator(EmulatorErrorKind::Misc, "keypad query out of range"))
                    },
                }
            },
            Instruction::SkipIfNotKey(x) => {
                let vx = cpu.state.v[x];
                if vx >= 16 {
                    return Err(
                        Error::emulator(EmulatorErrorKind::Misc, "keypad query out of range"),
                    );
                }
                let button = InputButton::from_value(vx);
                match button {
                    Some(b) => {
                        if cpu.state.keypad_state.get_state_for_button(b)
                            == ButtonState::Released {
                            cpu.state.pc = cpu.state.pc.wrapping_add(2);
                            proof {
                                lemma_wrap16(old(cpu).state.pc + 2);
                            }
                        }
                        proof {
                            assert(spec_button_value(b) == vx);
                        }
                        Ok(())
                    },
                    None => {
                        proof {
                            assert(false);
                        }
                        Err(Error::emulator(EmulatorErrorKind::Misc, "keypad query out of range"))
                    },
                }
            },
            Instruction::LoadVDT(x) => {
                let got = backend.bus_read_u8(DT_TIMER);
                match got {
                    Ok(b) => {
                        cpu.state.v[x] = b;
                        Ok(())
                    },
                    Err(e) => Err(e),
                }
            },
            Instruction::WaitAndLoadKeypress(x) => {
                cpu.state.waiting_for_key = Some(x);
                Ok(())
            },
            Instruction::LoadDTV(x) => {
                let wrote = backend.bus_write_u8(DT_TIMER, cpu.state.v[x]);
                match wrote {
                    Ok(_) => Ok(()),
                    Err(e) => Err(e),
                }
            },
            Instruction::LoadSTV(x) => {
                let wrote = backend.bus_write_u8(ST_TIMER, cpu.state.v[x]);
                match wrote {
                    Ok(_) => Ok(()),
                    Err(e) => Err(e),
                }
            },
            Instruction::AddIV(x) => {
                cpu.state.i = cpu.state.i.wrapping_add(cpu.state.v[x] as u16);
                proof {
                    lemma_wrap16(old(cpu).state.i + old(cpu).state.v@[x as int]);
                }
                Ok(())
            },
            Instruction::LoadFontV(x) => {
                cpu.state.i = (FONT_BASE as u16) + (cpu.state.v[x] as u16) * 5;
                Ok(())
            },
            Instruction::StoreBCDV(x) => exec_store_bcd(cpu, backend, x),
            Instruction::StoreAllV(x) => exec_store_all(cpu, backend, x),
            Instruction::LoadAllV(x) => exec_load_all(cpu, backend, x),
            Instruction::Unknown(op) => {
                Err(Error::Emulator(EmulatorErrorKind::UnknownOpcode, format_opcode(op)))
            },
        }
    }
}


/// What consuming one input event does to the keypad view, the key-wait
/// register, and the general registers: the keypad tracks the event, and
/// a key release that maps to a hex button while an FX0A wait is pending
/// fills the waited-for register and ends the wait.
pub open spec fn spec_consume_event(
    keys: Seq<bool>,
    waiting: Option<usize>,
    v: Seq<u8>,
    event: InputEvent,
) -> (Seq<bool>, Option<usize>, Seq<u8>) {
    let keys2 = spec_parse_input_event(keys, event);
    match event {
        InputEvent::Keyboard(key, state) => {
            match waiting {
                Some(x) => {
                    if state == ButtonState::Released {
                        match spec_button_from_key(key) {
                            Some(button) => (
                                keys2,
                                None,
                                v.update(x as int, spec_button_value(button)),
                            ),
                            None => (keys2, waiting, v),
                        }
                    } else {
                        (keys2, waiting, v)
                    }
                },
                None => (keys2, waiting, v),
            }
        },
    }
}

/// `spec_consume_event` folded over a whole queue of events, oldest
/// first: input events reach the CPU in enqueue order.
pub open spec fn spec_consume_events(
    keys: Seq<bool>,
    waiting: Option<usize>,
    v: Seq<u8>,
    events: Seq<InputEvent>,
) -> (Seq<bool>, Option<usize>, Seq<u8>)
    decreases events.len(),
{
    if events.len() == 0 {
        (keys, waiting, v)
    } else {
        let step = spec_consume_event(keys, waiting, v, events[0]);
        spec_consume_events(step.0, step.1, step.2, events.subrange(1, events.len() as int))
    }
}

impl Cpu {
    /// Drains the backend's input channel in enqueue order, updating the
    /// keypad and, while an FX0A wait is pending, filling the waited-for
    /// register from the first mapped key release.
    fn handle_input(&mut self, backend: &mut Backend)
        requires
            old(self).wf(),
        ensures
            final(self).wf(),
            final(self).quirks == old(self).quirks,
            only_input_changed(old(backend), final(backend)),
            final(backend).input.view().len() == 0,
            final(backend).input.wf() == old(backend).input.wf(),
            final(self).state.keypad_state.view() == spec_consume_events(
                old(self).state.keypad_state.view(),
                old(self).state.waiting_for_key,
                old(self).state.v@,
                old(backend).input.view(),
            ).0,
            final(self).state.waiting_for_key == spec_consume_events(
                old(self).state.keypad_state.view(),
                old(self).state.waiting_for_key,
                old(self).state.v@,
                old(backend).input.view(),
            ).1,
            final(self).state.v@ == spec_consume_events(
                old(self).state.keypad_state.view(),
                old(self).state.waiting_for_key,
                old(self).state.v@,
                old(backend).input.view(),
            ).2,
            final(self).state.i == old(self).state.i,
            final(self).state.pc == old(self).state.pc,
            final(self).state.sp == old(self).state.sp,
            final(self).state.stack@ == old(self).state.stack@,
            final(self).state.paused == old(self).state.paused,
            final(self).state.waiting_for_vblank == old(self).state.waiting_for_vblank,
            final(self).state.frame_buffer@ == old(self).state.frame_buffer@,
    {
        let ghost folded = spec_consume_events(
            old(self).state.keypad_state.view(),
            old(self).state.waiting_for_key,
            old(self).state.v@,
            old(backend).input.view(),
        );
        loop
            invariant
                self.wf(),
                self.quirks == old(self).quirks,
                only_input_changed(old(backend), backend),
                backend.input.wf() == old(backend).input.wf(),
                folded == spec_consume_events(
                    old(self).state.keypad_state.view(),
                    old(self).state.waiting_for_key,
                    old(self).state.v@,
                    old(backend).input.view(),
                ),
                folded == spec_consume_events(
                    self.state.keypad_state.view(),
                    self.state.waiting_for_key,
                    self.state.v@,
                    backend.input.view(),
                ),
                self.state.i == old(self).state.i,
                self.state.pc == old(self).state.pc,
                self.state.sp == old(self).state.sp,
                self.state.stack@ == old(self).state.stack@,
                self.state.paused == old(self).state.paused,
                self.state.waiting_for_vblank == old(self).state.waiting_for_vblank,
                self.state.frame_buffer@ == old(self).state.frame_buffer@,
            ensures
                backend.input.view().len() == 0,
            decreases backend.input.view().len(),
        {
            let popped = backend.input.pop();
            match popped {
                Some(event) => {
                    let ghost pre_keys = self.state.keypad_state.view();
                    let ghost pre_wk = self.state.waiting_for_key;
                    let ghost pre_v = self.state.v@;
                    self.state.keypad_state.parse_input_event(event);
                    match self.state.waiting_for_key {
                        Some(x) => {
                            match event {
                                InputEvent::Keyboard(key, state) => {
                                    if matches!(state, ButtonState::Released) {
                                        let button = InputButton::from_key(key);
                                        match button {
                                            Some(b) => {
                                                self.state.v[x] = b.value();
                                                self.state.waiting_for_key = None;
                                            },
                                            None => {},
                                        }
                                    }
                                },
                            }
                        },
                        None => {},
                    }
                    proof {
                        let stepped = spec_consume_event(pre_keys, pre_wk, pre_v, event);
                        assert(self.state.keypad_state.view() == stepped.0);
                        assert(self.state.waiting_for_key == stepped.1);
                        assert(self.state.v@ == stepped.2);
                    }
                },
                None => {
                    break ;
                },
            }
        }
    }
}


/// One 60 Hz period in femtoseconds.
pub open spec fn spec_vblank_fs() -> int {
    VBLANK_CLOCK_SPEED_NS * FEMTOS_PER_NANOSEC
}

/// The machine limit of the draw-wait computation: the next 60 Hz
/// boundary after clock value `now` would not fit in the clock type.
/// Unreachable in any real run (it needs about 10^22 emulated years).
pub open spec fn spec_vblank_overflow(now: u128) -> bool {
    now as int / spec_vblank_fs() >= u128::MAX as int / spec_vblank_fs()
}

/// The keypad, key-wait register and general registers after draining the
/// backend's input queue, oldest event first.
pub open spec fn spec_folded(c: Cpu, b: Backend) -> (Seq<bool>, Option<usize>, Seq<u8>) {
    spec_consume_events(
        c.state.keypad_state.view(),
        c.state.waiting_for_key,
        c.state.v@,
        b.input.view(),
    )
}

impl Cpu {
    /// One CPU step: drains pending input, then — unless paused or
    /// waiting for a key — fetches the big-endian opcode at the program
    /// counter, advances it by two, and executes the decoded instruction.
    /// Returns the nominal 1/700 s period, except that a pending draw
    /// wait ends at the next 60 Hz boundary strictly after the current
    /// clock: then the remaining span to that boundary is returned and
    /// the wait is cleared.
    #[verifier::rlimit(100)]
    pub fn step(&mut self, backend: &mut Backend) -> (r: Result<Duration, Error>)
        requires
            old(self).wf(),
            old(backend).bus_wf(),
        ensures
            final(self).wf(),
            final(self).quirks == old(self).quirks,
            final(backend).bus_wf(),
            same_structure(old(backend), final(backend)),
            final(backend).audio == old(backend).audio,
            final(backend).text == old(backend).text,
            final(backend).input.view().len() == 0,
            final(backend).input.wf() == old(backend).input.wf(),
            final(self).state.keypad_state.view() == spec_folded(*old(self), *old(backend)).0,
            r matches Err(e) ==> e matches Error::Emulator(_, _),
            r matches Ok(d) ==> 0 < d.fs <= MAX_STEP_FS,
            r matches Ok(d) ==> (d.fs == CLOCK_SPEED_NS * FEMTOS_PER_NANOSEC
                || (!old(self).quirks.quirks_draw_not_waiting_for_vblank
                && !final(self).state.waiting_for_vblank
                && old(backend).clock.fs + d.fs == (old(backend).clock.fs as int / spec_vblank_fs() + 1)
                * spec_vblank_fs() && 0 < d.fs <= spec_vblank_fs())),
            old(self).state.paused || spec_folded(*old(self), *old(backend)).1 is Some ==> {
                &&& final(self).state.waiting_for_key == spec_folded(
                    *old(self),
                    *old(backend),
                ).1
                &&& final(self).state.v@ == spec_folded(*old(self), *old(backend)).2
                &&& final(self).state.pc == old(self).state.pc
                &&& final(self).state.i == old(self).state.i
                &&& final(self).state.sp == old(self).state.sp
                &&& final(self).state.stack@ == old(self).state.stack@
                &&& final(self).state.frame_buffer@ == old(self).state.frame_buffer@
                &&& final(backend).frames == old(backend).frames
                &&& (forall|a: int|
                    #[trigger] final(backend).spec_bus_byte(a) == old(backend).spec_bus_byte(a))
                &&& (old(self).quirks.quirks_draw_not_waiting_for_vblank
                    || !old(self).state.waiting_for_vblank ==> (r matches Ok(d)
                    && d.fs == CLOCK_SPEED_NS * FEMTOS_PER_NANOSEC
                    && final(self).state.waiting_for_vblank
                    == old(self).state.waiting_for_vblank))
                &&& (!old(self).quirks.quirks_draw_not_waiting_for_vblank
                    && old(self).state.waiting_for_vblank
                    && !spec_vblank_overflow(old(backend).clock.fs) ==> (r matches Ok(d)
                    && old(backend).clock.fs + d.fs == (old(backend).clock.fs as int
                    / spec_vblank_fs() + 1) * spec_vblank_fs()
                    && !final(self).state.waiting_for_vblank))
            },
            !old(self).state.paused && spec_folded(*old(self), *old(backend)).1 is None && !old(
                backend,
            ).bus.spec_covers_range(old(self).state.pc as int, 2) ==> r is Err,
            !old(self).state.paused && spec_folded(*old(self), *old(backend)).1 is None && old(
                backend,
            ).bus.spec_covers_range(old(self).state.pc as int, 2) ==> (exists|
                w: u16,
                c1: Cpu,
                b1: Backend,
                c2: Cpu,
                b2: Backend,
                rr: Result<(), Error>,
            |
                {
                    &&& old(backend).spec_bus_byte(old(self).state.pc as int) == Some(
                        (w >> 8) as u8,
                    )
                    &&& old(backend).spec_bus_byte(old(self).state.pc as int + 1) == Some(
                        (w & 0xFF) as u8,
                    )
                    &&& c1.quirks == old(self).quirks
                    &&& c1.state.keypad_state.view() == spec_folded(*old(self), *old(backend)).0
                    &&& c1.state.waiting_for_key is None
                    &&& c1.state.v@ == spec_folded(*old(self), *old(backend)).2
                    &&& c1.state.pc == spec_pc_plus_2(old(self).state.pc)
                    &&& c1.state.i == old(self).state.i
                    &&& c1.state.sp == old(self).state.sp
                    &&& c1.state.stack@ == old(self).state.stack@
                    &&& c1.state.paused == old(self).state.paused
                    &&& c1.state.waiting_for_vblank == old(self).state.waiting_for_vblank
                    &&& c1.state.frame_buffer@ == old(self).state.frame_buffer@
                    &&& only_input_changed(old(backend), &b1)
                    &&& b1.input.view().len() == 0
                    &&& #[trigger] instruction_effect(
                        spec_decode(w),
                        old(self).quirks,
                        c1.state,
                        b1,
                        c2.state,
                        b2,
                        rr,
                    )
                    &&& (r is Ok ==> rr is Ok)
                    &&& (rr matches Err(e) ==> r == Err::<Duration, Error>(e) && *final(backend)
                        == b2 && final(self).state == c2.state)
                    &&& (rr is Ok && (old(self).quirks.quirks_draw_not_waiting_for_vblank
                        || !c2.state.waiting_for_vblank) ==> (r matches Ok(d)
                        && d.fs == CLOCK_SPEED_NS * FEMTOS_PER_NANOSEC
                        && final(self).state.waiting_for_vblank
                        == c2.state.waiting_for_vblank))
                    &&& (rr is Ok && !old(self).quirks.quirks_draw_not_waiting_for_vblank
                        && c2.state.waiting_for_vblank
                        && !spec_vblank_overflow(old(backend).clock.fs) ==> (r matches Ok(d)
                        && old(backend).clock.fs + d.fs == (old(backend).clock.fs as int
                        / spec_vblank_fs() + 1) * spec_vblank_fs()
                        && !final(self).state.waiting_for_vblank))
                    &&& rr is Ok ==> {
                        &&& *final(backend) == b2
                        &&& final(self).state.v@ == c2.state.v@
                        &&& final(self).state.i == c2.state.i
                        &&& final(self).state.pc == c2.state.pc
                        &&& final(self).state.sp == c2.state.sp
                        &&& final(self).state.stack@ == c2.state.stack@
                        &&& final(self).state.paused == c2.state.paused
                        &&& final(self).state.waiting_for_key == c2.state.waiting_for_key
                        &&& final(self).state.frame_buffer@ == c2.state.frame_buffer@
                        &&& final(self).state.keypad_state == c2.state.keypad_state
                        &&& (final(self).state.waiting_for_vblank == c2.state.waiting_for_vblank
                            || !final(self).state.waiting_for_vblank)
                    }
                }),
    {
        self.handle_input(backend);
        proof {
            Backend::lemma_same_structure_fields(old(backend), backend);
            Backend::lemma_bus_view_equal(old(backend), backend);
        }
        let ghost b1: Backend = *backend;
        if !self.state.paused && self.state.waiting_for_key.is_none() {
            let fetched = backend.bus_read_u16_be(self.state.pc as usize);
            match fetched {
                Ok(opcode) => {
                    proof {
                        assert(opcode >> 8 < 256 && opcode & 0xFF < 256) by (bit_vector);
                        lemma_wrap16(old(self).state.pc + 2);
                    }
                    self.state.pc = self.state.pc.wrapping_add(2);
                    let ghost c1: Cpu = *self;
                    let instruction = Instruction::decode(opcode);
                    proof {
                        lemma_decode_wf(opcode);
                    }
                    let res = instruction.execute(self, backend);
                    let ghost c2: Cpu = *self;
                    let ghost b2: Backend = *backend;
                    let ghost rr: Result<(), Error> = res;
                    proof {
                        Backend::lemma_same_structure_trans(old(backend), &b1, backend);
                        assert(old(backend).spec_bus_byte(old(self).state.pc as int) == Some(
                            (opcode >> 8) as u8,
                        ));
                        assert(old(backend).spec_bus_byte(old(self).state.pc as int + 1) == Some(
                            (opcode & 0xFF) as u8,
                        ));
                        assert(instruction_effect(
                            spec_decode(opcode),
                            old(self).quirks,
                            c1.state,
                            b1,
                            c2.state,
                            b2,
                            rr,
                        ));
                    }
                    match res {
                        Ok(_) => {},
                        Err(e) => {
                            return Err(e);
                        },
                    }
                    let period = self.finish_step(backend);
                    period
                },
                Err(e) => Err(e),
            }
        } else {
            self.finish_step(backend)
        }
    }

    /// The step's returned duration: the remaining span to the next 60 Hz
    /// boundary when a draw wait is pending (clearing the wait), the
    /// nominal 1/700 s period otherwise.
    fn finish_step(&mut self, backend: &Backend) -> (r: Result<Duration, Error>)
        requires
            old(self).wf(),
        ensures
            final(self).wf(),
            final(self).quirks == old(self).quirks,
            final(self).state.v@ == old(self).state.v@,
            final(self).state.i == old(self).state.i,
            final(self).state.pc == old(self).state.pc,
            final(self).state.sp == old(self).state.sp,
            final(self).state.stack@ == old(self).state.stack@,
            final(self).state.paused == old(self).state.paused,
            final(self).state.waiting_for_key == old(self).state.waiting_for_key,
            final(self).state.frame_buffer@ == old(self).state.frame_buffer@,
            final(self).state.keypad_state == old(self).state.keypad_state,
            final(self).state.waiting_for_vblank == old(self).state.waiting_for_vblank
                || !final(self).state.waiting_for_vblank,
            r matches Ok(d) ==> 0 < d.fs <= MAX_STEP_FS,
            r matches Ok(d) ==> (d.fs == CLOCK_SPEED_NS * FEMTOS_PER_NANOSEC
                || (!old(self).quirks.quirks_draw_not_waiting_for_vblank
                && !final(self).state.waiting_for_vblank
                && backend.clock.fs + d.fs == (backend.clock.fs as int / spec_vblank_fs() + 1)
                * spec_vblank_fs() && 0 < d.fs <= spec_vblank_fs())),
            r matches Err(e) ==> (e matches Error::Emulator(k, _) && k
                == EmulatorErrorKind::Misc),
            old(self).quirks.quirks_draw_not_waiting_for_vblank
                || !old(self).state.waiting_for_vblank ==> (r matches Ok(d) && d.fs
                == CLOCK_SPEED_NS * FEMTOS_PER_NANOSEC && *final(self) == *old(self)),
            !old(self).quirks.quirks_draw_not_waiting_for_vblank
                && old(self).state.waiting_for_vblank
                && !spec_vblank_overflow(backend.clock.fs)
                ==> (r matches Ok(d)
                && backend.clock.fs + d.fs == (backend.clock.fs as int / spec_vblank_fs() + 1)
                * spec_vblank_fs() && 0 < d.fs <= spec_vblank_fs()
                && !final(self).state.waiting_for_vblank),
            !old(self).quirks.quirks_draw_not_waiting_for_vblank
                && old(self).state.waiting_for_vblank
                && spec_vblank_overflow(backend.clock.fs)
                ==> (r matches Err(e)
                && e matches Error::Emulator(k, _) && k == EmulatorErrorKind::Misc
                && *final(self) == *old(self)),
    {
        if !self.quirks.quirks_draw_not_waiting_for_vblank && self.state.waiting_for_vblank {
            let vb: u128 = (VBLANK_CLOCK_SPEED_NS as u128) * FEMTOS_PER_NANOSEC;
            let now_fs = backend.clock.fs;
            let last_idx = now_fs / vb;
            if last_idx >= u128::MAX / vb {
                return Err(
                    Error::emulator(EmulatorErrorKind::Misc, "virtual clock out of range"),
                );
            }
            let next = (last_idx + 1) * vb;
            proof {
                vstd::arithmetic::div_mod::lemma_fundamental_div_mod(now_fs as int, vb as int);
                vstd::arithmetic::div_mod::lemma_fundamental_div_mod(u128::MAX as int, vb as int);
                vstd::arithmetic::mul::lemma_mul_inequality(
                    last_idx as int + 1,
                    u128::MAX as int / vb as int,
                    vb as int,
                );
                vstd::arithmetic::div_mod::lemma_mod_bound(now_fs as int, vb as int);
            }
            let dur = next - now_fs;
            self.state.waiting_for_vblank = false;
            Ok(Duration { fs: dur })
        } else {
            Ok(Duration::from_nanos(CLOCK_SPEED_NS))
        }
    }
}


/// The frame buffer's size never changes under a draw, and a draw never
/// writes outside the sprite's clipped rectangle: every cell outside it
/// keeps its value, so sprites never wrap at an edge.
pub proof fn lemma_draw_stays_in_bounds(fb: Seq<bool>, sx: int, sy: int, rows: Seq<u8>)
    ensures
        spec_draw_fb(fb, sx, sy, rows).len() == fb.len(),
        forall|i: int|
            0 <= i < fb.len() && !(sy <= i / 64 < sy + rows.len() && sx <= i % 64 < sx + 8)
                ==> #[trigger] spec_draw_fb(fb, sx, sy, rows)[i] == fb[i],
{
}

/// The FX55 / FX65 index rule per platform: the SUPER-CHIP profile leaves
/// the index register unchanged, the CHIP-8 profile advances it by X + 1,
/// wrapping at the end of the address space.
pub proof fn lemma_loadstore_index_rule(i: u16, x: int)
    requires
        0 <= x < 16,
    ensures
        spec_i_update(spec_quirks(Platform::SuperChip), i, x) == i,
        spec_i_update(spec_quirks(Platform::Chip8), i, x) == ((i as int + x + 1) % 0x10000) as u16,
{
}


/// Input events reach the CPU in enqueue order: consuming a queue with
/// one more event appended is the same as consuming the original queue
/// first and that event last.
pub proof fn lemma_consume_events_in_order(
    keys: Seq<bool>,
    waiting: Option<usize>,
    v: Seq<u8>,
    events: Seq<InputEvent>,
    event: InputEvent,
)
    ensures
        spec_consume_events(keys, waiting, v, events.push(event)) == spec_consume_event(
            spec_consume_events(keys, waiting, v, events).0,
            spec_consume_events(keys, waiting, v, events).1,
            spec_consume_events(keys, waiting, v, events).2,
            event,
        ),
    decreases events.len(),
{
    if events.len() == 0 {
        assert(events.push(event)[0] == event);
        assert(events.push(event).subrange(1, 1) =~= Seq::<InputEvent>::empty());
        let first = spec_consume_event(keys, waiting, v, event);
        assert(spec_consume_events(keys, waiting, v, events) == (keys, waiting, v));
        assert(spec_consume_events(first.0, first.1, first.2, Seq::<InputEvent>::empty())
            == first);
        assert(spec_consume_events(keys, waiting, v, events.push(event)) == first);
    } else {
        let stepped = spec_consume_event(keys, waiting, v, events[0]);
        assert(events.push(event)[0] == events[0]);
        assert(events.push(event).subrange(1, events.len() as int + 1) =~= events.subrange(
            1,
            events.len() as int,
        ).push(event));
        lemma_consume_events_in_order(
            stepped.0,
            stepped.1,
            stepped.2,
            events.subrange(1, events.len() as int),
            event,
        );
        assert(spec_consume_events(keys, waiting, v, events.push(event))
            == spec_consume_events(
            stepped.0,
            stepped.1,
            stepped.2,
            events.push(event).subrange(1, events.len() as int + 1),
        ));
        assert(spec_consume_events(keys, waiting, v, events) == spec_consume_events(
            stepped.0,
            stepped.1,
            stepped.2,
            events.subrange(1, events.len() as int),
        ));
    }
}

} // verus!
