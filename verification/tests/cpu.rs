//! Tests of the CHIP-8 interpreter: opcode semantics, flags, quirks,
//! drawing, key waits, VBlank gating, and the audio generator.

use axwemulator::audio::{Audio, AudioSample};
use axwemulator::backend::Backend;
use axwemulator::chip8::{create_chip8_backend, Chip8Options, Platform, DT_TIMER, ST_TIMER};
use axwemulator::clock::{Duration, Instant};
use axwemulator::component::ComponentImpl;
use axwemulator::cpu::{Cpu, Instruction};
use axwemulator::error::{EmulatorErrorKind, Error};
use axwemulator::input::{ButtonState, InputEvent, KeyboardEventKey};
use axwemulator::memory::MemoryBlock;

fn memory_backend(rom: &[u8]) -> Backend {
    let mut backend = Backend::new();
    let mut block = MemoryBlock::from_vec(Vec::new());
    block.resize(0x1000);
    let mut data = Vec::new();
    data.extend_from_slice(rom);
    block.write(0x200, data.as_slice()).unwrap();
    backend.add_addressable_component("mem", 0x0, ComponentImpl::Memory(block));
    backend
}

fn exec(cpu: &mut Cpu, backend: &mut Backend, opcode: u16) {
    let instruction = Instruction::decode(opcode);
    instruction.execute(cpu, backend).unwrap();
}

#[test]
fn bcd_stores_decimal_digits() {
    let mut backend = memory_backend(&[]);
    let mut cpu = Cpu::new(Platform::Chip8);
    cpu.state.v[0] = 0xFE;
    cpu.state.i = 0x300;
    exec(&mut cpu, &mut backend, 0xF033);
    assert_eq!(backend.bus_read_u8(0x300).unwrap(), 2);
    assert_eq!(backend.bus_read_u8(0x301).unwrap(), 5);
    assert_eq!(backend.bus_read_u8(0x302).unwrap(), 4);
}

#[test]
fn add_wraps_and_sets_carry_then_sub_borrows() {
    let mut backend = memory_backend(&[]);
    let mut cpu = Cpu::new(Platform::Chip8);
    cpu.state.v[0] = 0xFF;
    cpu.state.v[1] = 0x01;
    exec(&mut cpu, &mut backend, 0x8014);
    assert_eq!(cpu.state.v[0], 0x00);
    assert_eq!(cpu.state.v[0xF], 1);
    exec(&mut cpu, &mut backend, 0x8015);
    assert_eq!(cpu.state.v[0], 0xFF);
    assert_eq!(cpu.state.v[0xF], 0);
}

#[test]
fn carry_flag_reflects_pre_result_state() {
    let mut backend = memory_backend(&[]);
    let mut cpu = Cpu::new(Platform::Chip8);
    cpu.state.v[2] = 0x10;
    cpu.state.v[3] = 0x20;
    exec(&mut cpu, &mut backend, 0x8234);
    assert_eq!(cpu.state.v[2], 0x30);
    assert_eq!(cpu.state.v[0xF], 0);
    cpu.state.v[4] = 0x05;
    cpu.state.v[5] = 0x03;
    exec(&mut cpu, &mut backend, 0x8457);
    assert_eq!(cpu.state.v[4], 0xFE);
    assert_eq!(cpu.state.v[0xF], 0);
    cpu.state.v[6] = 0x03;
    cpu.state.v[7] = 0x05;
    exec(&mut cpu, &mut backend, 0x8677);
    assert_eq!(cpu.state.v[6], 0x02);
    assert_eq!(cpu.state.v[0xF], 1);
}

#[test]
fn shift_flags_take_the_bit_shifted_out() {
    let mut backend = memory_backend(&[]);
    let mut cpu = Cpu::new(Platform::Chip8);
    cpu.state.v[1] = 0;
    cpu.state.v[2] = 0x03;
    exec(&mut cpu, &mut backend, 0x8126);
    assert_eq!(cpu.state.v[1], 0x01);
    assert_eq!(cpu.state.v[0xF], 1);
    cpu.state.v[2] = 0x81;
    exec(&mut cpu, &mut backend, 0x812E);
    assert_eq!(cpu.state.v[1], 0x02);
    assert_eq!(cpu.state.v[0xF], 1);
}

#[test]
fn shift_quirk_diverges_between_platforms() {
    let mut backend = memory_backend(&[]);
    let mut cpu = Cpu::new(Platform::Chip8);
    cpu.state.v[1] = 0x80;
    cpu.state.v[2] = 0x01;
    exec(&mut cpu, &mut backend, 0x812E);
    assert_eq!(cpu.state.v[1], 0x02);
    assert_eq!(cpu.state.v[0xF], 0);

    let mut cpu = Cpu::new(Platform::SuperChip);
    cpu.state.v[1] = 0x80;
    cpu.state.v[2] = 0x01;
    exec(&mut cpu, &mut backend, 0x812E);
    assert_eq!(cpu.state.v[1], 0x00);
    assert_eq!(cpu.state.v[0xF], 1);
}

#[test]
fn logic_ops_reset_flag_unless_quirked() {
    let mut backend = memory_backend(&[]);
    let mut cpu = Cpu::new(Platform::Chip8);
    cpu.state.v[0] = 0b1010;
    cpu.state.v[1] = 0b0110;
    cpu.state.v[0xF] = 7;
    exec(&mut cpu, &mut backend, 0x8011);
    assert_eq!(cpu.state.v[0], 0b1110);
    assert_eq!(cpu.state.v[0xF], 0);

    let mut cpu = Cpu::new(Platform::SuperChip);
    cpu.state.v[0] = 0b1010;
    cpu.state.v[1] = 0b0110;
    cpu.state.v[0xF] = 7;
    exec(&mut cpu, &mut backend, 0x8013);
    assert_eq!(cpu.state.v[0], 0b1100);
    assert_eq!(cpu.state.v[0xF], 7);
}

#[test]
fn loadstore_index_rule_diverges_between_platforms() {
    let mut backend = memory_backend(&[]);
    let mut cpu = Cpu::new(Platform::Chip8);
    cpu.state.i = 0x300;
    cpu.state.v[0] = 11;
    cpu.state.v[1] = 22;
    exec(&mut cpu, &mut backend, 0xF155);
    assert_eq!(backend.bus_read_u8(0x300).unwrap(), 11);
    assert_eq!(backend.bus_read_u8(0x301).unwrap(), 22);
    assert_eq!(cpu.state.i, 0x302);

    let mut cpu = Cpu::new(Platform::SuperChip);
    cpu.state.i = 0x310;
    cpu.state.v[0] = 33;
    cpu.state.v[1] = 44;
    exec(&mut cpu, &mut backend, 0xF155);
    assert_eq!(cpu.state.i, 0x310);

    let mut cpu = Cpu::new(Platform::Chip8);
    cpu.state.i = 0x300;
    exec(&mut cpu, &mut backend, 0xF165);
    assert_eq!(cpu.state.v[0], 11);
    assert_eq!(cpu.state.v[1], 22);
    assert_eq!(cpu.state.i, 0x302);
}

#[test]
fn timers_are_readable_and_writable_through_fx_opcodes() {
    let mut backend = memory_backend(&[]);
    let mut cpu = Cpu::new(Platform::Chip8);
    cpu.state.v[4] = 42;
    exec(&mut cpu, &mut backend, 0xF415);
    assert_eq!(backend.bus_read_u8(DT_TIMER).unwrap(), 42);
    exec(&mut cpu, &mut backend, 0xF518);
    assert_eq!(backend.bus_read_u8(ST_TIMER).unwrap(), 0);
    exec(&mut cpu, &mut backend, 0xF607);
    assert_eq!(cpu.state.v[6], 42);
}

#[test]
fn unknown_opcode_is_reported_with_its_kind() {
    let mut backend = memory_backend(&[]);
    let mut cpu = Cpu::new(Platform::Chip8);
    let err = Instruction::decode(0x800F).execute(&mut cpu, &mut backend).unwrap_err();
    assert_eq!(err.kind(), Some(EmulatorErrorKind::UnknownOpcode));
    match err {
        Error::Emulator(_, msg) => assert_eq!(msg, "0x800f"),
        Error::Other(_) => panic!("wrong variant"),
    }
    let err = Instruction::decode(0xE001).execute(&mut cpu, &mut backend).unwrap_err();
    assert_eq!(err.kind(), Some(EmulatorErrorKind::UnknownOpcode));
}

#[test]
fn skip_compare_opcodes_require_a_zero_low_nibble() {
    assert_eq!(Instruction::decode(0x5120), Instruction::SkipIfCmp(1, 2));
    assert_eq!(Instruction::decode(0x9120), Instruction::SkipIfNotCmp(1, 2));
    assert_eq!(Instruction::decode(0x5123), Instruction::Unknown(0x5123));
    assert_eq!(Instruction::decode(0x9ABC), Instruction::Unknown(0x9ABC));
    let mut backend = memory_backend(&[]);
    let mut cpu = Cpu::new(Platform::Chip8);
    let err = Instruction::decode(0x5123).execute(&mut cpu, &mut backend).unwrap_err();
    assert_eq!(err.kind(), Some(EmulatorErrorKind::UnknownOpcode));
}

#[test]
fn out_of_range_keypad_query_is_a_fault() {
    let mut backend = memory_backend(&[]);
    let mut cpu = Cpu::new(Platform::Chip8);
    cpu.state.v[0] = 0x20;
    let err = Instruction::decode(0xE09E).execute(&mut cpu, &mut backend).unwrap_err();
    assert_eq!(err.kind(), Some(EmulatorErrorKind::Misc));
}

#[test]
fn draw_xors_clips_and_reports_collisions() {
    let mut backend = memory_backend(&[]);
    backend.bus_write_u8(0x400, 0b1100_0000).unwrap();
    let mut cpu = Cpu::new(Platform::SuperChip);
    cpu.state.i = 0x400;
    cpu.state.v[0] = 62;
    cpu.state.v[1] = 31;
    exec(&mut cpu, &mut backend, 0xD011);
    assert!(cpu.state.frame_buffer[31 * 64 + 62]);
    assert!(cpu.state.frame_buffer[31 * 64 + 63]);
    assert_eq!(cpu.state.v[0xF], 0);
    for y in 0..31 {
        for x in 0..62 {
            assert!(!cpu.state.frame_buffer[y * 64 + x]);
        }
    }
    exec(&mut cpu, &mut backend, 0xD011);
    assert!(!cpu.state.frame_buffer[31 * 64 + 62]);
    assert!(!cpu.state.frame_buffer[31 * 64 + 63]);
    assert_eq!(cpu.state.v[0xF], 1);
    let (_, frame) = backend.frames.latest().unwrap();
    assert_eq!(frame.width, 64);
    assert_eq!(frame.height, 32);
    assert_eq!(frame.data.len(), 64 * 32);
}

#[test]
fn fx0a_suspends_until_a_mapped_key_release() {
    let rom = [0xF3, 0x0A, 0x60, 0x42];
    let mut backend = memory_backend(&rom);
    let mut cpu = Cpu::new(Platform::Chip8);
    cpu.step(&mut backend).unwrap();
    assert_eq!(cpu.state.waiting_for_key, Some(3));
    assert_eq!(cpu.state.pc, 0x202);
    cpu.step(&mut backend).unwrap();
    assert_eq!(cpu.state.pc, 0x202);
    backend.input.add(InputEvent::Keyboard(KeyboardEventKey::X, ButtonState::Pressed));
    cpu.step(&mut backend).unwrap();
    assert_eq!(cpu.state.waiting_for_key, Some(3));
    assert_eq!(cpu.state.pc, 0x202);
    backend.input.add(InputEvent::Keyboard(KeyboardEventKey::X, ButtonState::Released));
    cpu.step(&mut backend).unwrap();
    assert_eq!(cpu.state.waiting_for_key, None);
    assert_eq!(cpu.state.v[3], 0);
    assert_eq!(cpu.state.v[0], 0x42);
    assert_eq!(cpu.state.pc, 0x204);
}

#[test]
fn vblank_gating_diverges_between_platforms() {
    let rom = [0xD0, 0x01];
    let mut backend = memory_backend(&rom);
    backend.clock = Instant { fs: 5_000_000_000_000 };
    let mut cpu = Cpu::new(Platform::Chip8);
    let d = cpu.step(&mut backend).unwrap();
    assert_eq!(d.fs, 16_666_666_000_000 - 5_000_000_000_000);
    assert!(!cpu.state.waiting_for_vblank);

    let mut backend = memory_backend(&rom);
    backend.clock = Instant { fs: 5_000_000_000_000 };
    let mut cpu = Cpu::new(Platform::SuperChip);
    let d = cpu.step(&mut backend).unwrap();
    assert_eq!(d.fs, 1_428_571_000_000);
}

#[test]
fn skip_opcodes_advance_past_the_next_instruction() {
    let mut backend = memory_backend(&[]);
    let mut cpu = Cpu::new(Platform::Chip8);
    cpu.state.v[0] = 7;
    exec(&mut cpu, &mut backend, 0x3007);
    assert_eq!(cpu.state.pc, 0x202);
    exec(&mut cpu, &mut backend, 0x3008);
    assert_eq!(cpu.state.pc, 0x202);
    exec(&mut cpu, &mut backend, 0x4008);
    assert_eq!(cpu.state.pc, 0x204);
    cpu.state.v[1] = 7;
    exec(&mut cpu, &mut backend, 0x5010);
    assert_eq!(cpu.state.pc, 0x206);
    exec(&mut cpu, &mut backend, 0x9010);
    assert_eq!(cpu.state.pc, 0x206);
}

#[test]
fn call_and_return_use_the_stack() {
    let mut backend = memory_backend(&[]);
    let mut cpu = Cpu::new(Platform::Chip8);
    cpu.state.pc = 0x234;
    exec(&mut cpu, &mut backend, 0x2456);
    assert_eq!(cpu.state.pc, 0x456);
    assert_eq!(cpu.state.sp, 1);
    assert_eq!(cpu.state.stack[0], 0x234);
    exec(&mut cpu, &mut backend, 0x00EE);
    assert_eq!(cpu.state.pc, 0x234);
    assert_eq!(cpu.state.sp, 0);
}

#[test]
fn font_pointer_and_index_arithmetic() {
    let mut backend = memory_backend(&[]);
    let mut cpu = Cpu::new(Platform::Chip8);
    cpu.state.v[2] = 0xA;
    exec(&mut cpu, &mut backend, 0xF229);
    assert_eq!(cpu.state.i, 0x50 + 0xA * 5);
    cpu.state.i = 0xFFFF;
    cpu.state.v[3] = 2;
    exec(&mut cpu, &mut backend, 0xF31E);
    assert_eq!(cpu.state.i, 1);
}

#[test]
fn jump_and_jump_v0_respect_the_quirk() {
    let mut backend = memory_backend(&[]);
    let mut cpu = Cpu::new(Platform::Chip8);
    cpu.state.v[0] = 4;
    exec(&mut cpu, &mut backend, 0xB234);
    assert_eq!(cpu.state.pc, 0x238);

    let mut cpu = Cpu::new(Platform::SuperChip);
    cpu.state.v[2] = 0x10;
    exec(&mut cpu, &mut backend, 0xB234);
    assert_eq!(cpu.state.pc, 0x244);
}

#[test]
fn random_masks_the_drawn_byte() {
    let mut backend = memory_backend(&[]);
    let mut cpu = Cpu::new(Platform::Chip8);
    exec(&mut cpu, &mut backend, 0xC00F);
    assert_eq!(cpu.state.v[0] & 0xF0, 0);
    exec(&mut cpu, &mut backend, 0xC100);
    assert_eq!(cpu.state.v[1], 0);
}

#[test]
fn audio_generates_tone_only_while_sound_timer_runs() {
    let mut backend = memory_backend(&[]);
    backend.bus_write_u8(ST_TIMER, 2).unwrap();
    let mut audio = Audio::new();
    let d = audio.step(&mut backend).unwrap();
    assert_eq!(d.fs, 20_833_000_000);
    let d2 = audio.step(&mut backend).unwrap();
    assert_eq!(d2.fs, 20_833_000_000);
    backend.bus_write_u8(ST_TIMER, 0).unwrap();
    audio.step(&mut backend).unwrap();
    let first = backend.audio.pop().unwrap();
    assert_eq!(first.1, AudioSample::Tone(1));
    let second = backend.audio.pop().unwrap();
    assert_eq!(second.1, AudioSample::Tone(2));
    let third = backend.audio.pop().unwrap();
    assert_eq!(third.1, AudioSample::Silence);
}

#[test]
fn cls_clears_the_screen_and_emits_a_frame() {
    let mut backend = memory_backend(&[]);
    let mut cpu = Cpu::new(Platform::Chip8);
    cpu.state.frame_buffer[100] = true;
    exec(&mut cpu, &mut backend, 0x00E0);
    assert!(cpu.state.frame_buffer.iter().all(|p| !p));
    let (_, frame) = backend.frames.latest().unwrap();
    assert!(frame.data.iter().all(|p| *p == (0, 0, 0, 255)));
}

#[test]
fn ibm_logo_rom_draws_the_logo() {
    let rom: Vec<u8> = vec![
        0x00, 0xE0, 0xA2, 0x2A, 0x60, 0x0C, 0x61, 0x08, 0xD0, 0x1F, 0x70, 0x09, 0xA2, 0x39, 0xD0,
        0x1F, 0xA2, 0x48, 0x70, 0x08, 0xD0, 0x1F, 0x70, 0x04, 0xA2, 0x57, 0xD0, 0x1F, 0x70, 0x08,
        0xA2, 0x66, 0xD0, 0x1F, 0x70, 0x08, 0xA2, 0x75, 0xD0, 0x1F, 0x12, 0x28, 0xFF, 0x00, 0xFF,
        0x00, 0x3C, 0x00, 0x3C, 0x00, 0x3C, 0x00, 0x3C, 0x00, 0xFF, 0x00, 0xFF, 0xFF, 0x00, 0xFF,
        0x00, 0x38, 0x00, 0x3F, 0x00, 0x3F, 0x00, 0x38, 0x00, 0xFF, 0x00, 0xFF, 0x80, 0x00, 0xE0,
        0x00, 0xE0, 0x00, 0x80, 0x00, 0x80, 0x00, 0x80, 0x00, 0xE0, 0x00, 0xE0, 0xF8, 0x00, 0xFC,
        0x00, 0x3E, 0x00, 0x3F, 0x00, 0x3B, 0x00, 0x39, 0x00, 0xF8, 0x00, 0xF8, 0x03, 0x00, 0x07,
        0x00, 0x0F, 0x00, 0xBF, 0x00, 0xFB, 0x00, 0xF3, 0x00, 0xE3, 0x00, 0x43, 0xE0, 0x00, 0xE0,
        0x00, 0x80, 0x00, 0x80, 0x00, 0x80, 0x00, 0x80, 0x00, 0xE0, 0x00, 0xE0,
    ];
    // Expected frame, rasterized independently from the same sprite data.
    let sprites: [(usize, usize, usize); 6] = [
        (0x22A, 12, 8),
        (0x239, 21, 8),
        (0x248, 29, 8),
        (0x257, 33, 8),
        (0x266, 41, 8),
        (0x275, 49, 8),
    ];
    let mut expected = [false; 64 * 32];
    for &(addr, sx, sy) in sprites.iter() {
        for row in 0..15 {
            let b = rom[addr - 0x200 + row];
            for c in 0..8 {
                let x = sx + c;
                let y = sy + row;
                if x < 64 && y < 32 {
                    if (b >> (7 - c)) & 1 == 1 {
                        expected[y * 64 + x] ^= true;
                    }
                }
            }
        }
    }
    let mut backend = create_chip8_backend(Chip8Options {
        rom_data: rom.clone(),
        platform: Platform::Chip8,
    })
    .unwrap();
    backend.run_for(Duration::from_millis(1000)).unwrap();
    let (_, frame) = backend.frames.latest().unwrap();
    let mut lit = 0;
    for i in 0..64 * 32 {
        let white = frame.data[i] == (255, 255, 255, 255);
        assert_eq!(white, expected[i], "pixel {} differs", i);
        if white {
            lit += 1;
        }
    }
    assert!(lit > 0);
    let cpu_component = backend.get_device("cpu").unwrap();
    match &cpu_component.imp {
        ComponentImpl::Cpu(c) => {
            assert_eq!(c.state.v[0xF], 0);
        }
        _ => panic!("cpu component has the wrong shape"),
    }
}

#[test]
fn scheduler_is_deterministic_across_runs() {
    let rom = [0x60, 0x05, 0xF0, 0x18, 0x12, 0x04];
    let run = || {
        let mut backend = create_chip8_backend(Chip8Options {
            rom_data: rom.to_vec(),
            platform: Platform::Chip8,
        })
        .unwrap();
        backend.run_for(Duration::from_millis(50)).unwrap();
        let mut samples = Vec::new();
        while let Some((stamp, sample)) = backend.audio.pop() {
            samples.push((stamp.fs, sample));
        }
        (backend.get_current_clock().fs, samples)
    };
    let first = run();
    let second = run();
    assert_eq!(first, second);
}
