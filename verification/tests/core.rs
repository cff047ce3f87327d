//! Tests of the kernel pieces: clock, ringbuffer, memory, bus dispatch,
//! channels, keypad, and the scheduler's timing guarantees.

use axwemulator::backend::Backend;
use axwemulator::chip8::{create_chip8_backend, Chip8Options, Platform, DT_TIMER, ST_TIMER};
use axwemulator::clock::{Duration, Instant};
use axwemulator::component::ComponentImpl;
use axwemulator::error::{EmulatorErrorKind, Error};
use axwemulator::graphics::{build_frame_channel, Frame};
use axwemulator::input::{build_input_channel, ButtonState, InputEvent, KeyboardEventKey};
use axwemulator::keypad::{InputButton, KeypadState};
use axwemulator::memory::MemoryBlock;
use axwemulator::ringbuffer::Ringbuffer;
use axwemulator::text::build_text_channel;
use axwemulator::timer::Timer;

fn memory_backend(rom: &[u8]) -> Backend {
    let mut backend = Backend::new();
    let mut block = MemoryBlock::from_vec(Vec::new());
    block.resize(0x1000);
    let mut data = Vec::new();
    data.extend_from_slice(rom);
    block.write(0x200, data.as_slice()).unwrap();
    backend.add_addressable_component("mem", 0x0, ComponentImpl::Memory(block));
    backend
}

#[test]
fn clock_units() {
    assert_eq!(Duration::from_nanos(1).fs, 1_000_000);
    assert_eq!(Duration::from_millis(1).fs, 1_000_000_000_000);
    assert_eq!(Instant::start().fs, 0);
    let t = Instant::start().checked_add(Duration::from_millis(20)).unwrap();
    assert_eq!(t.fs, 20_000_000_000_000);
    assert_eq!(t.as_duration().fs, t.fs);
    assert!(Instant::start().is_before(t));
}

#[test]
fn clock_overflow_is_detected() {
    let huge = Instant { fs: u128::MAX };
    assert!(huge.checked_add(Duration { fs: 1 }).is_none());
    assert!(huge.checked_add(Duration { fs: 0 }).is_some());
}

#[test]
fn ringbuffer_is_fifo() {
    let mut rb: Ringbuffer<u32> = Ringbuffer::new(4);
    assert!(rb.is_empty());
    rb.push_back(1);
    rb.push_back(2);
    rb.push_back(3);
    assert_eq!(rb.len(), 3);
    assert_eq!(rb.pop_front(), Some(1));
    assert_eq!(rb.pop_front(), Some(2));
    assert_eq!(rb.pop_front(), Some(3));
    assert_eq!(rb.pop_front(), None);
}

#[test]
fn ringbuffer_drops_oldest_on_overflow() {
    let mut rb: Ringbuffer<u32> = Ringbuffer::new(2);
    rb.push_back(1);
    rb.push_back(2);
    rb.push_back(3);
    assert_eq!(rb.len(), 2);
    assert_eq!(rb.capacity(), 2);
    assert_eq!(rb.pop_front(), Some(2));
    assert_eq!(rb.pop_front(), Some(3));
}

#[test]
fn ringbuffer_drain_and_peek() {
    let mut rb: Ringbuffer<u32> = Ringbuffer::new(8);
    for v in [10, 20, 30, 40] {
        rb.push_back(v);
    }
    assert_eq!(rb.peek_range(1, 3), vec![20, 30]);
    assert_eq!(rb.len(), 4);
    assert_eq!(rb.drain_and_pop_range(1, 3), vec![20, 30]);
    assert_eq!(rb.len(), 2);
    assert_eq!(rb.pop_front(), Some(10));
    assert_eq!(rb.pop_front(), Some(40));
    for v in [5, 6] {
        rb.push_back(v);
    }
    assert_eq!(rb.drain_and_pop_latest(), Some(6));
    assert!(rb.is_empty());
}

#[test]
fn memory_block_read_write_roundtrip() {
    let mut block = MemoryBlock::from_vec(vec![0; 16]);
    assert_eq!(block.size(), 16);
    block.write(4, &[1, 2, 3]).unwrap();
    assert_eq!(block.read(4, 3).unwrap(), vec![1, 2, 3]);
    assert_eq!(block.read_u8(5).unwrap(), 2);
    block.write_u8(5, 9).unwrap();
    assert_eq!(block.read_u8(5).unwrap(), 9);
}

#[test]
fn memory_block_out_of_bounds_fault() {
    let block = MemoryBlock::from_vec(vec![0; 8]);
    let err = block.read(6, 3).unwrap_err();
    assert_eq!(err.kind(), Some(EmulatorErrorKind::MemoryAccessOutOfBounds));
    let err = block.read_u8(8).unwrap_err();
    assert_eq!(err.kind(), Some(EmulatorErrorKind::MemoryAccessOutOfBounds));
}

#[test]
fn memory_block_read_only_fault() {
    let mut block = MemoryBlock::from_vec(vec![0; 8]);
    block.set_read_only();
    let err = block.write(0, &[1]).unwrap_err();
    assert_eq!(err.kind(), Some(EmulatorErrorKind::MemoryAccessReadOnly));
    assert_eq!(block.read_u8(0).unwrap(), 0);
}

#[test]
fn memory_block_resize_pads_and_truncates() {
    let mut block = MemoryBlock::from_vec(vec![7, 8]);
    block.resize(4);
    assert_eq!(block.read(0, 4).unwrap(), vec![7, 8, 0, 0]);
    block.resize(1);
    assert_eq!(block.size(), 1);
    assert_eq!(block.read_u8(0).unwrap(), 7);
}

#[test]
fn bus_reads_agree_with_mounted_memory() {
    let backend = memory_backend(&[0xAB, 0xCD]);
    assert_eq!(backend.bus_read_u8(0x200).unwrap(), 0xAB);
    assert_eq!(backend.bus_read_u8(0x201).unwrap(), 0xCD);
    assert_eq!(backend.bus_read_u16_be(0x200).unwrap(), 0xABCD);
    let err = backend.bus_read_u8(0x2000).unwrap_err();
    assert_eq!(err.kind(), Some(EmulatorErrorKind::Misc));
}

#[test]
fn bus_write_reaches_the_component() {
    let mut backend = memory_backend(&[]);
    backend.bus_write_u8(0x300, 0x5A).unwrap();
    assert_eq!(backend.bus_read_u8(0x300).unwrap(), 0x5A);
    let err = backend.bus_write_u8(0x2000, 1).unwrap_err();
    assert_eq!(err.kind(), Some(EmulatorErrorKind::Misc));
}

#[test]
fn get_device_finds_components_by_name() {
    let backend = memory_backend(&[]);
    assert!(backend.get_device("mem").is_ok());
    let err = match backend.get_device("nope") {
        Ok(_) => panic!("device should be missing"),
        Err(e) => e,
    };
    assert_eq!(err.kind(), Some(EmulatorErrorKind::Misc));
}

#[test]
fn error_constructors_carry_kind_and_message() {
    let e = Error::new("something odd");
    assert_eq!(e.kind(), Some(EmulatorErrorKind::Misc));
    let e = Error::emulator(EmulatorErrorKind::UnknownOpcode, "0xffff");
    assert_eq!(e.kind(), Some(EmulatorErrorKind::UnknownOpcode));
    match e {
        Error::Emulator(kind, msg) => {
            assert_eq!(kind, EmulatorErrorKind::UnknownOpcode);
            assert_eq!(msg, "0xffff");
        }
        Error::Other(_) => panic!("wrong variant"),
    }
}

#[test]
fn frame_as_rgba_vec_flattens_pixels() {
    let mut frame = Frame::new((2, 1));
    frame.data[1] = (10, 20, 30, 40);
    assert_eq!(frame.as_rgba_vec(), vec![0, 0, 0, 255, 10, 20, 30, 40]);
    assert_eq!(frame.width, 2);
    assert_eq!(frame.height, 1);
}

#[test]
fn frame_channel_keeps_latest() {
    let mut channel = build_frame_channel(64, 32);
    assert_eq!(channel.max_size(), (64, 32));
    assert!(channel.latest().is_none());
    channel.add(Instant::start(), Frame::new((64, 32)));
    channel.add(Instant { fs: 5 }, Frame::new((64, 32)));
    let (stamp, _) = channel.latest().unwrap();
    assert_eq!(stamp.fs, 5);
    assert!(channel.latest().is_none());
}

#[test]
fn input_channel_delivers_in_order() {
    let mut channel = build_input_channel();
    assert!(channel.is_empty());
    channel.add(InputEvent::Keyboard(KeyboardEventKey::A, ButtonState::Pressed));
    channel.add(InputEvent::Keyboard(KeyboardEventKey::B, ButtonState::Released));
    assert_eq!(
        channel.pop(),
        Some(InputEvent::Keyboard(KeyboardEventKey::A, ButtonState::Pressed))
    );
    assert_eq!(
        channel.pop(),
        Some(InputEvent::Keyboard(KeyboardEventKey::B, ButtonState::Released))
    );
    assert_eq!(channel.pop(), None);
}

#[test]
fn text_channel_pops_in_order() {
    let mut channel = build_text_channel();
    channel.add(Instant::start(), String::from("one"));
    channel.add(Instant { fs: 1 }, String::from("two"));
    let (_, first) = channel.pop().unwrap();
    assert_eq!(first, "one");
    let (_, last) = channel.latest().unwrap();
    assert_eq!(last, "two");
    assert!(channel.is_empty());
}

#[test]
fn keypad_maps_qwerty_to_hex_buttons() {
    assert_eq!(InputButton::from_key(KeyboardEventKey::Number1), Some(InputButton::Button1));
    assert_eq!(InputButton::from_key(KeyboardEventKey::Number4), Some(InputButton::ButtonC));
    assert_eq!(InputButton::from_key(KeyboardEventKey::Q), Some(InputButton::Button4));
    assert_eq!(InputButton::from_key(KeyboardEventKey::V), Some(InputButton::ButtonF));
    assert_eq!(InputButton::from_key(KeyboardEventKey::Z), None);
    assert_eq!(InputButton::from_value(0x0), Some(InputButton::Button0));
    assert_eq!(InputButton::from_value(16), None);
    assert_eq!(InputButton::ButtonF.value(), 15);
}

#[test]
fn keypad_tracks_held_state() {
    let mut keypad = KeypadState::new();
    assert_eq!(keypad.get_state_for_button(InputButton::Button5), ButtonState::Released);
    keypad.parse_input_event(InputEvent::Keyboard(KeyboardEventKey::W, ButtonState::Pressed));
    assert_eq!(keypad.get_state_for_button(InputButton::Button5), ButtonState::Pressed);
    keypad.parse_input_event(InputEvent::Keyboard(KeyboardEventKey::W, ButtonState::Released));
    assert_eq!(keypad.get_state_for_button(InputButton::Button5), ButtonState::Released);
    keypad.parse_input_event(InputEvent::Keyboard(KeyboardEventKey::Z, ButtonState::Pressed));
    assert_eq!(keypad.get_state_for_button(InputButton::Button5), ButtonState::Released);
}

#[test]
fn timer_decrements_both_timer_bytes_at_60hz() {
    let mut backend = memory_backend(&[]);
    backend.bus_write_u8(DT_TIMER, 3).unwrap();
    backend.bus_write_u8(ST_TIMER, 1).unwrap();
    let mut timer = Timer::new();
    let d = timer.step(&mut backend).unwrap();
    assert_eq!(d.fs, 16_666_666_000_000);
    assert_eq!(backend.bus_read_u8(DT_TIMER).unwrap(), 2);
    assert_eq!(backend.bus_read_u8(ST_TIMER).unwrap(), 0);
    timer.step(&mut backend).unwrap();
    assert_eq!(backend.bus_read_u8(DT_TIMER).unwrap(), 1);
    assert_eq!(backend.bus_read_u8(ST_TIMER).unwrap(), 0);
}

#[test]
fn run_for_advances_clock_by_at_least_the_budget() {
    let rom = [0x12, 0x00];
    let mut backend = create_chip8_backend(Chip8Options {
        rom_data: rom.to_vec(),
        platform: Platform::Chip8,
    })
    .unwrap();
    let before = backend.get_current_clock();
    let budget = Duration::from_millis(10);
    backend.run_for(budget).unwrap();
    let after = backend.get_current_clock();
    let advanced = after.fs - before.fs;
    assert!(advanced >= budget.fs);
    assert!(advanced < budget.fs + 16_666_666_000_000);
}

#[test]
fn run_for_zero_budget_leaves_clock_alone() {
    let rom = [0x12, 0x00];
    let mut backend = create_chip8_backend(Chip8Options {
        rom_data: rom.to_vec(),
        platform: Platform::Chip8,
    })
    .unwrap();
    backend.run_for(Duration { fs: 0 }).unwrap();
    assert_eq!(backend.get_current_clock().fs, 0);
}

#[test]
fn fresh_backend_shows_font_rom_and_zeroes() {
    let rom = [0xAA, 0xBB, 0xCC];
    let backend = create_chip8_backend(Chip8Options {
        rom_data: rom.to_vec(),
        platform: Platform::Chip8,
    })
    .unwrap();
    assert_eq!(backend.bus_read_u8(0x50).unwrap(), 0xF0);
    assert_eq!(backend.bus_read_u8(0x9F).unwrap(), 0x80);
    assert_eq!(backend.bus_read_u8(0x00).unwrap(), 0);
    assert_eq!(backend.bus_read_u8(0x200).unwrap(), 0xAA);
    assert_eq!(backend.bus_read_u8(0x202).unwrap(), 0xCC);
    assert_eq!(backend.bus_read_u8(0x203).unwrap(), 0);
    assert!(backend.bus_read_u8(0xFFF).is_err());
    assert!(backend.get_device("cpu").is_ok());
    assert!(backend.get_device("timer").is_ok());
    assert!(backend.get_device("audio").is_ok());
}
