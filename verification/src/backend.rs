//! The backend: component registry, address bus dispatch, and the
//! discrete-event scheduler that drives everything.
//!
//! The backend owns a monotonic virtual clock, a registry of named
//! components, a queue of pending component steps ordered by clock (with
//! an insertion sequence number as the deterministic tie-break), the bus
//! mount table, and the channels that connect the emulation to a frontend.

use vstd::prelude::*;

use crate::audio::{build_audio_channel, AudioChannel, AUDIO_CLOCK_SPEED_NS, AUDIO_SAMPLING_RATE};
use crate::bus::{Bus, BusMount};
use crate::clock::{Duration, Instant, FEMTOS_PER_NANOSEC};
use crate::component::{Component, ComponentId, ComponentImpl, MemoryAddress};
use crate::error::{EmulatorErrorKind, Error};
use crate::graphics::{build_frame_channel, FrameChannel};
use crate::input::{build_input_channel, InputChannel};
use crate::chip8::{DT_TIMER, ST_TIMER};
use crate::cpu::spec_consume_events;
use crate::text::{build_text_channel, TextChannel};
use crate::timer::{spec_tick, TIMER_CLOCK_SPEED_NS};

verus! {

/// The longest duration any component step may ask to wait: one 60 Hz
/// period, in femtoseconds.
pub const MAX_STEP_FS: u128 = 16_666_666 * 1_000_000;

/// One pending component step, ordered by `clock` with `seq` as the
/// deterministic tie-break.
#[derive(Clone, Copy, Debug, PartialEq, Eq, Structural)]
pub struct SchedulerEvent {
    /// When the step is due.
    pub clock: Instant,
    /// Insertion sequence number; earlier insertions run first on a tie.
    pub seq: u64,
    /// The component to step.
    pub component: ComponentId,
}

/// A registry entry: a component and the name it was registered under.
pub struct NamedComponent {
    /// The name the component answers to.
    pub name: String,
    /// The component itself.
    pub component: Component,
}

/// Whether `post` is `pre` with at most the contents of its memory blocks
/// changed: same length and read-only flag for every memory block, and
/// every other implementation untouched.
pub open spec fn imp_similar(pre: ComponentImpl, post: ComponentImpl) -> bool {
    match pre {
        ComponentImpl::Memory(m) => post matches ComponentImpl::Memory(m2) && m2.contents().len()
            == m.contents().len() && m2.spec_read_only() == m.spec_read_only(),
        _ => post == pre,
    }
}

/// What every bus write and every component step preserves of the
/// backend: the clock, the scheduler queue, the mount table, the
/// counters, and the identity, name and shape of every registered
/// component.  Channel contents and memory block contents may change.
pub open spec fn same_structure(pre: &Backend, post: &Backend) -> bool {
    &&& post.clock == pre.clock
    &&& post.scheduler_queue@ == pre.scheduler_queue@
    &&& post.bus.mounts@ == pre.bus.mounts@
    &&& post.next_seq == pre.next_seq
    &&& post.next_id == pre.next_id
    &&& post.components@.len() == pre.components@.len()
    &&& forall|ci: int|
        0 <= ci < pre.components@.len() ==> {
            &&& (#[trigger] post.components@[ci]).component.id == (
            #[trigger] pre.components@[ci]).component.id
            &&& post.components@[ci].name == pre.components@[ci].name
            &&& imp_similar(
                pre.components@[ci].component.imp,
                post.components@[ci].component.imp,
            )
        }
}

/// Whether `post` is `pre` with only the input channel's contents
/// changed.
pub open spec fn only_input_changed(pre: &Backend, post: &Backend) -> bool {
    &&& post.clock == pre.clock
    &&& post.components == pre.components
    &&& post.scheduler_queue == pre.scheduler_queue
    &&& post.bus == pre.bus
    &&& post.next_seq == pre.next_seq
    &&& post.next_id == pre.next_id
    &&& post.frames == pre.frames
    &&& post.audio == pre.audio
    &&& post.text == pre.text
}

/// The emulation backend.
pub struct Backend {
    /// The current virtual clock; never decreases.
    pub clock: Instant,
    /// The named components.
    pub components: Vec<NamedComponent>,
    /// Pending steps, one per steppable component.
    pub scheduler_queue: Vec<SchedulerEvent>,
    /// The bus mount table.
    pub bus: Bus,
    /// The next scheduler sequence number to hand out.
    pub next_seq: u64,
    /// The next component id to hand out.
    pub next_id: usize,
    /// Input events on their way to the CPU.
    pub input: InputChannel,
    /// Frames on their way to a display.
    pub frames: FrameChannel,
    /// Audio samples on their way to a playback device.
    pub audio: AudioChannel,
    /// Text lines on their way to a log view.
    pub text: TextChannel,
}

impl Backend {
    /// Whether some registry entry carries the id.
    pub open spec fn has_component(&self, id: ComponentId) -> bool {
        exists|ci: int|
            0 <= ci < self.components@.len() && (#[trigger] self.components@[ci]).component.id
                == id
    }

    /// The registry index of the component with the id (meaningful only
    /// when `has_component` holds and ids are distinct).
    pub open spec fn component_idx(&self, id: ComponentId) -> int {
        choose|ci: int|
            0 <= ci < self.components@.len() && (#[trigger] self.components@[ci]).component.id
                == id
    }

    /// The implementation of the component with the id.
    pub open spec fn imp_of(&self, id: ComponentId) -> ComponentImpl {
        self.components@[self.component_idx(id)].component.imp
    }

    /// No two registry entries share an id.
    pub open spec fn ids_distinct(&self) -> bool {
        forall|i: int, j: int|
            0 <= i < j < self.components@.len() ==> (#[trigger] self.components@[i]).component.id
                != (#[trigger] self.components@[j]).component.id
    }

    /// The mount at index `mi` is backed by a registered memory block of
    /// exactly the mount's size.
    pub open spec fn mount_backed(&self, mi: int) -> bool {
        let m = self.bus.mounts@[mi];
        &&& self.has_component(m.component)
        &&& self.imp_of(m.component) matches ComponentImpl::Memory(mem) && mem.contents().len()
            == m.size
    }

    /// What bus dispatch needs: a well-formed mount table whose every
    /// mount is backed by a registered memory block, with distinct ids.
    pub open spec fn bus_wf(&self) -> bool {
        &&& self.bus.wf()
        &&& self.ids_distinct()
        &&& forall|mi: int| 0 <= mi < self.bus.mounts@.len() ==> #[trigger] self.mount_backed(mi)
    }

    /// The mount whose range contains `addr`, if any.
    pub open spec fn spec_mount_at(&self, addr: int) -> Option<int> {
        if exists|mi: int|
            0 <= mi < self.bus.mounts@.len() && (#[trigger] self.bus.mounts@[mi]).spec_contains(
                addr,
            ) {
            Some(
                choose|mi: int|
                    0 <= mi < self.bus.mounts@.len() && (
                    #[trigger] self.bus.mounts@[mi]).spec_contains(addr),
            )
        } else {
            None
        }
    }

    /// The byte the bus shows at `addr`: the byte of the backing memory
    /// block of the mount containing `addr`, or `None` when no mount
    /// contains `addr` or the mount has no backing memory block.
    pub open spec fn spec_bus_byte(&self, addr: int) -> Option<u8> {
        match self.spec_mount_at(addr) {
            Some(mi) => {
                let m = self.bus.mounts@[mi];
                if self.has_component(m.component) {
                    match self.imp_of(m.component) {
                        ComponentImpl::Memory(mem) => {
                            if 0 <= addr - m.base < mem.contents().len() {
                                Some(mem.contents()[addr - m.base])
                            } else {
                                None
                            }
                        },
                        _ => None,
                    }
                } else {
                    None
                }
            },
            None => None,
        }
    }

    /// Whether a write to `addr` would reach a writable backing memory
    /// block.
    pub open spec fn spec_bus_writable(&self, addr: int) -> bool {
        match self.spec_mount_at(addr) {
            Some(mi) => {
                let m = self.bus.mounts@[mi];
                self.has_component(m.component) && (self.imp_of(m.component)
                    matches ComponentImpl::Memory(mem) && !mem.spec_read_only())
            },
            None => false,
        }
    }

    /// Under a well-formed bus, the mount containing an address is unique.
    pub proof fn lemma_mount_at_unique(&self, addr: int, mi: int)
        requires
            self.bus.wf(),
            0 <= mi < self.bus.mounts@.len(),
            self.bus.mounts@[mi].spec_contains(addr),
        ensures
            self.spec_mount_at(addr) == Some(mi),
    {
        let mj = choose|mj: int|
            0 <= mj < self.bus.mounts@.len() && (#[trigger] self.bus.mounts@[mj]).spec_contains(
                addr,
            );
        if mj != mi {
            if mj < mi {
                assert(self.bus.mounts@[mj].base + self.bus.mounts@[mj].size
                    <= self.bus.mounts@[mi].base || self.bus.mounts@[mi].base
                    + self.bus.mounts@[mi].size <= self.bus.mounts@[mj].base);
            } else {
                assert(self.bus.mounts@[mi].base + self.bus.mounts@[mi].size
                    <= self.bus.mounts@[mj].base || self.bus.mounts@[mj].base
                    + self.bus.mounts@[mj].size <= self.bus.mounts@[mi].base);
            }
        }
    }

    /// With distinct ids, the registry index of an id is unique.
    pub proof fn lemma_component_idx(&self, ci: int)
        requires
            self.ids_distinct(),
            0 <= ci < self.components@.len(),
        ensures
            self.component_idx(self.components@[ci].component.id) == ci,
    {
        let id = self.components@[ci].component.id;
        assert(self.has_component(id));
        let cj = self.component_idx(id);
        if cj != ci {
            if cj < ci {
                assert(self.components@[cj].component.id != self.components@[ci].component.id);
            } else {
                assert(self.components@[ci].component.id != self.components@[cj].component.id);
            }
        }
    }

    /// Every scheduler event names a registered steppable component, due
    /// no earlier than the clock and no later than one longest step after
    /// it.
    pub open spec fn queue_events_wf(&self) -> bool {
        forall|ei: int|
            0 <= ei < self.scheduler_queue@.len() ==> {
                let e = #[trigger] self.scheduler_queue@[ei];
                &&& self.has_component(e.component)
                &&& self.imp_of(e.component).is_steppable()
                &&& self.clock.fs <= e.clock.fs
                &&& e.clock.fs <= self.clock.fs + MAX_STEP_FS
            }
    }

    /// The backend's full invariant.
    pub open spec fn wf(&self) -> bool {
        &&& self.bus_wf()
        &&& self.input.wf()
        &&& self.queue_events_wf()
        &&& forall|ei: int, ej: int|
            0 <= ei < ej < self.scheduler_queue@.len() ==> (
            #[trigger] self.scheduler_queue@[ei]).component != (
            #[trigger] self.scheduler_queue@[ej]).component
        &&& forall|ci: int|
            0 <= ci < self.components@.len() && (
            #[trigger] self.components@[ci]).component.imp.is_steppable() ==> exists|ei: int|
                0 <= ei < self.scheduler_queue@.len() && (
                #[trigger] self.scheduler_queue@[ei]).component
                    == self.components@[ci].component.id
        &&& forall|ci: int|
            0 <= ci < self.components@.len() ==> (
            #[trigger] self.components@[ci]).component.imp.wf()
        &&& forall|ci: int|
            0 <= ci < self.components@.len() ==> (#[trigger] self.components@[ci]).component.id.0
                < self.next_id
    }

    /// A fresh backend: clock at the origin, nothing registered, empty
    /// channels.
    pub fn new() -> (r: Backend)
        ensures
            r.wf(),
            r.clock.fs == 0,
            r.components@.len() == 0,
            r.scheduler_queue@.len() == 0,
            r.bus.mounts@.len() == 0,
            r.next_seq == 0,
            r.next_id == 0,
            r.input.view().len() == 0,
            r.frames.view().len() == 0,
            r.audio.view().len() == 0,
            r.text.view().len() == 0,
    {
        Backend {
            clock: Instant::start(),
            components: Vec::new(),
            scheduler_queue: Vec::new(),
            bus: Bus::new(),
            next_seq: 0,
            next_id: 0,
            input: build_input_channel(),
            frames: build_frame_channel(0, 0),
            audio: build_audio_channel(AUDIO_SAMPLING_RATE, 5000),
            text: build_text_channel(),
        }
    }

    /// Extending the registry without touching the mount table leaves
    /// every bus byte and its writability unchanged.
    proof fn lemma_bus_unchanged_on_extend(pre: &Backend, post: &Backend)
        requires
            pre.bus_wf(),
            post.bus.mounts@ == pre.bus.mounts@,
            post.ids_distinct(),
            post.components@.len() == pre.components@.len() + 1,
            forall|ci: int|
                0 <= ci < pre.components@.len() ==> #[trigger] post.components@[ci]
                    == pre.components@[ci],
        ensures
            post.bus_wf(),
            forall|a: int| #[trigger] post.spec_bus_byte(a) == pre.spec_bus_byte(a),
            forall|a: int| #[trigger] post.spec_bus_writable(a) == pre.spec_bus_writable(a),
    {
        assert forall|mi: int| 0 <= mi < post.bus.mounts@.len() implies #[trigger] post.mount_backed(
            mi,
        ) by {
            assert(pre.mount_backed(mi));
            let cid = pre.bus.mounts@[mi].component;
            let ci = pre.component_idx(cid);
            assert(pre.components@[ci].component.id == cid);
            assert(post.components@[ci].component.id == cid);
            post.lemma_component_idx(ci);
        }
        assert forall|a: int| #[trigger] post.spec_bus_byte(a) == pre.spec_bus_byte(a) by {
            Backend::lemma_bus_point_unchanged_on_extend(pre, post, a);
        }
        assert forall|a: int| #[trigger] post.spec_bus_writable(a) == pre.spec_bus_writable(
            a,
        ) by {
            Backend::lemma_bus_point_unchanged_on_extend(pre, post, a);
        }
    }

    /// One address of `lemma_bus_unchanged_on_extend`.
    proof fn lemma_bus_point_unchanged_on_extend(pre: &Backend, post: &Backend, a: int)
        requires
            pre.bus_wf(),
            post.bus.mounts@ == pre.bus.mounts@,
            post.ids_distinct(),
            post.components@.len() == pre.components@.len() + 1,
            forall|ci: int|
                0 <= ci < pre.components@.len() ==> #[trigger] post.components@[ci]
                    == pre.components@[ci],
        ensures
            post.spec_bus_byte(a) == pre.spec_bus_byte(a),
            post.spec_bus_writable(a) == pre.spec_bus_writable(a),
    {
        if pre.spec_mount_at(a) is Some {
            let mj = pre.spec_mount_at(a).unwrap();
            assert(pre.bus.mounts@[mj].spec_contains(a));
            pre.lemma_mount_at_unique(a, mj);
            post.lemma_mount_at_unique(a, mj);
            assert(pre.mount_backed(mj));
            let cid = pre.bus.mounts@[mj].component;
            let cj = pre.component_idx(cid);
            assert(pre.components@[cj].component.id == cid);
            pre.lemma_component_idx(cj);
            assert(post.components@[cj].component.id == cid);
            post.lemma_component_idx(cj);
        } else {
            if post.spec_mount_at(a) is Some {
                let mj = post.spec_mount_at(a).unwrap();
                assert(post.bus.mounts@[mj].spec_contains(a));
                assert(pre.bus.mounts@[mj].spec_contains(a));
                pre.lemma_mount_at_unique(a, mj);
            }
        }
    }

    /// Registers `imp` under `name`, handing it a fresh id; a steppable
    /// implementation is also queued for its first step at the current
    /// clock.
    pub fn add_component(&mut self, name: &str, imp: ComponentImpl) -> (r: ComponentId)
        requires
            old(self).wf(),
            imp.wf(),
            old(self).next_id < usize::MAX,
            old(self).next_seq < u64::MAX,
        ensures
            final(self).wf(),
            !old(self).has_component(r),
            r.0 == old(self).next_id,
            final(self).next_id == old(self).next_id + 1,
            final(self).components@.len() == old(self).components@.len() + 1,
            forall|ci: int|
                0 <= ci < old(self).components@.len() ==> #[trigger] final(self).components@[ci]
                    == old(self).components@[ci],
            final(self).components@.last().component.id == r,
            final(self).components@.last().component.imp == imp,
            final(self).components@.last().name@ == name@,
            imp.is_steppable() ==> final(self).scheduler_queue@ == old(
                self,
            ).scheduler_queue@.push(
                SchedulerEvent { clock: old(self).clock, seq: old(self).next_seq, component: r },
            ) && final(self).next_seq == old(self).next_seq + 1,
            !imp.is_steppable() ==> final(self).scheduler_queue@ == old(self).scheduler_queue@
                && final(self).next_seq == old(self).next_seq,
            final(self).clock == old(self).clock,
            final(self).bus.mounts@ == old(self).bus.mounts@,
            final(self).input == old(self).input,
            final(self).frames == old(self).frames,
            final(self).audio == old(self).audio,
            final(self).text == old(self).text,
            forall|a: int| #[trigger] final(self).spec_bus_byte(a) == old(self).spec_bus_byte(a),
            forall|a: int|
                #[trigger] final(self).spec_bus_writable(a) == old(self).spec_bus_writable(a),
    {
        let id = ComponentId(self.next_id);
        self.next_id = self.next_id + 1;
        let steppable = match &imp {
            ComponentImpl::Timer(_) => true,
            ComponentImpl::Cpu(_) => true,
            ComponentImpl::Audio(_) => true,
            _ => false,
        };
        if steppable {
            self.scheduler_queue.push(
                SchedulerEvent { clock: self.clock, seq: self.next_seq, component: id },
            );
            self.next_seq = self.next_seq + 1;
        }
        self.components.push(NamedComponent { name: name.to_owned(), component: Component { id, imp } });
        proof {
            let pre = old(self);
            let post = self;
            let newci = post.components@.len() - 1;
            assert forall|ci: int| 0 <= ci < pre.components@.len() implies !((
            #[trigger] pre.components@[ci]).component.id == id) by {
                assert(pre.components@[ci].component.id.0 < pre.next_id);
            }
            assert(!pre.has_component(id));
            assert forall|i: int, j: int| 0 <= i < j < post.components@.len() implies (
            #[trigger] post.components@[i]).component.id != (
            #[trigger] post.components@[j]).component.id by {
                if j < pre.components@.len() {
                    assert(pre.components@[i].component.id != pre.components@[j].component.id);
                } else {
                    assert(post.components@[j].component.id == id);
                    assert(pre.components@[i].component.id.0 < pre.next_id);
                }
            }
            Backend::lemma_bus_unchanged_on_extend(pre, post);
            assert forall|ei: int| 0 <= ei < post.scheduler_queue@.len() implies {
                let e = #[trigger] post.scheduler_queue@[ei];
                &&& post.has_component(e.component)
                &&& post.imp_of(e.component).is_steppable()
                &&& post.clock.fs <= e.clock.fs
                &&& e.clock.fs <= post.clock.fs + MAX_STEP_FS
            } by {
                let e = post.scheduler_queue@[ei];
                if ei < pre.scheduler_queue@.len() {
                    assert(e == pre.scheduler_queue@[ei]);
                    let ci = pre.component_idx(e.component);
                    assert(pre.components@[ci].component.id == e.component);
                    assert(post.components@[ci].component.id == e.component);
                    post.lemma_component_idx(ci);
                } else {
                    assert(e.component == id);
                    post.lemma_component_idx(newci);
                }
            }
            assert forall|ei: int, ej: int|
                0 <= ei < ej < post.scheduler_queue@.len() implies (
            #[trigger] post.scheduler_queue@[ei]).component != (
            #[trigger] post.scheduler_queue@[ej]).component by {
                if ej < pre.scheduler_queue@.len() {
                    assert(pre.scheduler_queue@[ei].component
                        != pre.scheduler_queue@[ej].component);
                } else {
                    assert(post.scheduler_queue@[ej].component == id);
                    assert(pre.has_component(pre.scheduler_queue@[ei].component));
                }
            }
            assert forall|ci: int|
                0 <= ci < post.components@.len() && (
                #[trigger] post.components@[ci]).component.imp.is_steppable() implies exists|
                ei: int,
            |
                0 <= ei < post.scheduler_queue@.len() && (
                #[trigger] post.scheduler_queue@[ei]).component
                    == post.components@[ci].component.id by {
                if ci < pre.components@.len() {
                    let ei = choose|ei: int|
                        0 <= ei < pre.scheduler_queue@.len() && (
                        #[trigger] pre.scheduler_queue@[ei]).component
                            == pre.components@[ci].component.id;
                    assert(post.scheduler_queue@[ei].component
                        == post.components@[ci].component.id);
                } else {
                    let ei = post.scheduler_queue@.len() - 1;
                    assert(post.scheduler_queue@[ei].component
                        == post.components@[ci].component.id);
                }
            }
        }
        id
    }

    /// Registers a memory block under `name` and mounts it at `address`;
    /// the mounted range must fit the address space and stay disjoint
    /// from every existing mount.
    #[verifier::rlimit(100)]
    pub fn add_addressable_component(
        &mut self,
        name: &str,
        address: MemoryAddress,
        imp: ComponentImpl,
    ) -> (r: ComponentId)
        requires
            old(self).wf(),
            imp is Memory,
            imp.wf(),
            address + imp.memory_contents().len() <= usize::MAX,
            forall|mi: int|
                0 <= mi < old(self).bus.mounts@.len() ==> (address + imp.memory_contents().len()
                    <= (#[trigger] old(self).bus.mounts@[mi]).base || old(self).bus.mounts@[mi].base
                    + old(self).bus.mounts@[mi].size <= address),
            old(self).next_id < usize::MAX,
            old(self).next_seq < u64::MAX,
        ensures
            final(self).wf(),
            final(self).components@.len() == old(self).components@.len() + 1,
            final(self).bus.mounts@.len() == old(self).bus.mounts@.len() + 1,
            final(self).next_id == old(self).next_id + 1,
            final(self).next_seq == old(self).next_seq,
            final(self).scheduler_queue@ == old(self).scheduler_queue@,
            final(self).clock == old(self).clock,
            final(self).input == old(self).input,
            final(self).frames == old(self).frames,
            final(self).audio == old(self).audio,
            final(self).text == old(self).text,
            forall|a: int|
                address <= a < address + imp.memory_contents().len() ==> #[trigger] final(self).spec_bus_byte(a) == Some(imp.memory_contents()[a - address]),
            forall|a: int|
                address <= a < address + imp.memory_contents().len() ==> #[trigger] final(self).spec_bus_writable(a) == !imp.memory_read_only(),
            final(self).bus.mounts@.contains(
                BusMount {
                    base: address,
                    size: imp.memory_contents().len() as usize,
                    component: r,
                },
            ),
            forall|mi: int|
                0 <= mi < old(self).bus.mounts@.len() ==> final(self).bus.mounts@.contains(
                    #[trigger] old(self).bus.mounts@[mi],
                ),
            forall|mi: int|
                0 <= mi < final(self).bus.mounts@.len() ==> (old(self).bus.mounts@.contains(
                    #[trigger] final(self).bus.mounts@[mi],
                ) || final(self).bus.mounts@[mi] == (BusMount {
                    base: address,
                    size: imp.memory_contents().len() as usize,
                    component: r,
                })),
            forall|ci: int|
                0 <= ci < old(self).components@.len() ==> #[trigger] final(self).components@[ci]
                    == old(self).components@[ci],
            final(self).components@.last().component.id == r,
            final(self).components@.last().component.imp == imp,
            final(self).components@.last().name@ == name@,
            !old(self).has_component(r),
    {
        let size = match &imp {
            ComponentImpl::Memory(mem) => mem.size(),
            _ => 0,
        };
        let id = self.add_component(name, imp);
        let ghost mid: Backend = *self;
        proof {
            assert forall|mi: int| 0 <= mi < self.bus.mounts@.len() implies (
            #[trigger] self.bus.mounts@[mi]).component != id by {
                assert(old(self).mount_backed(mi));
                let cid = old(self).bus.mounts@[mi].component;
                let ci = old(self).component_idx(cid);
                assert(old(self).components@[ci].component.id == cid);
                assert(cid.0 < old(self).next_id);
                assert(id.0 == old(self).next_id);
            }
        }
        self.bus.insert(address, size, id);
        proof {
            let pre = old(self);
            let mid_b = mid;
            let post = self;
            let newmount = BusMount { base: address, size, component: id };
            let newci = post.components@.len() - 1;
            assert(post.components@ == mid_b.components@);
            assert forall|mi: int| 0 <= mi < post.bus.mounts@.len() implies #[trigger] post.mount_backed(
                mi,
            ) by {
                let m = post.bus.mounts@[mi];
                if m == newmount {
                    post.lemma_component_idx(newci);
                    assert(post.components@[newci].component.id == id);
                } else {
                    assert(mid_b.bus.mounts@.contains(m));
                    let mj = choose|mj: int|
                        0 <= mj < mid_b.bus.mounts@.len() && mid_b.bus.mounts@[mj] == m;
                    assert(mid_b.mount_backed(mj));
                    let cid = m.component;
                    let cj = mid_b.component_idx(cid);
                    assert(mid_b.components@[cj].component.id == cid);
                    post.lemma_component_idx(cj);
                }
            }
            assert forall|ei: int| 0 <= ei < post.scheduler_queue@.len() implies {
                let e = #[trigger] post.scheduler_queue@[ei];
                &&& post.has_component(e.component)
                &&& post.imp_of(e.component).is_steppable()
                &&& post.clock.fs <= e.clock.fs
                &&& e.clock.fs <= post.clock.fs + MAX_STEP_FS
            } by {
                let e = post.scheduler_queue@[ei];
                let ci = mid_b.component_idx(e.component);
                assert(mid_b.components@[ci].component.id == e.component);
                post.lemma_component_idx(ci);
            }
            assert forall|ci: int|
                0 <= ci < post.components@.len() && (
                #[trigger] post.components@[ci]).component.imp.is_steppable() implies exists|
                ei: int,
            |
                0 <= ei < post.scheduler_queue@.len() && (
                #[trigger] post.scheduler_queue@[ei]).component
                    == post.components@[ci].component.id by {
                assert(mid_b.components@[ci].component.imp.is_steppable());
            }
            assert forall|a: int|
                address <= a < address + imp.memory_contents().len() implies #[trigger] post.spec_bus_byte(
                a,
            ) == Some(imp.memory_contents()[a - address]) && #[trigger] post.spec_bus_writable(a)
                == !imp.memory_read_only() by {
                let mi = choose|mi: int|
                    0 <= mi < post.bus.mounts@.len() && post.bus.mounts@[mi] == newmount;
                assert(post.bus.mounts@[mi].spec_contains(a));
                post.lemma_mount_at_unique(a, mi);
                post.lemma_component_idx(newci);
            }
        }
        id
    }

    /// The current virtual clock.
    pub fn get_current_clock(&self) -> (r: Instant)
        ensures
            r == self.clock,
    {
        self.clock
    }

    /// The registry index of the component with the id, or `None` when
    /// the id is unknown.
    pub fn find_component_index(&self, id: ComponentId) -> (r: Option<usize>)
        ensures
            match r {
                Some(ci) => ci < self.components@.len() && self.components@[ci as int].component.id
                    == id,
                None => !self.has_component(id),
            },
    {
        let count = self.components.len();
        let mut ci: usize = 0;
        while ci < count
            invariant
                ci <= count,
                count == self.components@.len(),
                forall|i: int|
                    0 <= i < ci ==> (#[trigger] self.components@[i]).component.id != id,
            decreases count - ci,
        {
            if self.components[ci].component.id.0 == id.0 {
                return Some(ci);
            }
            ci = ci + 1;
        }
        None
    }

    /// A reference to the component registered under `name`, or a `Misc`
    /// fault when no component answers to it.
    pub fn get_device(&self, name: &str) -> (r: Result<&Component, Error>)
        ensures
            match r {
                Ok(c) => exists|ci: int|
                    0 <= ci < self.components@.len() && (#[trigger] self.components@[ci]).name@
                        == name@ && c == &self.components@[ci].component,
                Err(e) => (forall|ci: int|
                    0 <= ci < self.components@.len() ==> (#[trigger] self.components@[ci]).name@
                        != name@) && (e matches Error::Emulator(k, _) && k
                    == EmulatorErrorKind::Misc),
            },
    {
        let count = self.components.len();
        let mut ci: usize = 0;
        while ci < count
            invariant
                ci <= count,
                count == self.components@.len(),
                forall|i: int| 0 <= i < ci ==> (#[trigger] self.components@[i]).name@ != name@,
            decreases count - ci,
        {
            if self.components[ci].name == name.to_owned() {
                return Ok(&self.components[ci].component);
            }
            ci = ci + 1;
        }
        Err(Error::emulator(EmulatorErrorKind::Misc, "no component registered under that name"))
    }

    /// The single byte the bus shows at `address`, or a `Misc` fault when
    /// no mounted memory block covers it.
    pub fn bus_read_u8(&self, address: MemoryAddress) -> (r: Result<u8, Error>)
        requires
            self.bus_wf(),
        ensures
            match r {
                Ok(b) => self.spec_bus_byte(address as int) == Some(b),
                Err(e) => self.spec_bus_byte(address as int) is None && (e matches Error::Emulator(
                    k,
                    _,
                ) && k == EmulatorErrorKind::Misc),
            },
    {
        let looked_up = self.bus.get_component_at(address, 1);
        match looked_up {
            Ok((id, rel)) => {
                proof {
                    let mi = choose|mi: int|
                        0 <= mi < self.bus.mounts@.len() && (
                        #[trigger] self.bus.mounts@[mi]).spec_contains_range(address as int, 1)
                            && id == self.bus.mounts@[mi].component && rel == address
                            - self.bus.mounts@[mi].base;
                    self.lemma_mount_at_unique(address as int, mi);
                    assert(self.mount_backed(mi));
                }
                let found = self.find_component_index(id);
                match found {
                    Some(ci) => {
                        proof {
                            self.lemma_component_idx(ci as int);
                        }
                        match &self.components[ci].component.imp {
                            ComponentImpl::Memory(mem) => {
                                let got = mem.read_u8(rel);
                                match got {
                                    Ok(b) => Ok(b),
                                    Err(_) => {
                                        proof {
                                            assert(false);
                                        }
                                        Err(
                                            Error::emulator(
                                                EmulatorErrorKind::Misc,
                                                "unreachable: backed mount read failed",
                                            ),
                                        )
                                    },
                                }
                            },
                            _ => {
                                proof {
                                    assert(false);
                                }
                                Err(
                                    Error::emulator(
                                        EmulatorErrorKind::Misc,
                                        "unreachable: mount not backed by memory",
                                    ),
                                )
                            },
                        }
                    },
                    None => {
                        proof {
                            assert(false);
                        }
                        Err(
                            Error::emulator(
                                EmulatorErrorKind::Misc,
                                "unreachable: mount names an unknown component",
                            ),
                        )
                    },
                }
            },
            Err(e) => {
                proof {
                    if self.spec_mount_at(address as int) is Some {
                        let mi = self.spec_mount_at(address as int).unwrap();
                        assert(self.bus.mounts@[mi].spec_contains_range(address as int, 1));
                    }
                }
                Err(e)
            },
        }
    }

    /// Every implementation is similar to itself.
    pub proof fn lemma_imp_similar_refl(imp: &ComponentImpl)
        ensures
            imp_similar(*imp, *imp),
    {
        match imp {
            ComponentImpl::Memory(_) => {},
            _ => {},
        }
    }

    /// Structure preservation is reflexive.
    pub proof fn lemma_same_structure_refl(a: &Backend)
        ensures
            same_structure(a, a),
    {
        assert forall|ci: int| 0 <= ci < a.components@.len() implies imp_similar(
            (#[trigger] a.components@[ci]).component.imp,
            a.components@[ci].component.imp,
        ) by {
            Backend::lemma_imp_similar_refl(&a.components@[ci].component.imp);
        }
    }

    /// Structure preservation holds when only fields outside the
    /// registry, queue, clock, counters and mount table changed.
    pub proof fn lemma_same_structure_fields(a: &Backend, b: &Backend)
        requires
            b.clock == a.clock,
            b.scheduler_queue@ == a.scheduler_queue@,
            b.bus.mounts@ == a.bus.mounts@,
            b.next_seq == a.next_seq,
            b.next_id == a.next_id,
            b.components@ == a.components@,
        ensures
            same_structure(a, b),
    {
        assert forall|ci: int| 0 <= ci < a.components@.len() implies {
            &&& (#[trigger] b.components@[ci]).component.id == (
            #[trigger] a.components@[ci]).component.id
            &&& b.components@[ci].name == a.components@[ci].name
            &&& imp_similar(a.components@[ci].component.imp, b.components@[ci].component.imp)
        } by {
            assert(b.components@[ci] == a.components@[ci]);
            Backend::lemma_imp_similar_refl(&a.components@[ci].component.imp);
        }
    }

    /// Structure preservation composes.
    pub proof fn lemma_same_structure_trans(a: &Backend, b: &Backend, c: &Backend)
        requires
            same_structure(a, b),
            same_structure(b, c),
        ensures
            same_structure(a, c),
    {
        assert forall|ci: int| 0 <= ci < a.components@.len() implies {
            &&& (#[trigger] c.components@[ci]).component.id == (
            #[trigger] a.components@[ci]).component.id
            &&& c.components@[ci].name == a.components@[ci].name
            &&& imp_similar(a.components@[ci].component.imp, c.components@[ci].component.imp)
        } by {
            assert(imp_similar(a.components@[ci].component.imp, b.components@[ci].component.imp));
            assert(imp_similar(b.components@[ci].component.imp, c.components@[ci].component.imp));
        }
    }

    /// For every mounted memory block, the bus view at each address of
    /// the mount's range agrees byte-for-byte with the block itself, and
    /// the address is writable exactly when the block is.
    pub proof fn lemma_mounted_bytes(&self, mi: int, a: int)
        requires
            self.bus_wf(),
            0 <= mi < self.bus.mounts@.len(),
            self.bus.mounts@[mi].spec_contains(a),
        ensures
            self.spec_bus_byte(a) == Some(
                self.imp_of(self.bus.mounts@[mi].component).memory_contents()[a
                    - self.bus.mounts@[mi].base],
            ),
            self.spec_bus_writable(a) == !self.imp_of(
                self.bus.mounts@[mi].component,
            ).memory_read_only(),
    {
        self.lemma_mount_at_unique(a, mi);
        assert(self.mount_backed(mi));
        let cid = self.bus.mounts@[mi].component;
        let ci = self.component_idx(cid);
        assert(self.components@[ci].component.id == cid);
    }

    /// An address outside every mount shows no byte and is not writable.
    pub proof fn lemma_unmounted_byte(&self, a: int)
        requires
            forall|mi: int|
                0 <= mi < self.bus.mounts@.len() ==> !(
                #[trigger] self.bus.mounts@[mi]).spec_contains(a),
        ensures
            self.spec_bus_byte(a) is None,
            !self.spec_bus_writable(a),
    {
    }

    /// Two backends with the same mount table and registry show the same
    /// bus view at every address.
    pub proof fn lemma_bus_view_equal(pre: &Backend, post: &Backend)
        requires
            pre.bus_wf(),
            post.bus == pre.bus,
            post.components == pre.components,
        ensures
            post.bus_wf(),
            forall|a: int| #[trigger] post.spec_bus_byte(a) == pre.spec_bus_byte(a),
            forall|a: int| #[trigger] post.spec_bus_writable(a) == pre.spec_bus_writable(a),
    {
        assert forall|mi: int| 0 <= mi < post.bus.mounts@.len() implies #[trigger] post.mount_backed(
            mi,
        ) by {
            assert(pre.mount_backed(mi));
            let cid = pre.bus.mounts@[mi].component;
            let ci = pre.component_idx(cid);
            assert(pre.components@[ci].component.id == cid);
            assert(post.components@[ci].component.id == cid);
            post.lemma_component_idx(ci);
        }
        assert forall|a: int|
            #[trigger] post.spec_bus_byte(a) == pre.spec_bus_byte(a) && #[trigger] post.spec_bus_writable(
                a,
            ) == pre.spec_bus_writable(a) by {
            if pre.spec_mount_at(a) is Some {
                let mj = pre.spec_mount_at(a).unwrap();
                assert(pre.bus.mounts@[mj].spec_contains(a));
                pre.lemma_mount_at_unique(a, mj);
                post.lemma_mount_at_unique(a, mj);
                assert(pre.mount_backed(mj));
                let cid = pre.bus.mounts@[mj].component;
                let cj = pre.component_idx(cid);
                assert(pre.components@[cj].component.id == cid);
                pre.lemma_component_idx(cj);
                assert(post.components@[cj].component.id == cid);
                post.lemma_component_idx(cj);
            } else {
                if post.spec_mount_at(a) is Some {
                    let mj = post.spec_mount_at(a).unwrap();
                    assert(post.bus.mounts@[mj].spec_contains(a));
                    assert(pre.bus.mounts@[mj].spec_contains(a));
                    pre.lemma_mount_at_unique(a, mj);
                }
            }
        }
    }

    /// Replacing a component that is not a memory block leaves the bus
    /// view unchanged at every address.
    pub proof fn lemma_bus_view_equal_nonmem(pre: &Backend, post: &Backend, ci: int)
        requires
            pre.bus_wf(),
            post.bus.mounts@ == pre.bus.mounts@,
            post.components@.len() == pre.components@.len(),
            0 <= ci < pre.components@.len(),
            forall|ck: int|
                0 <= ck < pre.components@.len() && ck != ci ==> #[trigger] post.components@[ck]
                    == pre.components@[ck],
            post.components@[ci].component.id == pre.components@[ci].component.id,
            !(pre.components@[ci].component.imp is Memory),
            !(post.components@[ci].component.imp is Memory),
        ensures
            post.bus_wf(),
            forall|a: int| #[trigger] post.spec_bus_byte(a) == pre.spec_bus_byte(a),
            forall|a: int| #[trigger] post.spec_bus_writable(a) == pre.spec_bus_writable(a),
    {
        assert forall|i: int, j: int| 0 <= i < j < post.components@.len() implies (
        #[trigger] post.components@[i]).component.id != (
        #[trigger] post.components@[j]).component.id by {
            assert(post.components@[i].component.id == pre.components@[i].component.id);
            assert(post.components@[j].component.id == pre.components@[j].component.id);
            assert(pre.components@[i].component.id != pre.components@[j].component.id);
        }
        assert forall|mi: int| 0 <= mi < post.bus.mounts@.len() implies #[trigger] post.mount_backed(
            mi,
        ) by {
            assert(pre.mount_backed(mi));
            let cid = pre.bus.mounts@[mi].component;
            let cj = pre.component_idx(cid);
            assert(pre.components@[cj].component.id == cid);
            assert(pre.imp_of(cid) is Memory);
            pre.lemma_component_idx(cj);
            assert(cj != ci);
            assert(post.components@[cj].component.id == cid);
            post.lemma_component_idx(cj);
        }
        assert forall|a: int| #[trigger] post.spec_bus_byte(a) == pre.spec_bus_byte(a) by {
            Backend::lemma_bus_point_equal_nonmem(pre, post, ci, a);
        }
        assert forall|a: int| #[trigger] post.spec_bus_writable(a) == pre.spec_bus_writable(
            a,
        ) by {
            Backend::lemma_bus_point_equal_nonmem(pre, post, ci, a);
        }
    }

    /// One address of `lemma_bus_view_equal_nonmem`.
    proof fn lemma_bus_point_equal_nonmem(pre: &Backend, post: &Backend, ci: int, a: int)
        requires
            pre.bus_wf(),
            post.bus.mounts@ == pre.bus.mounts@,
            post.components@.len() == pre.components@.len(),
            0 <= ci < pre.components@.len(),
            forall|ck: int|
                0 <= ck < pre.components@.len() && ck != ci ==> #[trigger] post.components@[ck]
                    == pre.components@[ck],
            post.components@[ci].component.id == pre.components@[ci].component.id,
            !(pre.components@[ci].component.imp is Memory),
            !(post.components@[ci].component.imp is Memory),
            post.ids_distinct(),
        ensures
            post.spec_bus_byte(a) == pre.spec_bus_byte(a),
            post.spec_bus_writable(a) == pre.spec_bus_writable(a),
    {
        if pre.spec_mount_at(a) is Some {
            let mj = pre.spec_mount_at(a).unwrap();
            assert(pre.bus.mounts@[mj].spec_contains(a));
            pre.lemma_mount_at_unique(a, mj);
            post.lemma_mount_at_unique(a, mj);
            assert(pre.mount_backed(mj));
            let cid = pre.bus.mounts@[mj].component;
            let cj = pre.component_idx(cid);
            assert(pre.components@[cj].component.id == cid);
            assert(pre.imp_of(cid) is Memory);
            pre.lemma_component_idx(cj);
            assert(cj != ci);
            assert(post.components@[cj].component.id == cid);
            post.lemma_component_idx(cj);
        } else {
            if post.spec_mount_at(a) is Some {
                let mj = post.spec_mount_at(a).unwrap();
                assert(post.bus.mounts@[mj].spec_contains(a));
                assert(pre.bus.mounts@[mj].spec_contains(a));
                pre.lemma_mount_at_unique(a, mj);
            }
        }
    }

    /// Structure preservation carries the bus invariant across a step.
    pub proof fn lemma_same_structure_bus_wf(pre: &Backend, post: &Backend)
        requires
            pre.bus_wf(),
            same_structure(pre, post),
        ensures
            post.bus_wf(),
    {
        assert forall|i: int, j: int| 0 <= i < j < post.components@.len() implies (
        #[trigger] post.components@[i]).component.id != (
        #[trigger] post.components@[j]).component.id by {
            assert(post.components@[i].component.id == pre.components@[i].component.id);
            assert(post.components@[j].component.id == pre.components@[j].component.id);
            assert(pre.components@[i].component.id != pre.components@[j].component.id);
        }
        assert forall|mi: int| 0 <= mi < post.bus.mounts@.len() implies #[trigger] post.mount_backed(
            mi,
        ) by {
            assert(pre.mount_backed(mi));
            let id = pre.bus.mounts@[mi].component;
            let ci = pre.component_idx(id);
            assert(pre.components@[ci].component.id == id);
            assert(post.components@[ci].component.id == id);
            post.lemma_component_idx(ci);
            assert(imp_similar(
                pre.components@[ci].component.imp,
                post.components@[ci].component.imp,
            ));
        }
    }

    /// Structure preservation carries the whole backend invariant across
    /// a step, as long as the input channel stays well-formed.
    pub proof fn lemma_same_structure_wf(pre: &Backend, post: &Backend)
        requires
            pre.wf(),
            same_structure(pre, post),
            post.input.wf(),
        ensures
            post.wf(),
    {
        Backend::lemma_same_structure_bus_wf(pre, post);
        assert forall|ei: int| 0 <= ei < post.scheduler_queue@.len() implies {
            let e = #[trigger] post.scheduler_queue@[ei];
            &&& post.has_component(e.component)
            &&& post.imp_of(e.component).is_steppable()
            &&& post.clock.fs <= e.clock.fs
            &&& e.clock.fs <= post.clock.fs + MAX_STEP_FS
        } by {
            let e = post.scheduler_queue@[ei];
            assert(pre.scheduler_queue@[ei] == e);
            assert(pre.has_component(e.component));
            let ci = pre.component_idx(e.component);
            assert(pre.components@[ci].component.id == e.component);
            assert(post.components@[ci].component.id == e.component);
            post.lemma_component_idx(ci);
            assert(imp_similar(
                pre.components@[ci].component.imp,
                post.components@[ci].component.imp,
            ));
        }
        assert forall|ci: int|
            0 <= ci < post.components@.len() && (
            #[trigger] post.components@[ci]).component.imp.is_steppable() implies exists|ei: int|
            0 <= ei < post.scheduler_queue@.len() && (
            #[trigger] post.scheduler_queue@[ei]).component == post.components@[ci].component.id by {
            assert(imp_similar(
                pre.components@[ci].component.imp,
                post.components@[ci].component.imp,
            ));
            assert(pre.components@[ci].component.imp.is_steppable());
            let ei = choose|ei: int|
                0 <= ei < pre.scheduler_queue@.len() && (
                #[trigger] pre.scheduler_queue@[ei]).component
                    == pre.components@[ci].component.id;
            assert(post.scheduler_queue@[ei].component == post.components@[ci].component.id);
        }
        assert forall|ci: int| 0 <= ci < post.components@.len() implies (
        #[trigger] post.components@[ci]).component.imp.wf() by {
            assert(imp_similar(
                pre.components@[ci].component.imp,
                post.components@[ci].component.imp,
            ));
            assert(pre.components@[ci].component.imp.wf());
        }
        assert forall|ci: int| 0 <= ci < post.components@.len() implies (
        #[trigger] post.components@[ci]).component.id.0 < post.next_id by {
            assert(post.components@[ci].component.id == pre.components@[ci].component.id);
            assert(pre.components@[ci].component.id.0 < pre.next_id);
        }
    }

    /// Writes one byte through the bus.
    ///
    /// Succeeds exactly when a mounted, writable memory block covers
    /// `address`; on success only that byte of the bus changes.  Fails
    /// with a `Misc` fault when no mounted memory block covers `address`,
    /// and with `MemoryAccessReadOnly` when the covering block is
    /// read-only.
    pub fn bus_write_u8(&mut self, address: MemoryAddress, value: u8) -> (r: Result<(), Error>)
        requires
            old(self).bus_wf(),
        ensures
            final(self).bus_wf(),
            same_structure(old(self), final(self)),
            final(self).input == old(self).input,
            final(self).frames == old(self).frames,
            final(self).audio == old(self).audio,
            final(self).text == old(self).text,
            forall|a: int|
                #[trigger] final(self).spec_bus_writable(a) == old(self).spec_bus_writable(a),
            match r {
                Ok(_) => {
                    &&& old(self).spec_bus_byte(address as int) is Some
                    &&& old(self).spec_bus_writable(address as int)
                    &&& final(self).spec_bus_byte(address as int) == Some(value)
                    &&& forall|a: int|
                        a != address ==> #[trigger] final(self).spec_bus_byte(a) == old(
                            self,
                        ).spec_bus_byte(a)
                },
                Err(e) => {
                    &&& forall|a: int|
                        #[trigger] final(self).spec_bus_byte(a) == old(self).spec_bus_byte(a)
                    &&& (e matches Error::Emulator(k, _) && (if old(self).spec_bus_byte(
                        address as int,
                    ) is None {
                        k == EmulatorErrorKind::Misc
                    } else {
                        k == EmulatorErrorKind::MemoryAccessReadOnly && !old(
                            self,
                        ).spec_bus_writable(address as int)
                    }))
                },
            },
    {
        let looked_up = self.bus.get_component_at(address, 1);
        match looked_up {
            Ok((id, rel)) => {
                let ghost mi = choose|mi: int|
                    0 <= mi < self.bus.mounts@.len() && (
                    #[trigger] self.bus.mounts@[mi]).spec_contains_range(address as int, 1) && id
                        == self.bus.mounts@[mi].component && rel == address
                        - self.bus.mounts@[mi].base;
                proof {
                    self.lemma_mount_at_unique(address as int, mi);
                    assert(self.mount_backed(mi));
                }
                let found = self.find_component_index(id);
                match found {
                    Some(ci) => {
                        proof {
                            self.lemma_component_idx(ci as int);
                        }
                        let wrote = match &mut self.components[ci].component.imp {
                            ComponentImpl::Memory(mem) => mem.write_u8(rel, value),
                            _ => Err(
                                Error::emulator(
                                    EmulatorErrorKind::Misc,
                                    "unreachable: mount not backed by memory",
                                ),
                            ),
                        };
                        proof {
                            self.lemma_write_u8_frame(old(self), address as int, value, mi, ci as int, wrote is Ok);
                        }
                        wrote
                    },
                    None => {
                        proof {
                            assert(false);
                        }
                        Err(
                            Error::emulator(
                                EmulatorErrorKind::Misc,
                                "unreachable: mount names an unknown component",
                            ),
                        )
                    },
                }
            },
            Err(e) => {
                proof {
                    if self.spec_mount_at(address as int) is Some {
                        let mi = self.spec_mount_at(address as int).unwrap();
                        assert(self.bus.mounts@[mi].spec_contains_range(address as int, 1));
                    }
                }
                Err(e)
            },
        }
    }

    /// After a write through mount `mi` into registry entry `ci`, only
    /// the written byte of the bus differs; everything else, including
    /// writability everywhere, is unchanged.
    proof fn lemma_write_u8_frame(
        &self,
        pre: &Backend,
        address: int,
        value: u8,
        mi: int,
        ci: int,
        ok: bool,
    )
        requires
            pre.bus_wf(),
            0 <= mi < pre.bus.mounts@.len(),
            pre.bus.mounts@[mi].spec_contains(address),
            0 <= ci < pre.components@.len(),
            pre.components@[ci].component.id == pre.bus.mounts@[mi].component,
            pre.components@[ci].component.imp is Memory,
            self.clock == pre.clock,
            self.scheduler_queue@ == pre.scheduler_queue@,
            self.bus.mounts@ == pre.bus.mounts@,
            self.next_seq == pre.next_seq,
            self.next_id == pre.next_id,
            self.input == pre.input,
            self.frames == pre.frames,
            self.audio == pre.audio,
            self.text == pre.text,
            self.components@.len() == pre.components@.len(),
            forall|cj: int|
                0 <= cj < pre.components@.len() && cj != ci ==> #[trigger] self.components@[cj]
                    == pre.components@[cj],
            self.components@[ci].name == pre.components@[ci].name,
            self.components@[ci].component.id == pre.components@[ci].component.id,
            self.components@[ci].component.imp is Memory,
            self.components@[ci].component.imp.memory_read_only()
                == pre.components@[ci].component.imp.memory_read_only(),
            ok ==> !pre.components@[ci].component.imp.memory_read_only()
                && self.components@[ci].component.imp.memory_contents()
                == pre.components@[ci].component.imp.memory_contents().update(
                address - pre.bus.mounts@[mi].base,
                value,
            ),
            !ok ==> self.components@[ci].component.imp.memory_contents()
                == pre.components@[ci].component.imp.memory_contents(),
            !ok ==> pre.components@[ci].component.imp.memory_read_only(),
            0 <= address - pre.bus.mounts@[mi].base
                < pre.components@[ci].component.imp.memory_contents().len(),
        ensures
            self.bus_wf(),
            same_structure(pre, self),
            forall|a: int| #[trigger] self.spec_bus_writable(a) == pre.spec_bus_writable(a),
            ok ==> pre.spec_bus_byte(address) is Some && pre.spec_bus_writable(address) && self.spec_bus_byte(address) == Some(value),
            ok ==> forall|a: int|
                a != address ==> #[trigger] self.spec_bus_byte(a) == pre.spec_bus_byte(a),
            !ok ==> forall|a: int| #[trigger] self.spec_bus_byte(a) == pre.spec_bus_byte(a),
            !ok ==> pre.spec_bus_byte(address) is Some && !pre.spec_bus_writable(address),
    {
        pre.lemma_component_idx(ci);
        assert forall|cj: int| 0 <= cj < pre.components@.len() implies {
            &&& (#[trigger] self.components@[cj]).component.id == (
            #[trigger] pre.components@[cj]).component.id
            &&& self.components@[cj].name == pre.components@[cj].name
            &&& imp_similar(pre.components@[cj].component.imp, self.components@[cj].component.imp)
        } by {
            if cj != ci {
                assert(self.components@[cj] == pre.components@[cj]);
            } else {
                assert(self.components@[ci].component.imp.memory_contents().len()
                    == pre.components@[ci].component.imp.memory_contents().len());
            }
        }
        assert(same_structure(pre, self));
        Backend::lemma_same_structure_bus_wf(pre, self);
        pre.lemma_mount_at_unique(address, mi);
        self.lemma_mount_at_unique(address, mi);
        self.lemma_component_idx(ci);
        assert(pre.mount_backed(mi));
        assert forall|a: int| #[trigger] self.spec_bus_writable(a) == pre.spec_bus_writable(
            a,
        ) by {
            self.lemma_bus_point_agree(pre, a, ci, mi);
        }
        assert forall|a: int| a != address || !ok implies #[trigger] self.spec_bus_byte(a)
            == pre.spec_bus_byte(a) by {
            self.lemma_bus_point_agree(pre, a, ci, mi);
            if self.spec_mount_at(a) == Some(mi) && a != address {
                assert(self.spec_bus_byte(a) == pre.spec_bus_byte(a));
            }
        }
    }

    /// Point agreement of the two bus views used by the write frame
    /// lemma: at any address, the two states agree unless the address
    /// goes through mount `mi` into the rewritten byte.
    proof fn lemma_bus_point_agree(&self, pre: &Backend, a: int, ci: int, mi: int)
        requires
            pre.bus_wf(),
            self.bus_wf(),
            self.bus.mounts@ == pre.bus.mounts@,
            self.components@.len() == pre.components@.len(),
            0 <= ci < pre.components@.len(),
            0 <= mi < pre.bus.mounts@.len(),
            forall|cj: int|
                0 <= cj < pre.components@.len() && cj != ci ==> #[trigger] self.components@[cj]
                    == pre.components@[cj],
            self.components@[ci].component.id == pre.components@[ci].component.id,
            pre.components@[ci].component.id == pre.bus.mounts@[mi].component,
            self.components@[ci].component.imp is Memory,
            pre.components@[ci].component.imp is Memory,
            self.components@[ci].component.imp.memory_read_only()
                == pre.components@[ci].component.imp.memory_read_only(),
            self.components@[ci].component.imp.memory_contents().len()
                == pre.components@[ci].component.imp.memory_contents().len(),
        ensures
            self.spec_mount_at(a) == pre.spec_mount_at(a),
            self.spec_bus_writable(a) == pre.spec_bus_writable(a),
            self.spec_mount_at(a) != Some(mi) ==> self.spec_bus_byte(a) == pre.spec_bus_byte(a),
            self.spec_mount_at(a) == Some(mi) ==> {
                let base = pre.bus.mounts@[mi].base;
                &&& self.spec_bus_byte(a) == (if 0 <= a - base
                    < self.components@[ci].component.imp.memory_contents().len() {
                    Some(self.components@[ci].component.imp.memory_contents()[a - base])
                } else {
                    Option::<u8>::None
                })
                &&& pre.spec_bus_byte(a) == (if 0 <= a - base
                    < pre.components@[ci].component.imp.memory_contents().len() {
                    Some(pre.components@[ci].component.imp.memory_contents()[a - base])
                } else {
                    Option::<u8>::None
                })
            },
    {
        if pre.spec_mount_at(a) is Some {
            let mj = pre.spec_mount_at(a).unwrap();
            assert(pre.bus.mounts@[mj].spec_contains(a));
            pre.lemma_mount_at_unique(a, mj);
            self.lemma_mount_at_unique(a, mj);
            let id = pre.bus.mounts@[mj].component;
            assert(pre.mount_backed(mj));
            assert(self.mount_backed(mj));
            let cj = pre.component_idx(id);
            assert(pre.components@[cj].component.id == id);
            pre.lemma_component_idx(cj);
            assert(self.components@[cj].component.id == id);
            self.lemma_component_idx(cj);
            if mj != mi {
                pre.lemma_component_idx(ci);
                if cj == ci {
                    assert(pre.bus.mounts@[mj].component == pre.bus.mounts@[mi].component);
                    if mi < mj {
                        assert(pre.bus.mounts@[mi].component != pre.bus.mounts@[mj].component);
                    } else {
                        assert(pre.bus.mounts@[mj].component != pre.bus.mounts@[mi].component);
                    }
                }
                assert(self.components@[cj] == pre.components@[cj]);
            } else {
                pre.lemma_component_idx(ci);
                if cj != ci {
                    if cj < ci {
                        assert(pre.components@[cj].component.id
                            != pre.components@[ci].component.id);
                    } else {
                        assert(pre.components@[ci].component.id
                            != pre.components@[cj].component.id);
                    }
                }
            }
        } else {
            if self.spec_mount_at(a) is Some {
                let mj = self.spec_mount_at(a).unwrap();
                assert(self.bus.mounts@[mj].spec_contains(a));
                assert(pre.bus.mounts@[mj].spec_contains(a));
                pre.lemma_mount_at_unique(a, mj);
            }
        }
    }

    /// The 16-bit big-endian word the bus shows at `address`, or a `Misc`
    /// fault when no single mounted memory block covers both bytes.
    pub fn bus_read_u16_be(&self, address: MemoryAddress) -> (r: Result<u16, Error>)
        requires
            self.bus_wf(),
        ensures
            match r {
                Ok(w) => {
                    &&& self.bus.spec_covers_range(address as int, 2)
                    &&& self.spec_bus_byte(address as int) == Some((w >> 8) as u8)
                    &&& self.spec_bus_byte(address as int + 1) == Some((w & 0xFF) as u8)
                },
                Err(e) => !self.bus.spec_covers_range(address as int, 2) && (
                e matches Error::Emulator(k, _) && k == EmulatorErrorKind::Misc),
            },
    {
        let looked_up = self.bus.get_component_at(address, 2);
        match looked_up {
            Ok((id, rel)) => {
                proof {
                    let mi = choose|mi: int|
                        0 <= mi < self.bus.mounts@.len() && (
                        #[trigger] self.bus.mounts@[mi]).spec_contains_range(address as int, 2)
                            && id == self.bus.mounts@[mi].component && rel == address
                            - self.bus.mounts@[mi].base;
                    self.lemma_mount_at_unique(address as int, mi);
                    self.lemma_mount_at_unique(address as int + 1, mi);
                    assert(self.mount_backed(mi));
                }
                let found = self.find_component_index(id);
                match found {
                    Some(ci) => {
                        proof {
                            self.lemma_component_idx(ci as int);
                        }
                        match &self.components[ci].component.imp {
                            ComponentImpl::Memory(mem) => {
                                let hi = mem.read_u8(rel);
                                let lo = mem.read_u8(rel + 1);
                                match (hi, lo) {
                                    (Ok(h), Ok(l)) => {
                                        let w = ((h as u16) << 8) | (l as u16);
                                        proof {
                                            let hh = h;
                                            let ll = l;
                                            assert((((hh as u16) << 8) | (ll as u16)) >> 8 == hh
                                                && (((hh as u16) << 8) | (ll as u16)) & 0xFF == ll)
                                                by (bit_vector);
                                        }
                                        Ok(w)
                                    },
                                    _ => {
                                        proof {
                                            assert(false);
                                        }
                                        Err(
                                            Error::emulator(
                                                EmulatorErrorKind::Misc,
                                                "unreachable: backed mount read failed",
                                            ),
                                        )
                                    },
                                }
                            },
                            _ => {
                                proof {
                                    assert(false);
                                }
                                Err(
                                    Error::emulator(
                                        EmulatorErrorKind::Misc,
                                        "unreachable: mount not backed by memory",
                                    ),
                                )
                            },
                        }
                    },
                    None => {
                        proof {
                            assert(false);
                        }
                        Err(
                            Error::emulator(
                                EmulatorErrorKind::Misc,
                                "unreachable: mount names an unknown component",
                            ),
                        )
                    },
                }
            },
            Err(e) => Err(e),
        }
    }
}


/// The span still to run before the clock reaches `target`, zero once
/// passed: the leading termination measure of `run_until`.
pub open spec fn remaining_fs(now: u128, target: u128) -> int {
    if now < target {
        target - now
    } else {
        0
    }
}

impl Default for Backend {
    /// The same fresh backend that `Backend::new` builds.
    fn default() -> (r: Backend)
        ensures
            r.wf(),
            r.clock.fs == 0,
            r.components@.len() == 0,
            r.scheduler_queue@.len() == 0,
            r.bus.mounts@.len() == 0,
            r.next_seq == 0,
            r.next_id == 0,
            r.input.view().len() == 0,
            r.frames.view().len() == 0,
            r.audio.view().len() == 0,
            r.text.view().len() == 0,
    {
        Backend::new()
    }
}

/// How many queued events are due at or before clock value `c`: the
/// termination measure of `run_until` when the clock stands still.
pub open spec fn count_due(q: Seq<SchedulerEvent>, c: u128) -> nat
    decreases q.len(),
{
    if q.len() == 0 {
        0
    } else {
        count_due(q.drop_last(), c) + (if q.last().clock.fs <= c {
            1nat
        } else {
            0nat
        })
    }
}

/// Removing one event removes exactly its own contribution to the count.
proof fn lemma_count_due_remove(q: Seq<SchedulerEvent>, c: u128, j: int)
    requires
        0 <= j < q.len(),
    ensures
        count_due(q, c) == count_due(q.remove(j), c) + (if q[j].clock.fs <= c {
            1nat
        } else {
            0nat
        }),
    decreases q.len(),
{
    if j == q.len() - 1 {
        assert(q.remove(j) =~= q.drop_last());
    } else {
        lemma_count_due_remove(q.drop_last(), c, j);
        assert(q.remove(j).drop_last() =~= q.drop_last().remove(j));
        assert(q.remove(j).last() == q.last());
    }
}

/// Appending one event adds exactly its own contribution to the count.
proof fn lemma_count_due_push(q: Seq<SchedulerEvent>, c: u128, e: SchedulerEvent)
    ensures
        count_due(q.push(e), c) == count_due(q, c) + (if e.clock.fs <= c {
            1nat
        } else {
            0nat
        }),
{
    assert(q.push(e).drop_last() =~= q);
    assert(q.push(e).last() == e);
}

impl Backend {
    /// The queue index of the earliest pending event, ties broken by the
    /// lower sequence number.
    fn find_min_event_index(&self) -> (r: usize)
        requires
            self.scheduler_queue@.len() > 0,
        ensures
            r < self.scheduler_queue@.len(),
            forall|k: int|
                0 <= k < self.scheduler_queue@.len() ==> (self.scheduler_queue@[r as int].clock.fs
                    < (#[trigger] self.scheduler_queue@[k]).clock.fs || (
                self.scheduler_queue@[r as int].clock.fs == self.scheduler_queue@[k].clock.fs
                    && self.scheduler_queue@[r as int].seq <= self.scheduler_queue@[k].seq)),
    {
        let count = self.scheduler_queue.len();
        let mut best: usize = 0;
        let mut k: usize = 1;
        while k < count
            invariant
                best < k <= count,
                count == self.scheduler_queue@.len(),
                forall|i: int|
                    0 <= i < k ==> (self.scheduler_queue@[best as int].clock.fs < (
                    #[trigger] self.scheduler_queue@[i]).clock.fs || (
                    self.scheduler_queue@[best as int].clock.fs
                        == self.scheduler_queue@[i].clock.fs
                        && self.scheduler_queue@[best as int].seq
                        <= self.scheduler_queue@[i].seq)),
            decreases count - k,
        {
            let cand = self.scheduler_queue[k];
            let cur = self.scheduler_queue[best];
            if cand.clock.fs < cur.clock.fs || (cand.clock.fs == cur.clock.fs && cand.seq
                < cur.seq) {
                best = k;
            }
            k = k + 1;
        }
        best
    }

    /// The scheduler story of one step: some queued event `j`, earliest by
    /// `(clock, seq)`, was popped; the clock advanced to its time; the
    /// event was re-enqueued for the same component with a fresh sequence
    /// number — after the returned duration on success, at the unchanged
    /// clock on a fault — and that component was the one stepped.
    pub open spec fn step_dispatched(pre: &Backend, post: &Backend, r: Result<(), Error>) -> bool {
        exists|j: int|
            #![trigger pre.scheduler_queue@[j]]
            {
                &&& 0 <= j < pre.scheduler_queue@.len()
                &&& (forall|k: int|
                    0 <= k < pre.scheduler_queue@.len() ==> (pre.scheduler_queue@[j].clock.fs < (
                    #[trigger] pre.scheduler_queue@[k]).clock.fs || (
                    pre.scheduler_queue@[j].clock.fs == pre.scheduler_queue@[k].clock.fs
                        && pre.scheduler_queue@[j].seq <= pre.scheduler_queue@[k].seq)))
                &&& post.clock == pre.scheduler_queue@[j].clock
                &&& post.scheduler_queue@ == pre.scheduler_queue@.remove(j).push(
                    post.scheduler_queue@.last(),
                )
                &&& post.scheduler_queue@.last().component
                    == pre.scheduler_queue@[j].component
                &&& post.scheduler_queue@.last().seq == pre.next_seq
                &&& (r is Ok ==> post.clock.fs < post.scheduler_queue@.last().clock.fs
                    <= post.clock.fs + MAX_STEP_FS)
                &&& (r is Err ==> post.scheduler_queue@.last().clock == post.clock)
                &&& Backend::step_component_effect(
                    pre,
                    post,
                    pre.scheduler_queue@[j].component,
                    r,
                )
            }
    }

    /// What stepping the component with the given id did, as visible from
    /// outside: every other component is at most rewritten memory, and on
    /// success the timer ticked both timer bytes and asked for 1/60 s,
    /// the audio generator advanced its phase and pushed one sample and
    /// asked for 1/48000 s, and the CPU drained the input queue in order
    /// into its keypad.  (The CPU's own step contract tells the rest of
    /// its story.)
    pub open spec fn step_component_effect(
        pre: &Backend,
        post: &Backend,
        id: ComponentId,
        r: Result<(), Error>,
    ) -> bool {
        exists|ci: int|
            #![trigger pre.components@[ci]]
            {
                &&& 0 <= ci < pre.components@.len()
                &&& pre.components@[ci].component.id == id
                &&& post.components@[ci].component.imp.is_steppable()
                &&& (forall|ck: int|
                    0 <= ck < pre.components@.len() && ck != ci ==> imp_similar(
                        (#[trigger] pre.components@[ck]).component.imp,
                        post.components@[ck].component.imp,
                    ))
                &&& (pre.components@[ci].component.imp is Timer && r is Ok ==> {
                    &&& post.scheduler_queue@.last().clock.fs - post.clock.fs
                        == TIMER_CLOCK_SPEED_NS * FEMTOS_PER_NANOSEC
                    &&& (pre.spec_bus_byte(DT_TIMER as int) matches Some(dt)
                        && post.spec_bus_byte(DT_TIMER as int) == Some(spec_tick(dt)))
                    &&& (pre.spec_bus_byte(ST_TIMER as int) matches Some(st)
                        && post.spec_bus_byte(ST_TIMER as int) == Some(spec_tick(st)))
                    &&& (forall|a: int|
                        a != DT_TIMER && a != ST_TIMER ==> #[trigger] post.spec_bus_byte(a)
                            == pre.spec_bus_byte(a))
                    &&& post.frames == pre.frames
                    &&& post.audio == pre.audio
                    &&& post.input == pre.input
                })
                &&& (pre.components@[ci].component.imp matches ComponentImpl::Audio(a0) ==> r
                    is Ok ==> {
                    &&& post.scheduler_queue@.last().clock.fs - post.clock.fs
                        == AUDIO_CLOCK_SPEED_NS * FEMTOS_PER_NANOSEC
                    &&& (post.components@[ci].component.imp matches ComponentImpl::Audio(a2)
                        && a2.sample_clock == ((a0.sample_clock + 1) as int % (
                    AUDIO_SAMPLING_RATE as int)) && (pre.spec_bus_byte(ST_TIMER as int)
                        matches Some(st) && post.audio.view().len() > 0
                        && post.audio.view().last() == (
                    post.clock,
                    (if st > 0 {
                        crate::audio::AudioSample::Tone(a2.sample_clock)
                    } else {
                        crate::audio::AudioSample::Silence
                    }),
                    )))
                    &&& (forall|a: int|
                        #[trigger] post.spec_bus_byte(a) == pre.spec_bus_byte(a))
                    &&& post.frames == pre.frames
                    &&& post.input == pre.input
                })
                &&& (pre.components@[ci].component.imp matches ComponentImpl::Cpu(c0) ==> r
                    is Ok ==> {
                    &&& (post.components@[ci].component.imp matches ComponentImpl::Cpu(c2)
                        && c2.state.keypad_state.view() == spec_consume_events(
                        c0.state.keypad_state.view(),
                        c0.state.waiting_for_key,
                        c0.state.v@,
                        pre.input.view(),
                    ).0)
                    &&& post.input.view().len() == 0
                    &&& post.audio == pre.audio
                    &&& post.text == pre.text
                })
            }
    }

    /// One scheduler step: pops the earliest pending event, advances the
    /// clock to it, steps that component, and re-enqueues the event at
    /// the clock plus the duration the component asked for.  A fault from
    /// the component (or a clock overflow) is returned to the caller, but
    /// the event is re-enqueued at the current clock all the same, so a
    /// transient fault never deschedules a component.
    #[verifier::rlimit(100)]
    pub fn step(&mut self) -> (r: Result<(), Error>)
        requires
            old(self).wf(),
            old(self).scheduler_queue@.len() > 0,
        ensures
            final(self).wf(),
            final(self).scheduler_queue@.len() == old(self).scheduler_queue@.len(),
            final(self).components@.len() == old(self).components@.len(),
            old(self).clock.fs <= final(self).clock.fs,
            final(self).clock.fs <= old(self).clock.fs + MAX_STEP_FS,
            r is Ok && final(self).clock == old(self).clock ==> count_due(
                final(self).scheduler_queue@,
                final(self).clock.fs,
            ) < count_due(old(self).scheduler_queue@, old(self).clock.fs),
            r matches Err(e) ==> e matches Error::Emulator(_, _),
            final(self).bus.mounts@ == old(self).bus.mounts@,
            old(self).next_seq < u64::MAX ==> final(self).next_seq == old(self).next_seq + 1,
            forall|ck: int|
                0 <= ck < old(self).components@.len()
                    ==> (#[trigger] final(self).components@[ck]).component.id
                    == old(self).components@[ck].component.id
                    && final(self).components@[ck].name == old(self).components@[ck].name,
            Backend::step_dispatched(old(self), final(self), r),
    {
        let j = self.find_min_event_index();
        let ghost q0 = self.scheduler_queue@;
        let ghost c0 = self.clock;
        let ev = self.scheduler_queue.remove(j);
        self.clock = ev.clock;
        let found = self.find_component_index(ev.component);
        let ci = match found {
            Some(ci) => ci,
            None => {
                proof {
                    assert(old(self).has_component(ev.component));
                    assert(false);
                }
                return Err(Error::emulator(EmulatorErrorKind::Misc, "unreachable"));
            },
        };
        proof {
            old(self).lemma_component_idx(ci as int);
        }
        let mut imp = ComponentImpl::Vacant;
        core::mem::swap(&mut self.components[ci].component.imp, &mut imp);
        let ghost vac: Backend = *self;
        proof {
            assert forall|mi: int| 0 <= mi < vac.bus.mounts@.len() implies #[trigger] vac.mount_backed(
                mi,
            ) by {
                assert(old(self).mount_backed(mi));
                let cid = old(self).bus.mounts@[mi].component;
                let cj = old(self).component_idx(cid);
                assert(old(self).components@[cj].component.id == cid);
                assert(old(self).imp_of(cid) is Memory);
                assert(cj != ci);
                assert(vac.components@[cj].component.id == cid);
                vac.lemma_component_idx(cj);
            }
            assert(vac.bus_wf());
        }
        let stepres: Result<Duration, Error> = match &mut imp {
            ComponentImpl::Timer(t) => t.step(self),
            ComponentImpl::Cpu(c) => c.step(self),
            ComponentImpl::Audio(a) => a.step(self),
            _ => {
                proof {
                    assert(old(self).imp_of(ev.component).is_steppable());
                    assert(false);
                }
                Err(Error::emulator(EmulatorErrorKind::Misc, "unreachable"))
            },
        };
        let ghost stepped: Backend = *self;
        proof {
            assert(TIMER_CLOCK_SPEED_NS * FEMTOS_PER_NANOSEC == MAX_STEP_FS);
            assert(AUDIO_CLOCK_SPEED_NS * FEMTOS_PER_NANOSEC <= MAX_STEP_FS);
            match stepres {
                Ok(d) => {
                    assert(0 < d.fs <= MAX_STEP_FS);
                },
                Err(_) => {},
            }
        }
        core::mem::swap(&mut self.components[ci].component.imp, &mut imp);
        proof {
            assert(same_structure(&vac, &stepped));
            assert forall|cj: int|
                0 <= cj < self.components@.len() && cj != ci implies {
                &&& (#[trigger] self.components@[cj]).component.id == old(
                    self,
                ).components@[cj].component.id
                &&& self.components@[cj].name == old(self).components@[cj].name
                &&& imp_similar(
                    old(self).components@[cj].component.imp,
                    self.components@[cj].component.imp,
                )
            } by {
                assert(imp_similar(
                    vac.components@[cj].component.imp,
                    stepped.components@[cj].component.imp,
                ));
            }
        }
        let dur = match stepres {
            Ok(d) => d,
            Err(e) => {
                let seq = self.next_seq;
                self.next_seq = self.next_seq.wrapping_add(1);
                self.scheduler_queue.push(
                    SchedulerEvent { clock: self.clock, seq, component: ev.component },
                );
                proof {
                    self.lemma_step_restores_wf(old(self), &vac, &stepped, q0, j as int, ev, ci as int, self.clock);
                    assert(self.scheduler_queue@ =~= q0.remove(j as int).push(
                        self.scheduler_queue@.last(),
                    ));
                    assert(old(self).components@[ci as int].component.id == ev.component);
                    assert(Backend::step_component_effect(
                        old(self),
                        self,
                        ev.component,
                        Err::<(), Error>(e),
                    ));
                    assert(ev == q0[j as int]);
                    assert(Backend::step_dispatched(old(self), self, Err::<(), Error>(e)));
                }
                return Err(e);
            },
        };
        let next = match self.clock.checked_add(dur) {
            Some(next) => next,
            None => {
                let seq = self.next_seq;
                self.next_seq = self.next_seq.wrapping_add(1);
                self.scheduler_queue.push(
                    SchedulerEvent { clock: self.clock, seq, component: ev.component },
                );
                let err = Error::emulator(EmulatorErrorKind::Misc, "virtual clock out of range");
                proof {
                    self.lemma_step_restores_wf(old(self), &vac, &stepped, q0, j as int, ev, ci as int, self.clock);
                    assert(self.scheduler_queue@ =~= q0.remove(j as int).push(
                        self.scheduler_queue@.last(),
                    ));
                    assert(old(self).components@[ci as int].component.id == ev.component);
                    assert(Backend::step_component_effect(
                        old(self),
                        self,
                        ev.component,
                        Err::<(), Error>(err),
                    ));
                    assert(ev == q0[j as int]);
                    assert(Backend::step_dispatched(old(self), self, Err::<(), Error>(err)));
                }
                return Err(err);
            },
        };
        let seq = self.next_seq;
        self.next_seq = self.next_seq.wrapping_add(1);
        self.scheduler_queue.push(SchedulerEvent { clock: next, seq, component: ev.component });
        proof {
            self.lemma_step_restores_wf(old(self), &vac, &stepped, q0, j as int, ev, ci as int, next);
            assert(self.scheduler_queue@ =~= q0.remove(j as int).push(
                self.scheduler_queue@.last(),
            ));
            if self.clock == c0 {
                lemma_count_due_remove(q0, c0.fs, j as int);
                lemma_count_due_push(q0.remove(j as int), c0.fs, self.scheduler_queue@.last());
            }
            assert(old(self).components@[ci as int].component.id == ev.component);
            match old(self).components@[ci as int].component.imp {
                ComponentImpl::Timer(_) => {
                    Backend::lemma_bus_view_equal_nonmem(old(self), &vac, ci as int);
                    Backend::lemma_bus_view_equal_nonmem(&stepped, self, ci as int);
                    assert(vac.input == old(self).input);
                    assert(vac.frames == old(self).frames);
                    assert(vac.audio == old(self).audio);
                },
                ComponentImpl::Audio(_) => {
                    Backend::lemma_bus_view_equal_nonmem(old(self), &vac, ci as int);
                    Backend::lemma_bus_view_equal_nonmem(&stepped, self, ci as int);
                    assert(vac.input == old(self).input);
                    assert(vac.frames == old(self).frames);
                    assert(vac.clock == self.clock);
                },
                ComponentImpl::Cpu(_) => {
                    assert(vac.input == old(self).input);
                    assert(vac.audio == old(self).audio);
                    assert(vac.text == old(self).text);
                    assert(self.input == stepped.input);
                },
                _ => {},
            }
            assert(Backend::step_component_effect(
                old(self),
                self,
                ev.component,
                Ok::<(), Error>(()),
            ));
            assert(ev == q0[j as int]);
            assert(Backend::step_dispatched(old(self), self, Ok::<(), Error>(())));
        }
        Ok(())
    }

    /// After a scheduler step put everything back together: the full
    /// invariant holds again.
    #[verifier::rlimit(100)]
    proof fn lemma_step_restores_wf(
        &self,
        pre: &Backend,
        vac: &Backend,
        stepped: &Backend,
        q0: Seq<SchedulerEvent>,
        j: int,
        ev: SchedulerEvent,
        ci: int,
        newclock: Instant,
    )
        requires
            pre.wf(),
            q0 == pre.scheduler_queue@,
            0 <= j < q0.len(),
            ev == q0[j],
            forall|k: int|
                0 <= k < q0.len() ==> ev.clock.fs <= (#[trigger] q0[k]).clock.fs,
            0 <= ci < pre.components@.len(),
            pre.components@[ci].component.id == ev.component,
            same_structure(vac, stepped),
            stepped.clock == ev.clock,
            stepped.input.wf() == vac.input.wf(),
            vac.input.wf() == pre.input.wf(),
            vac.clock == ev.clock,
            vac.components@.len() == pre.components@.len(),
            vac.bus.mounts@ == pre.bus.mounts@,
            vac.scheduler_queue@ == q0.remove(j),
            vac.next_id == pre.next_id,
            forall|cj: int|
                0 <= cj < pre.components@.len() && cj != ci ==> #[trigger] vac.components@[cj]
                    == pre.components@[cj],
            vac.components@[ci].component.id == ev.component,
            vac.components@[ci].name == pre.components@[ci].name,
            self.clock == ev.clock,
            self.bus.mounts@ == stepped.bus.mounts@,
            self.next_id == stepped.next_id,
            self.input == stepped.input,
            self.components@.len() == pre.components@.len(),
            forall|cj: int|
                0 <= cj < pre.components@.len() && cj != ci ==> #[trigger] self.components@[cj]
                    == stepped.components@[cj],
            self.components@[ci].component.id == ev.component,
            self.components@[ci].name == stepped.components@[ci].name,
            self.components@[ci].component.imp.wf(),
            self.components@[ci].component.imp.is_steppable(),
            self.scheduler_queue@ == stepped.scheduler_queue@.push(
                SchedulerEvent {
                    clock: newclock,
                    seq: self.scheduler_queue@.last().seq,
                    component: ev.component,
                },
            ),
            ev.clock.fs <= newclock.fs <= ev.clock.fs + MAX_STEP_FS,
            pre.clock.fs <= ev.clock.fs <= pre.clock.fs + MAX_STEP_FS,
        ensures
            self.wf(),
            self.scheduler_queue@.len() == q0.len(),
            self.clock.fs >= pre.clock.fs,
            self.clock.fs <= pre.clock.fs + MAX_STEP_FS,
            self.bus.mounts@ == pre.bus.mounts@,
            forall|ck: int|
                0 <= ck < pre.components@.len() ==> (#[trigger] self.components@[ck]).component.id
                    == pre.components@[ck].component.id && self.components@[ck].name
                    == pre.components@[ck].name,
            forall|ck: int|
                0 <= ck < pre.components@.len() && ck != ci ==> imp_similar(
                    (#[trigger] pre.components@[ck]).component.imp,
                    self.components@[ck].component.imp,
                ),
    {
        let newev = SchedulerEvent {
            clock: newclock,
            seq: self.scheduler_queue@.last().seq,
            component: ev.component,
        };
        assert(self.ids_distinct()) by {
            assert forall|a: int, b: int| 0 <= a < b < self.components@.len() implies (
            #[trigger] self.components@[a]).component.id != (
            #[trigger] self.components@[b]).component.id by {
                Backend::lemma_step_id_chain(self, pre, vac, stepped, ci, a);
                Backend::lemma_step_id_chain(self, pre, vac, stepped, ci, b);
                assert(pre.components@[a].component.id != pre.components@[b].component.id);
            }
        }
        assert forall|mi: int| 0 <= mi < self.bus.mounts@.len() implies #[trigger] self.mount_backed(
            mi,
        ) by {
            assert(pre.mount_backed(mi));
            let cid = pre.bus.mounts@[mi].component;
            let cj = pre.component_idx(cid);
            assert(pre.components@[cj].component.id == cid);
            assert(pre.imp_of(cid) is Memory);
            pre.lemma_component_idx(cj);
            if cj == ci {
                assert(pre.imp_of(ev.component).is_steppable());
            }
            assert(cj != ci);
            assert(vac.components@[cj] == pre.components@[cj]);
            assert(imp_similar(
                vac.components@[cj].component.imp,
                stepped.components@[cj].component.imp,
            ));
            assert(self.components@[cj] == stepped.components@[cj]);
            assert(self.components@[cj].component.id == cid);
            self.lemma_component_idx(cj);
        }
        assert forall|ei: int| 0 <= ei < self.scheduler_queue@.len() implies {
            let e = #[trigger] self.scheduler_queue@[ei];
            &&& self.has_component(e.component)
            &&& self.imp_of(e.component).is_steppable()
            &&& self.clock.fs <= e.clock.fs
            &&& e.clock.fs <= self.clock.fs + MAX_STEP_FS
        } by {
            let e = self.scheduler_queue@[ei];
            if ei < self.scheduler_queue@.len() - 1 {
                assert(e == q0.remove(j)[ei]);
                if ei < j {
                    assert(e == q0[ei]);
                } else {
                    assert(e == q0[ei + 1]);
                }
                let cid = e.component;
                let cj = pre.component_idx(cid);
                assert(pre.components@[cj].component.id == cid);
                assert(pre.imp_of(cid).is_steppable());
                pre.lemma_component_idx(cj);
                if cj != ci {
                    assert(vac.components@[cj] == pre.components@[cj]);
                    assert(imp_similar(
                        vac.components@[cj].component.imp,
                        stepped.components@[cj].component.imp,
                    ));
                    assert(self.components@[cj] == stepped.components@[cj]);
                    assert(self.components@[cj].component.id == cid);
                    self.lemma_component_idx(cj);
                } else {
                    self.lemma_component_idx(ci);
                }
            } else {
                assert(e == newev);
                self.lemma_component_idx(ci);
            }
        }
        assert forall|ei: int, ej: int|
            0 <= ei < ej < self.scheduler_queue@.len() implies (
        #[trigger] self.scheduler_queue@[ei]).component != (
        #[trigger] self.scheduler_queue@[ej]).component by {
            if ej < self.scheduler_queue@.len() - 1 {
                let a = if ei < j {
                    ei
                } else {
                    ei + 1
                };
                let b = if ej < j {
                    ej
                } else {
                    ej + 1
                };
                assert(self.scheduler_queue@[ei] == q0[a]);
                assert(self.scheduler_queue@[ej] == q0[b]);
                assert(q0[a].component != q0[b].component);
            } else {
                let a = if ei < j {
                    ei
                } else {
                    ei + 1
                };
                assert(self.scheduler_queue@[ei] == q0[a]);
                if a != j {
                    if a < j {
                        assert(q0[a].component != q0[j].component);
                    } else {
                        assert(q0[j].component != q0[a].component);
                    }
                }
            }
        }
        assert forall|cj: int|
            0 <= cj < self.components@.len() && (
            #[trigger] self.components@[cj]).component.imp.is_steppable() implies exists|ei: int|
            0 <= ei < self.scheduler_queue@.len() && (
            #[trigger] self.scheduler_queue@[ei]).component == self.components@[cj].component.id by {
            if cj == ci {
                let ei = self.scheduler_queue@.len() - 1;
                assert(self.scheduler_queue@[ei].component == ev.component);
            } else {
                assert(self.components@[cj] == stepped.components@[cj]);
                assert(imp_similar(
                    vac.components@[cj].component.imp,
                    stepped.components@[cj].component.imp,
                ));
                assert(vac.components@[cj] == pre.components@[cj]);
                assert(pre.components@[cj].component.imp.is_steppable());
                let ei0 = choose|ei0: int|
                    0 <= ei0 < q0.len() && (#[trigger] q0[ei0]).component
                        == pre.components@[cj].component.id;
                if ei0 == j {
                    assert(q0[j].component == ev.component);
                    assert(pre.components@[cj].component.id == ev.component);
                    if cj < ci {
                        assert(pre.components@[cj].component.id
                            != pre.components@[ci].component.id);
                    } else {
                        assert(pre.components@[ci].component.id
                            != pre.components@[cj].component.id);
                    }
                } else {
                    let ei = if ei0 < j {
                        ei0
                    } else {
                        ei0 - 1
                    };
                    assert(self.scheduler_queue@[ei] == q0[ei0]);
                }
            }
        }
        assert forall|cj: int| 0 <= cj < self.components@.len() implies (
        #[trigger] self.components@[cj]).component.imp.wf() by {
            if cj != ci {
                assert(vac.components@[cj] == pre.components@[cj]);
                assert(pre.components@[cj].component.imp.wf());
                assert(imp_similar(
                    vac.components@[cj].component.imp,
                    stepped.components@[cj].component.imp,
                ));
                assert(self.components@[cj] == stepped.components@[cj]);
            }
        }
        assert forall|cj: int| 0 <= cj < self.components@.len() implies (
        #[trigger] self.components@[cj]).component.id.0 < self.next_id by {
            Backend::lemma_step_id_chain(self, pre, vac, stepped, ci, cj);
            assert(pre.components@[cj].component.id.0 < pre.next_id);
            assert(self.next_id == stepped.next_id);
            assert(stepped.next_id == vac.next_id);
        }
        assert forall|ck: int| 0 <= ck < pre.components@.len() implies (
        #[trigger] self.components@[ck]).component.id == pre.components@[ck].component.id
            && self.components@[ck].name == pre.components@[ck].name by {
            if ck != ci {
                assert(vac.components@[ck] == pre.components@[ck]);
                assert(self.components@[ck] == stepped.components@[ck]);
                assert(stepped.components@[ck].component.id == vac.components@[ck].component.id);
                assert(stepped.components@[ck].name == vac.components@[ck].name);
            } else {
                assert(vac.components@[ci].name == pre.components@[ci].name);
                assert(stepped.components@[ci].component.id == vac.components@[ci].component.id);
                assert(stepped.components@[ci].name == vac.components@[ci].name);
            }
        }
        assert forall|ck: int| 0 <= ck < pre.components@.len() && ck != ci implies imp_similar(
            (#[trigger] pre.components@[ck]).component.imp,
            self.components@[ck].component.imp,
        ) by {
            assert(vac.components@[ck] == pre.components@[ck]);
            assert(imp_similar(
                vac.components@[ck].component.imp,
                stepped.components@[ck].component.imp,
            ));
            assert(self.components@[ck] == stepped.components@[ck]);
        }
    }

    /// Through the vacate/step/restore chain, every registry entry keeps
    /// its id.
    proof fn lemma_step_id_chain(
        &self,
        pre: &Backend,
        vac: &Backend,
        stepped: &Backend,
        ci: int,
        cj: int,
    )
        requires
            0 <= cj < pre.components@.len(),
            0 <= ci < pre.components@.len(),
            same_structure(vac, stepped),
            vac.components@.len() == pre.components@.len(),
            self.components@.len() == pre.components@.len(),
            forall|ck: int|
                0 <= ck < pre.components@.len() && ck != ci ==> #[trigger] vac.components@[ck]
                    == pre.components@[ck],
            forall|ck: int|
                0 <= ck < pre.components@.len() && ck != ci ==> #[trigger] self.components@[ck]
                    == stepped.components@[ck],
            self.components@[ci].component.id == pre.components@[ci].component.id,
        ensures
            self.components@[cj].component.id == pre.components@[cj].component.id,
    {
        if cj != ci {
            assert(vac.components@[cj] == pre.components@[cj]);
            assert(stepped.components@[cj].component.id == vac.components@[cj].component.id);
            assert(self.components@[cj] == stepped.components@[cj]);
        }
    }

    /// The bus view of a machine with exactly two mounted memory blocks:
    /// one of 0x200 bytes at the bottom of the address space, one of
    /// 0xDFF bytes from 0x200.
    #[verifier::rlimit(100)]
    pub proof fn lemma_fresh_chip8_bytes(
        bf: &Backend,
        id1: ComponentId,
        id2: ComponentId,
        interp: Seq<u8>,
        ramc: Seq<u8>,
    )
        requires
            bf.bus_wf(),
            bf.bus.mounts@.len() == 2,
            bf.bus.mounts@.contains(BusMount { base: 0, size: 0x200, component: id1 }),
            bf.bus.mounts@.contains(BusMount { base: 0x200, size: 0xDFF, component: id2 }),
            id1 != id2,
            bf.components@.len() > 2,
            bf.components@[0].component.id == id1,
            bf.components@[1].component.id == id2,
            bf.components@[0].component.imp is Memory,
            bf.components@[1].component.imp is Memory,
            bf.components@[0].component.imp.memory_contents() == interp,
            bf.components@[1].component.imp.memory_contents() == ramc,
            !bf.components@[0].component.imp.memory_read_only(),
            !bf.components@[1].component.imp.memory_read_only(),
            interp.len() == 0x200,
            ramc.len() == 0xDFF,
        ensures
            forall|a: int|
                0 <= a < 0x200 ==> #[trigger] bf.spec_bus_byte(a) == Some(interp[a])
                    && bf.spec_bus_writable(a),
            forall|a: int|
                0x200 <= a < 0xFFF ==> #[trigger] bf.spec_bus_byte(a) == Some(ramc[a - 0x200])
                    && bf.spec_bus_writable(a),
            forall|a: int|
                !(0 <= a < 0xFFF) ==> #[trigger] bf.spec_bus_byte(a) is None
                    && !bf.spec_bus_writable(a),
    {
        let m1 = BusMount { base: 0, size: 0x200, component: id1 };
        let m2 = BusMount { base: 0x200, size: 0xDFF, component: id2 };
        let i1 = choose|i: int| 0 <= i < bf.bus.mounts@.len() && bf.bus.mounts@[i] == m1;
        let i2 = choose|i: int| 0 <= i < bf.bus.mounts@.len() && bf.bus.mounts@[i] == m2;
        assert(i1 != i2);
        bf.lemma_component_idx(0);
        bf.lemma_component_idx(1);
        assert forall|a: int|
            0 <= a < 0x200 implies #[trigger] bf.spec_bus_byte(a) == Some(interp[a])
            && bf.spec_bus_writable(a) by {
            assert(bf.bus.mounts@[i1].spec_contains(a));
            bf.lemma_mounted_bytes(i1, a);
        }
        assert forall|a: int|
            0x200 <= a < 0xFFF implies #[trigger] bf.spec_bus_byte(a) == Some(ramc[a - 0x200])
            && bf.spec_bus_writable(a) by {
            assert(bf.bus.mounts@[i2].spec_contains(a));
            bf.lemma_mounted_bytes(i2, a);
        }
        assert forall|a: int|
            !(0 <= a < 0xFFF) implies #[trigger] bf.spec_bus_byte(a) is None
            && !bf.spec_bus_writable(a) by {
            assert forall|mi: int| 0 <= mi < bf.bus.mounts@.len() implies !(
            #[trigger] bf.bus.mounts@[mi]).spec_contains(a) by {
                assert(mi == i1 || mi == i2);
            }
            bf.lemma_unmounted_byte(a);
        }
    }

    /// Runs scheduler steps until the clock reaches `clock`; a component
    /// fault stops the run early and is returned.
    pub fn run_until(&mut self, clock: Instant) -> (r: Result<(), Error>)
        requires
            old(self).wf(),
            old(self).scheduler_queue@.len() > 0,
        ensures
            final(self).wf(),
            final(self).scheduler_queue@.len() == old(self).scheduler_queue@.len(),
            old(self).clock.fs <= final(self).clock.fs,
            r is Ok ==> final(self).clock.fs >= clock.fs,
            r is Ok && old(self).clock.fs < clock.fs ==> final(self).clock.fs < clock.fs
                + MAX_STEP_FS,
            old(self).clock.fs >= clock.fs ==> (r is Ok && final(self).clock == old(self).clock),
            r matches Err(e) ==> e matches Error::Emulator(_, _),
    {
        loop
            invariant
                self.wf(),
                self.scheduler_queue@.len() == old(self).scheduler_queue@.len(),
                self.scheduler_queue@.len() > 0,
                old(self).clock.fs <= self.clock.fs,
                self.clock == old(self).clock || self.clock.fs < clock.fs + MAX_STEP_FS,
                old(self).clock.fs >= clock.fs ==> self.clock == old(self).clock,
            ensures
                self.clock.fs >= clock.fs,
                self.clock == old(self).clock || self.clock.fs < clock.fs + MAX_STEP_FS,
            decreases remaining_fs(self.clock.fs, clock.fs), count_due(self.scheduler_queue@, self.clock.fs),
        {
            if !self.clock.is_before(clock) {
                break ;
            }
            let res = self.step();
            match res {
                Ok(_) => {},
                Err(e) => {
                    return Err(e);
                },
            }
        }
        Ok(())
    }

    /// Runs scheduler steps for `duration` of virtual time: afterwards
    /// the clock has advanced by at least `duration` and by less than
    /// `duration` plus the longest component step.
    pub fn run_for(&mut self, duration: Duration) -> (r: Result<(), Error>)
        requires
            old(self).wf(),
            old(self).scheduler_queue@.len() > 0,
        ensures
            final(self).wf(),
            final(self).scheduler_queue@.len() == old(self).scheduler_queue@.len(),
            old(self).clock.fs <= final(self).clock.fs,
            r is Ok ==> old(self).clock.fs + duration.fs <= final(self).clock.fs,
            r is Ok && duration.fs > 0 ==> final(self).clock.fs < old(self).clock.fs + duration.fs
                + MAX_STEP_FS,
            duration.fs == 0 ==> (r is Ok && final(self).clock == old(self).clock),
            r matches Err(e) ==> e matches Error::Emulator(_, _),
    {
        let target = self.clock.checked_add(duration);
        match target {
            Some(t) => self.run_until(t),
            None => Err(Error::emulator(EmulatorErrorKind::Misc, "virtual clock out of range")),
        }
    }
}

} // verus!
