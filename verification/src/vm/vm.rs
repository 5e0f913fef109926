//! A virtual machine as the control plane knows it: what it was made of, where in its life
//! cycle it is, and the events that wait to be passed on.

use std::collections::VecDeque;

use vstd::prelude::*;

use super::state::{IllegalTransition, VmState};
use crate::control::protocol::VmEvent;
use crate::devices::bus::Bus;
use crate::devices::device::Device;
use crate::text;

verus! {

/// What a machine is made of.
#[derive(Debug, Clone)]
pub struct VmConfig {
    pub id: String,
    pub name: String,
    pub memory_mb: u64,
    pub vcpus: u32,
    pub kernel: Option<String>,
    pub cmdline: String,
    pub disk: Option<String>,
    pub initrd: Option<String>,
    /// Width and height of a display.
    pub framebuffer: Option<(u32, u32)>,
}

/// A framebuffer that a viewer can map: its file descriptor, which stays the machine's, its
/// geometry and its size in bytes.
#[derive(Debug, Clone, Copy)]
pub struct FbShare {
    pub fd: i32,
    pub width: u32,
    pub height: u32,
    pub size: usize,
}

/// What a machine that booted hands over.
#[derive(Debug, Clone, Copy)]
pub struct RunHandle {
    pub framebuffer: Option<FbShare>,
}

/// The right to receive a machine's events. There is one for each machine, and it is good for
/// that machine alone.
#[derive(Debug)]
pub struct EventRx {
    /// The machine's name.
    vm_id: String,
}

/// A machine.
pub struct Vm<D> {
    config: VmConfig,
    state: VmState,
    bus: Bus<D>,
    /// Events that were sent and not received.
    outbox: VecDeque<VmEvent>,
    rx_taken: bool,
    /// Whether the processors were asked to stop.
    stop: bool,
    running: Option<RunHandle>,
}

/// The state of a machine.
pub ghost struct VmView<D> {
    pub config: VmConfig,
    pub state: VmState,
    pub bus: Bus<D>,
    pub outbox: Seq<VmEvent>,
    pub taken: bool,
    pub stop: bool,
    pub running: Option<RunHandle>,
}

impl<D> View for Vm<D> {
    type V = VmView<D>;

    closed spec fn view(&self) -> VmView<D> {
        VmView {
            config: self.config,
            state: self.state,
            bus: self.bus,
            outbox: self.outbox@,
            taken: self.rx_taken,
            stop: self.stop,
            running: self.running,
        }
    }
}

/// Whether `e` says that a machine is now in `state`.
pub open spec fn is_change(e: VmEvent, state: VmState) -> bool {
    e matches VmEvent::StateChanged(s) && s@ == state.name()
}

/// Whether asking a machine for the state `to` may take it from `v` to `w`: where that is legal
/// it is in that state and has said so, and otherwise nothing changes.
pub open spec fn transitioned<D>(v: VmView<D>, to: VmState, w: VmView<D>) -> bool {
    if v.state.leads_to(to) {
        &&& w.outbox.len() == v.outbox.len() + 1
        &&& w.outbox.drop_last() == v.outbox
        &&& is_change(w.outbox.last(), to)
        &&& w == (VmView { state: to, outbox: w.outbox, ..v })
    } else {
        w == v
    }
}

impl<D: Device> Vm<D> {
    /// A machine that was just created.
    pub fn new(config: VmConfig, bus: Bus<D>) -> (r: Self)
        ensures
            r@ == (VmView {
                config,
                state: VmState::Created,
                bus,
                outbox: seq![],
                taken: false,
                stop: false,
                running: None,
            }),
    {
        let r = Vm {
            config,
            state: VmState::Created,
            bus,
            outbox: VecDeque::new(),
            rx_taken: false,
            stop: false,
            running: None,
        };
        assert(r.outbox@ =~= seq![]);
        r
    }

    /// What the machine is made of.
    pub fn config(&self) -> (r: &VmConfig)
        ensures
            *r == self@.config,
    {
        &self.config
    }

    /// The machine's devices.
    pub fn bus(&self) -> (r: &Bus<D>)
        ensures
            *r == self@.bus,
    {
        &self.bus
    }

    /// Keeps what the machine handed over when it booted.
    pub fn set_running(&mut self, handle: RunHandle)
        ensures
            final(self)@ == (VmView { running: Some(handle), ..old(self)@ }),
    {
        self.running = Some(handle);
    }

    /// Whether the machine booted.
    pub fn is_running(&self) -> (r: bool)
        ensures
            r == self@.running is Some,
    {
        self.running.is_some()
    }

    /// The framebuffer that a viewer can map, if the machine booted with one.
    pub fn framebuffer_info(&self) -> (r: Option<FbShare>)
        ensures
            r == match self@.running {
                Some(h) => h.framebuffer,
                None => None,
            },
    {
        match self.running {
            Some(h) => h.framebuffer,
            None => None,
        }
    }

    /// Takes the right to receive the machine's events, which can be taken once.
    pub fn take_event_rx(&mut self) -> (r: Option<EventRx>)
        ensures
            r is Some <==> !old(self)@.taken,
            r matches Some(rx) ==> rx.machine() == old(self)@.config.id@,
            final(self)@ == (VmView { taken: true, ..old(self)@ }),
    {
        if self.rx_taken {
            None
        } else {
            self.rx_taken = true;
            Some(EventRx { vm_id: self.config.id.clone() })
        }
    }

    /// Sends an event.
    pub fn send_event(&mut self, e: VmEvent)
        ensures
            final(self)@ == (VmView { outbox: old(self)@.outbox.push(e), ..old(self)@ }),
    {
        self.outbox.push_back(e);
    }

    /// Asks all processors to stop.
    pub fn request_stop(&mut self)
        ensures
            final(self)@ == (VmView { stop: true, ..old(self)@ }),
    {
        self.stop = true;
    }

    /// Whether the processors were asked to stop.
    pub fn stop_flag(&self) -> (r: bool)
        ensures
            r == self@.stop,
    {
        self.stop
    }

    /// Asks for the state `to`.
    pub fn transition(&mut self, to: VmState) -> (r: Result<VmState, IllegalTransition>)
        ensures
            transitioned(old(self)@, to, final(self)@),
            r == if old(self)@.state.leads_to(to) {
                Ok::<VmState, IllegalTransition>(to)
            } else {
                Err::<VmState, IllegalTransition>(
                    IllegalTransition { from: old(self)@.state, to },
                )
            },
    {
        if self.state.can_transition_to(to) {
            let ghost before = self.outbox@;
            self.state = to;
            self.outbox.push_back(VmEvent::StateChanged(text::plain(to.as_str())));
            assert(self.outbox@.drop_last() =~= before);
            Ok(to)
        } else {
            Err(IllegalTransition { from: self.state, to })
        }
    }

    /// The state that the machine is in.
    pub fn current_state(&self) -> (r: VmState)
        ensures
            r == self@.state,
    {
        self.state
    }

    /// The oldest event that was not received, if there is one.
    fn next_event(&mut self) -> (r: Option<VmEvent>)
        ensures
            match r {
                Some(e) => {
                    &&& old(self)@.outbox.len() > 0
                    &&& e == old(self)@.outbox[0]
                    &&& final(self)@ == (VmView {
                        outbox: old(self)@.outbox.skip(1),
                        ..old(self)@
                    })
                },
                None => old(self)@.outbox.len() == 0 && final(self)@ == old(self)@,
            },
    {
        let ghost before = self.outbox@;
        let r = self.outbox.pop_front();
        assert(before.len() > 0 ==> before.subrange(1, before.len() as int) =~= before.skip(1));
        r
    }
}

/// Whether receiving with the right to the events of `machine` may take a machine from `v` to
/// `w` and give `r`: its oldest event, and nothing from another machine or where there is none.
pub open spec fn received<D>(
    machine: Seq<char>,
    v: VmView<D>,
    r: Option<VmEvent>,
    w: VmView<D>,
) -> bool {
    if v.config.id@ == machine && v.outbox.len() > 0 {
        r == Some(v.outbox[0]) && w == (VmView { outbox: v.outbox.skip(1), ..v })
    } else {
        r is None && w == v
    }
}

impl EventRx {
    /// The name of the machine whose events this is the right to.
    pub closed spec fn machine(&self) -> Seq<char> {
        self.vm_id@
    }

    /// The name of the machine whose events this is the right to.
    pub fn vm_id(&self) -> (r: &String)
        ensures
            r@ == self.machine(),
    {
        &self.vm_id
    }

    /// The oldest event of its machine that was not received, if there is one. Another machine's
    /// events are not given out.
    pub fn recv<D: Device>(&self, vm: &mut Vm<D>) -> (r: Option<VmEvent>)
        ensures
            received(self.machine(), old(vm)@, r, final(vm)@),
    {
        if vm.config.id == self.vm_id {
            vm.next_event()
        } else {
            None
        }
    }
}

} // verus!
