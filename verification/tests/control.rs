use vmm::control::events::{Arrival, Coalescer};
use vmm::control::manager::{Action, BootOutcome, Manager, ManagerError, TaggedEvent};
use vmm::control::protocol::{
    frame, payload_length, Command, Request, Response, ResponseBody, VmEvent,
};
use vmm::control::server::{
    answer, bad_request, descriptor_follows, parse_args, serve, serve_boot, Invocation, Session,
};
use vmm::devices::bus::Bus;
use vmm::devices::pci_stub::PciHostBridgeStub;
use vmm::vm::state::{IllegalTransition, VmState};
use vmm::vm::vm::{FbShare, RunHandle, Vm, VmConfig};

fn cfg() -> VmConfig {
    VmConfig {
        id: "vm-1".into(),
        name: "t".into(),
        memory_mb: 128,
        vcpus: 1,
        kernel: None,
        cmdline: "console=ttyS0".into(),
        disk: None,
        initrd: None,
        framebuffer: None,
    }
}

fn machine() -> Vm<PciHostBridgeStub> {
    Vm::new(cfg(), Bus::new())
}

#[test]
fn legal_boot_path() {
    assert!(VmState::Created.can_transition_to(VmState::Booting));
    assert!(VmState::Booting.can_transition_to(VmState::Running));
    assert!(VmState::Running.can_transition_to(VmState::Paused));
    assert!(VmState::Paused.can_transition_to(VmState::Running));
    assert!(VmState::Running.can_transition_to(VmState::Stopped));
}

#[test]
fn illegal_transitions_rejected() {
    assert!(!VmState::Created.can_transition_to(VmState::Running));
    assert!(!VmState::Stopped.can_transition_to(VmState::Running));
    assert!(!VmState::Paused.can_transition_to(VmState::Booting));
}

#[test]
fn event_rx_is_takeable_once() {
    let mut vm = machine();
    assert!(vm.take_event_rx().is_some());
    assert!(vm.take_event_rx().is_none());
}

#[test]
fn transition_emits_event() {
    let mut vm = machine();
    let rx = vm.take_event_rx().unwrap();
    vm.transition(VmState::Booting).unwrap();
    let ev = rx.recv(&mut vm).unwrap();
    assert_eq!(ev, VmEvent::StateChanged("Booting".into()));
    assert!(rx.recv(&mut vm).is_none());
}

#[test]
fn illegal_transition_errs() {
    let mut vm = machine();
    assert!(vm.transition(VmState::Running).is_err());
}

#[test]
fn nothing_follows_a_stop() {
    let all = [
        VmState::Created,
        VmState::Booting,
        VmState::Running,
        VmState::Paused,
        VmState::Stopped,
    ];
    for s in all {
        assert!(!VmState::Stopped.can_transition_to(s));
        assert!(!s.can_transition_to(VmState::Created));
    }
    assert_eq!(VmState::Paused.as_str(), "Paused");
    let e = IllegalTransition { from: VmState::Created, to: VmState::Running };
    assert_eq!(e.message(), "illegal VM state transition: Created -> Running");
}

#[test]
fn machine_keeps_what_it_is_told() {
    let mut vm = machine();
    assert_eq!(vm.config().name, "t");
    assert!(!vm.is_running());
    assert!(!vm.stop_flag());
    vm.request_stop();
    assert!(vm.stop_flag());
    assert!(vm.framebuffer_info().is_none());
    vm.set_running(RunHandle { framebuffer: Some(FbShare { fd: 3, width: 1, height: 2, size: 8 }) });
    assert!(vm.is_running());
    assert_eq!(vm.framebuffer_info().unwrap().fd, 3);
    assert_eq!(vm.current_state(), VmState::Created);
}

#[test]
fn events_go_to_their_own_receiver() {
    let mut one = machine();
    let mut other: Vm<PciHostBridgeStub> =
        Vm::new(VmConfig { id: "vm-2".into(), ..cfg() }, Bus::new());
    let rx = one.take_event_rx().unwrap();
    assert_eq!(rx.vm_id(), "vm-1");
    other.transition(VmState::Booting).unwrap();
    assert!(rx.recv(&mut other).is_none());
    let rx2 = other.take_event_rx().unwrap();
    assert_eq!(rx2.recv(&mut other), Some(VmEvent::StateChanged("Booting".into())));
    // The same through the manager.
    let mut m = manager();
    let a = created_id(&mut m, create(None));
    let b = created_id(&mut m, create(None));
    let rx_a = m.take_event_rx(&a).unwrap();
    let rx_b = m.take_event_rx(&b).unwrap();
    m.handle(Command::StartVm { id: b.clone() });
    assert!(m.next_event(&rx_a).is_none());
    assert!(m.next_event(&rx_b).is_some());
}

#[test]
fn messages_can_be_copied() {
    let r = Response::err(4, "x".to_string());
    let c = r.clone();
    assert_eq!(c.id, 4);
    assert!(matches!(c.result, Err(e) if e == "x"));
    let ok = Response::ok(5, ResponseBody::Created { id: "vm-1".into() });
    assert!(matches!(ok.clone().result, Ok(ResponseBody::Created { id }) if id == "vm-1"));
    let req = Request { id: 1, command: create(Some("k")) };
    assert!(matches!(req.clone().command, Command::CreateVm { vcpus: 2, .. }));
    assert_eq!(cfg().clone().name, "t");
    let e = TaggedEvent { vm_id: "v".into(), event: VmEvent::SerialOutput(vec![1]) };
    assert_eq!(e.clone().event, VmEvent::SerialOutput(vec![1]));
}

#[test]
fn frame_prefixes_length() {
    let f = frame(b"hello").unwrap();
    assert_eq!(&f[..4], &5u32.to_be_bytes());
    assert_eq!(&f[4..], b"hello");
}

#[test]
fn frame_length_reads_back() {
    let payload = vec![7u8; 70_000];
    let f = frame(&payload).unwrap();
    let prefix = [f[0], f[1], f[2], f[3]];
    assert_eq!(payload_length(&prefix), Ok(70_000));
    assert_eq!(f[4..], payload[..]);
    assert_eq!(payload_length(&(8 * 1024 * 1024u32).to_be_bytes()), Ok(8 * 1024 * 1024));
    assert_eq!(
        payload_length(&(8 * 1024 * 1024u32 + 1).to_be_bytes()),
        Err("frame too large: 8388609 bytes".to_string())
    );
}

fn create(kernel: Option<&str>) -> Command {
    Command::CreateVm {
        name: "test".into(),
        memory_mb: 256,
        vcpus: 2,
        kernel: kernel.map(|k| k.into()),
        cmdline: None,
        disk: None,
        initrd: None,
        framebuffer: Some((640, 480)),
    }
}

fn manager() -> Manager<PciHostBridgeStub> {
    Manager::new()
}

fn created_id(m: &mut Manager<PciHostBridgeStub>, cmd: Command) -> String {
    match m.handle(cmd).reply {
        Some(Ok(ResponseBody::Created { id })) => id,
        _ => panic!("expected a new machine"),
    }
}

fn is_done(r: Option<Result<ResponseBody, ManagerError>>) -> bool {
    matches!(r, Some(Ok(ResponseBody::Done)))
}

fn events(m: &mut Manager<PciHostBridgeStub>, id: &String) -> Vec<VmEvent> {
    let rx = m.take_event_rx(id).unwrap();
    let mut out = Vec::new();
    while let Some(e) = m.next_event(&rx) {
        out.push(e);
    }
    out
}

#[test]
fn machines_get_names_in_order() {
    let mut m = manager();
    assert_eq!(created_id(&mut m, create(None)), "vm-1");
    for i in 2..12 {
        assert_eq!(created_id(&mut m, create(None)), format!("vm-{i}"));
    }
    match m.handle(Command::ListVms).reply {
        Some(Ok(ResponseBody::VmList { vms })) => {
            assert_eq!(vms.len(), 11);
            assert_eq!(vms[10].id, "vm-11");
            assert_eq!(vms[0].name, "test");
            assert_eq!(vms[0].state, "Created");
            assert_eq!(vms[0].memory_mb, 256);
            assert_eq!(vms[0].vcpus, 2);
        }
        _ => panic!("expected a list"),
    }
}

#[test]
fn machine_without_kernel_runs_idle() {
    let mut m = manager();
    let id = created_id(&mut m, create(None));
    let h = m.handle(Command::StartVm { id: id.clone() });
    assert!(is_done(h.reply));
    assert!(matches!(h.action, Action::Nothing));
    assert_eq!(
        events(&mut m, &id),
        vec![
            VmEvent::StateChanged("Booting".into()),
            VmEvent::StateChanged("Running".into()),
            VmEvent::SerialOutput(
                b"[vmm-daemon] VM started with no kernel configured (idle)\r\n".to_vec()
            ),
        ]
    );
    assert!(is_done(m.handle(Command::PauseVm { id: id.clone() }).reply));
    assert!(is_done(m.handle(Command::ResumeVm { id: id.clone() }).reply));
    // Serial input goes nowhere, and that is no error.
    let h = m.handle(Command::SendSerialInput { id: id.clone(), data: vec![1] });
    assert!(is_done(h.reply));
    assert!(matches!(h.action, Action::Nothing));
    let h = m.handle(Command::StopVm { id: id.clone() });
    assert!(is_done(h.reply));
    match h.action {
        Action::Stop(s) => assert_eq!(s, id),
        _ => panic!("expected a stop"),
    }
    match m.handle(Command::StartVm { id: id.clone() }).reply {
        Some(Err(e)) => assert_eq!(
            e.message(),
            "illegal transition: illegal VM state transition: Stopped -> Booting"
        ),
        _ => panic!("a stopped machine does not start"),
    }
}

#[test]
fn machine_with_kernel_is_booted() {
    let mut m = manager();
    let id = created_id(&mut m, create(Some("bzImage")));
    let h = m.handle(Command::StartVm { id: id.clone() });
    assert!(h.reply.is_none());
    match h.action {
        Action::Boot(req) => {
            assert_eq!(req.id, id);
            assert_eq!(req.kernel, "bzImage");
            assert_eq!(req.cmdline, "console=ttyS0");
            assert_eq!(req.memory_mb, 256);
            assert!(req.disk.is_none());
            let fb = req.framebuffer.unwrap();
            assert_eq!((fb.width, fb.height), (640, 480));
        }
        _ => panic!("expected a boot"),
    }
    // No framebuffer before it booted.
    match m.handle(Command::RequestFramebuffer { id: id.clone() }).reply {
        Some(Err(e)) => assert_eq!(
            e.message(),
            "VM operation failed: no framebuffer for this VM"
        ),
        _ => panic!("no framebuffer yet"),
    }
    assert_eq!(m.framebuffer_fd(&id), None);
    let share = FbShare { fd: 9, width: 640, height: 480, size: 1_228_800 };
    let run = RunHandle { framebuffer: Some(share) };
    assert!(m.boot_finished(id.clone(), BootOutcome::Started(run)).is_ok());
    match m.handle(Command::RequestFramebuffer { id: id.clone() }).reply {
        Some(Ok(ResponseBody::FramebufferIncoming { width, height, size })) => {
            assert_eq!((width, height, size), (640, 480, 1_228_800));
        }
        _ => panic!("expected a framebuffer"),
    }
    assert_eq!(m.framebuffer_fd(&id), Some(9));
    assert_eq!(m.framebuffer_fd(&"vm-9".to_string()), None);
    match m.handle(Command::SendSerialInput { id: id.clone(), data: vec![1, 2] }).action {
        Action::Feed(to, data) => assert_eq!((to, data), (id, vec![1, 2])),
        _ => panic!("expected input"),
    }
}

#[test]
fn failed_boots_are_told() {
    let mut m = manager();
    let id = created_id(&mut m, create(Some("k")));
    m.handle(Command::StartVm { id: id.clone() });
    match m.boot_finished(id.clone(), BootOutcome::Failed("no kvm".into())) {
        Err(e) => assert_eq!(e.message(), "VM operation failed: boot failed: no kvm"),
        Ok(_) => panic!("it failed"),
    }
    match m.boot_finished(id.clone(), BootOutcome::Lost("gone".into())) {
        Err(e) => assert_eq!(e.message(), "VM operation failed: boot task join: gone"),
        Ok(_) => panic!("it was lost"),
    }
    // Stopped while it booted: it does not run.
    m.handle(Command::StopVm { id: id.clone() });
    match m.boot_finished(id.clone(), BootOutcome::Started(RunHandle { framebuffer: None })) {
        Err(e) => assert_eq!(
            e.message(),
            "illegal transition: illegal VM state transition: Stopped -> Running"
        ),
        Ok(_) => panic!("it was stopped"),
    }
    assert!(m.take_event_rx(&id).is_some());
    assert!(m.take_event_rx(&id).is_none());
    assert!(m.take_event_rx(&"x".to_string()).is_none());
}

#[test]
fn unknown_machines_are_refused() {
    let mut m = manager();
    for cmd in [
        Command::StartVm { id: "vm-7".into() },
        Command::StopVm { id: "vm-7".into() },
        Command::PauseVm { id: "vm-7".into() },
        Command::ResumeVm { id: "vm-7".into() },
        Command::SendSerialInput { id: "vm-7".into(), data: vec![] },
        Command::RequestFramebuffer { id: "vm-7".into() },
    ] {
        let mut s = Session::new();
        let served = serve(&mut s, &mut m, Request { id: 5, command: cmd });
        let r = served.response.unwrap();
        assert_eq!(r.id, 5);
        match r.result {
            Err(e) => assert_eq!(e, "no such VM: vm-7"),
            Ok(_) => panic!("there is no such machine"),
        }
    }
}

#[test]
fn session_passes_events_on_after_subscription() {
    let mut m = manager();
    let mut s = Session::new();
    let ev = || TaggedEvent { vm_id: "vm-1".into(), event: VmEvent::Exited("x".into()) };
    assert!(s.event_message(ev()).is_none());
    let served = serve(&mut s, &mut m, Request { id: 1, command: Command::Subscribe });
    assert!(served.asked.is_none());
    assert!(matches!(served.response, Some(Response { id: 1, result: Ok(ResponseBody::Done) })));
    match s.event_message(ev()) {
        Some(Response { id, result: Ok(ResponseBody::VmEvent { id: vm, event }) }) => {
            assert_eq!(id, 0);
            assert_eq!(vm, "vm-1");
            assert_eq!(event, VmEvent::Exited("x".into()));
        }
        _ => panic!("expected the event"),
    }
}

#[test]
fn descriptor_follows_a_granted_framebuffer() {
    let mut m = manager();
    let mut s = Session::new();
    let id = created_id(&mut m, create(Some("k")));
    let served = serve(&mut s, &mut m, Request { id: 2, command: Command::StartVm { id: id.clone() } });
    assert!(served.response.is_none());
    assert!(matches!(served.action, Action::Boot(_)));
    let ask = |id: &String| Request { id: 3, command: Command::RequestFramebuffer { id: id.clone() } };
    let served = serve(&mut s, &mut m, ask(&id));
    assert_eq!(served.asked, Some(id.clone()));
    assert!(!descriptor_follows(&served.asked, &served.response.unwrap()));
    let share = FbShare { fd: 9, width: 1, height: 1, size: 4 };
    let r = serve_boot(
        &mut m,
        2,
        id.clone(),
        BootOutcome::Started(RunHandle { framebuffer: Some(share) }),
    );
    assert_eq!(r.id, 2);
    assert!(r.result.is_ok());
    let served = serve(&mut s, &mut m, ask(&id));
    assert!(descriptor_follows(&served.asked, &served.response.unwrap()));
    let served = serve(&mut s, &mut m, Request { id: 4, command: Command::ListVms });
    assert!(!descriptor_follows(&served.asked, &served.response.unwrap()));
}

#[test]
fn answers_carry_the_request_number() {
    let r = bad_request("eof");
    assert_eq!(r.id, 0);
    match r.result {
        Err(e) => assert_eq!(e, "bad request: eof"),
        Ok(_) => panic!("it was no request"),
    }
    assert_eq!(answer(8, Ok(ResponseBody::Done)).id, 8);
    match answer(8, Err(ManagerError::NotFound("a".into()))).result {
        Err(e) => assert_eq!(e, "no such VM: a"),
        Ok(_) => panic!("an error"),
    }
    let r = Response::err(1, "boom".to_string());
    assert!(matches!(r.result, Err(e) if e == "boom"));
    assert!(Response::ok(1, ResponseBody::Done).result.is_ok());
}

fn args(a: &[&str]) -> Vec<String> {
    a.iter().map(|s| s.to_string()).collect()
}

#[test]
fn arguments_name_the_socket() {
    let socket = |a: &[&str]| match parse_args(&args(a)) {
        Invocation::Serve(s) => s,
        Invocation::Help => "help".to_string(),
    };
    assert_eq!(socket(&[]), "/tmp/vmm.sock");
    assert_eq!(socket(&["--socket", "/a"]), "/a");
    assert_eq!(socket(&["x", "-s", "/a", "-s", "/b"]), "/b");
    assert_eq!(socket(&["-s"]), "/tmp/vmm.sock");
    assert_eq!(socket(&["-s", "-h"]), "-h");
    assert_eq!(socket(&["-s", "/a", "--help"]), "help");
    assert_eq!(socket(&["-h"]), "help");
}

fn serial(b: &[u8]) -> Arrival {
    Arrival::Event(VmEvent::SerialOutput(b.to_vec()))
}

#[test]
fn serial_output_is_put_together() {
    let mut c = Coalescer::new();
    assert!(!c.is_holding());
    assert!(c.arrive(serial(b"a")).out.is_empty());
    assert!(c.is_holding());
    assert!(c.arrive(serial(b"bc")).out.is_empty());
    let r = c.arrive(Arrival::Quiet);
    assert_eq!(r.out, vec![VmEvent::SerialOutput(b"abc".to_vec())]);
    assert!(!r.closed);
    // Another event pushes what was held before itself.
    c.arrive(serial(b"d"));
    let r = c.arrive(Arrival::Event(VmEvent::Exited("e".into())));
    assert_eq!(
        r.out,
        vec![VmEvent::SerialOutput(b"d".to_vec()), VmEvent::Exited("e".into())]
    );
    let r = c.arrive(Arrival::Event(VmEvent::StateChanged("s".into())));
    assert_eq!(r.out, vec![VmEvent::StateChanged("s".into())]);
    // Much is passed on at once.
    c.arrive(serial(&[1; 16_383]));
    let r = c.arrive(serial(&[2]));
    assert_eq!(r.out.len(), 1);
    assert!(!c.is_holding());
    // The end flushes.
    c.arrive(serial(b"z"));
    let r = c.arrive(Arrival::Closed);
    assert!(r.closed);
    assert_eq!(r.out, vec![VmEvent::SerialOutput(b"z".to_vec())]);
    let r = c.arrive(Arrival::Closed);
    assert!(r.closed && r.out.is_empty());
}
