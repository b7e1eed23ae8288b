use my_remote_speaker::aud::mixer::{
    attach_result, begin_read, command_result, handle_attach, handle_cmd, samples_filled,
    skip_frames, worker_step,
    CmdEffect, DeviceDescription, DeviceInfo, MixerCmd, MixerCmdError, MixerEvent, MixerLinkState,
    MixerOutput, Mixers, ReadPlan, StandbyMode, WorkerEvent, WorkerNext,
};
use my_remote_speaker::aud::sum::{AttachError, SumTree, TrackId, Wire};
use my_remote_speaker::aud::{GROUP_CAP, L2_CAP, MAX_RENDER_SKIP_FRAMES, STANDBY_DELAY};
use my_remote_speaker::task::manager::{PanicPayload, TaskOutcome};
use my_remote_speaker::task::{TaskId, TaskManager};

const SECOND: u128 = 1_000_000_000;
const MILLI: u128 = 1_000_000;

/// A mixer whose nodes are numbered as they are made.
struct Bench {
    tree: SumTree,
    state: MixerLinkState,
    out: MixerOutput,
    next_node: u64,
    wires: Vec<Wire>,
}

impl Bench {
    fn new() -> Self {
        let (tree, wires) = SumTree::new(1, 2);
        Bench { tree, state: MixerLinkState::new(0), out: MixerOutput::new(), next_node: 3, wires }
    }

    fn node(&mut self) -> u64 {
        self.next_node += 1;
        self.next_node - 1
    }

    fn attach(&mut self, inputs: usize, outputs: usize) -> Result<TrackId, AttachError> {
        let plan = self.tree.plan_attach(inputs, outputs)?;
        let group = if plan.opens { Some(self.node()) } else { None };
        let node = self.node();
        let (id, wires) = handle_attach(&mut self.tree, &mut self.state, plan, group, node);
        self.wires.extend(wires);
        Ok(id)
    }

    fn detach(&mut self, id: TrackId) -> bool {
        let cmd = MixerCmd::Detach { id };
        handle_cmd(cmd, &mut self.tree, &mut self.state, true) == CmdEffect::Removed
    }

    fn set_mode(&mut self, mode: StandbyMode) {
        let cmd = MixerCmd::SetStandbyMode(mode);
        assert_eq!(handle_cmd(cmd, &mut self.tree, &mut self.state, true), CmdEffect::Done);
    }

    fn read(&mut self, now: u128) -> bool {
        assert_eq!(begin_read(&mut self.state, 192, true, now), ReadPlan::Render { gap: None });
        self.out.finish_read(&self.state, true, now)
    }
}

#[test]
fn attach_detach_route() {
    let mut b = Bench::new();
    let id = b.attach(0, 2).unwrap();
    assert_eq!(b.state.track_count, 1);
    assert!(b.detach(id));
    assert!(!b.detach(id));
    assert_eq!(b.state.track_count, 0);
}

#[test]
fn attach_validation() {
    let mut b = Bench::new();
    let err = attach_result(true, Some(b.attach(1, 1))).unwrap_err();
    assert!(matches!(err, MixerCmdError::Attach(AttachError::NotGenerator { inputs: 1 })));
    let err = attach_result(true, Some(b.attach(0, 1))).unwrap_err();
    assert!(matches!(err, MixerCmdError::Attach(AttachError::NotStereo { outputs: 1 })));
    assert_eq!(b.state.track_count, 0);
}

#[test]
fn sum_tree_expands() {
    let mut b = Bench::new();
    let mut ids = Vec::new();
    for _ in 0..GROUP_CAP + 1 {
        ids.push(b.attach(0, 2).unwrap());
    }
    assert_eq!(b.state.track_count, GROUP_CAP + 1);
    assert!(b.detach(ids[0]));
    assert!(b.detach(ids[4]));
    assert_eq!(b.state.track_count, GROUP_CAP - 1);
    for id in &ids {
        b.detach(*id);
    }
    assert_eq!(b.state.track_count, 0);
}

#[test]
fn standby_requested_when_idle() {
    let mut b = Bench::new();
    let mut got = false;
    for step in 0..80u128 {
        if b.read(step * 50 * MILLI) {
            assert_eq!(step * 50 * MILLI, STANDBY_DELAY);
            got = true;
            break;
        }
    }
    assert!(got, "should request standby after idle delay");
    b.set_mode(StandbyMode::ForcePlay);
    for step in 0..6u128 {
        assert!(!b.read(4 * SECOND + step * MILLI), "ForcePlay must not request standby");
    }
}

#[test]
fn no_standby_while_playing() {
    let mut b = Bench::new();
    b.set_mode(StandbyMode::Auto);
    let id = b.attach(0, 2).unwrap();
    for step in 0..60u128 {
        assert!(!b.read(step * 10 * MILLI), "no standby while playing");
    }
    assert!(b.detach(id));
    for step in 60..110u128 {
        assert!(!b.read(step * 10 * MILLI), "the idle time begins anew");
    }
}

#[test]
fn disconnected_resume_keeps_playing() {
    let mut b = Bench::new();
    b.attach(0, 2).unwrap();
    assert!(!b.read(0));
    b.state.disconnected(SECOND);
    let plan = begin_read(&mut b.state, 960, true, SECOND + 150 * MILLI);
    assert_eq!(plan, ReadPlan::Render { gap: Some(150 * MILLI) });
    for step in 0..5u128 {
        assert!(!b.read(2 * SECOND + step * MILLI));
    }
    assert_eq!(b.state.track_count, 1);
}

#[test]
fn silent_track_does_not_standby() {
    let mut b = Bench::new();
    b.set_mode(StandbyMode::Auto);
    let id = b.attach(0, 2).unwrap();
    for step in 0..24u128 {
        assert!(!b.read(step * 100 * MILLI), "an attached track must not request standby");
    }
    assert!(b.detach(id));
    let mut got = false;
    for step in 24..55u128 {
        if b.read(step * 100 * MILLI) {
            got = true;
            break;
        }
    }
    assert!(got, "standby should fire after detach and the idle delay");
}

#[test]
fn standby_is_asked_for_once_until_a_track_came() {
    let mut b = Bench::new();
    assert!(!b.read(0));
    assert!(b.read(2 * SECOND));
    assert!(!b.read(9 * SECOND));
    let id = b.attach(0, 2).unwrap();
    assert!(!b.read(10 * SECOND));
    b.detach(id);
    assert!(!b.read(11 * SECOND));
    assert!(!b.read(12 * SECOND));
    assert!(b.read(13 * SECOND));
}

#[test]
fn mode_that_cannot_be_reached_plays_on() {
    let mut b = Bench::new();
    b.read(0);
    assert!(!b.out.finish_read(&b.state, false, 5 * SECOND));
    let cmd = MixerCmd::SetStandbyMode(StandbyMode::ForcePlay);
    handle_cmd(cmd, &mut b.tree, &mut b.state, false);
    assert_eq!(b.state.mode, StandbyMode::Auto);
    assert_eq!(StandbyMode::default(), StandbyMode::Auto);
}

#[test]
fn full_tree_refuses_and_takes_again() {
    let mut b = Bench::new();
    let mut ids = Vec::new();
    for _ in 0..GROUP_CAP * L2_CAP {
        ids.push(b.attach(0, 2).unwrap());
    }
    assert_eq!(b.attach(0, 2), Err(AttachError::NoSlot { cap: 64 }));
    assert!(b.detach(ids[20]));
    let plan = b.tree.plan_attach(0, 2).unwrap();
    assert_eq!((plan.group, plan.slot, plan.opens), (2, 4, false));
    b.attach(0, 2).unwrap();
    assert_eq!(b.attach(0, 2), Err(AttachError::NoSlot { cap: 64 }));
    assert_eq!(b.state.track_count, 64);
}

#[test]
fn wires_of_groups_and_tracks() {
    let mut b = Bench::new();
    let wire = |from, out_port, to, in_port| Wire { from, out_port, to, in_port };
    assert_eq!(b.wires, vec![wire(2, 0, 1, 0), wire(2, 1, 1, 1)]);
    b.attach(0, 2).unwrap();
    b.attach(0, 2).unwrap();
    assert_eq!(b.wires[2..4], [wire(3, 0, 2, 0), wire(3, 1, 2, 1)]);
    assert_eq!(b.wires[4..6], [wire(4, 0, 2, 2), wire(4, 1, 2, 3)]);
    for _ in 2..GROUP_CAP {
        b.attach(0, 2).unwrap();
    }
    b.attach(0, 2).unwrap();
    let n = b.wires.len();
    assert_eq!(b.wires[n - 4..n - 2], [wire(11, 0, 1, 2), wire(11, 1, 1, 3)]);
    assert_eq!(b.wires[n - 2..n], [wire(12, 0, 11, 0), wire(12, 1, 11, 1)]);
    let mut inputs: Vec<(u64, usize)> = b.wires.iter().map(|w| (w.to, w.in_port)).collect();
    inputs.sort();
    inputs.dedup();
    assert_eq!(inputs.len(), b.wires.len());
}

#[test]
fn read_refuses_bad_buffers_and_a_failed_renderer() {
    let mut s = MixerLinkState::new(0);
    assert_eq!(begin_read(&mut s, 0, true, 0), ReadPlan::Refused);
    assert_eq!(begin_read(&mut s, 3, true, 0), ReadPlan::Refused);
    assert!(!s.backend_errored);
    assert_eq!(begin_read(&mut s, 2, false, 0), ReadPlan::Refused);
    assert!(s.backend_errored);
    assert_eq!(begin_read(&mut s, 2, true, 0), ReadPlan::Refused);
    s.reset();
    assert_eq!(begin_read(&mut s, 2, true, 0), ReadPlan::Render { gap: None });
}

#[test]
fn read_tells_how_many_samples_were_filled() {
    let mut s = MixerLinkState::new(0);
    for (len, filled) in [(960, 960), (3, 0), (0, 0), (2, 2)] {
        let plan = begin_read(&mut s, len, true, 0);
        assert_eq!(samples_filled(plan, len), filled);
    }
    let plan = begin_read(&mut s, 960, false, 0);
    assert_eq!(samples_filled(plan, 960), 0);
}

#[test]
fn first_of_several_losses_counts() {
    let mut s = MixerLinkState::new(0);
    s.disconnected(10);
    s.disconnected(25);
    assert_eq!(begin_read(&mut s, 2, true, 40), ReadPlan::Render { gap: Some(30) });
    assert_eq!(begin_read(&mut s, 2, true, 41), ReadPlan::Render { gap: None });
    s.disconnected(50);
    assert_eq!(begin_read(&mut s, 2, true, 45), ReadPlan::Render { gap: Some(0) });
}

#[test]
fn skipped_frames_are_limited() {
    assert_eq!(skip_frames(7200), 7200);
    assert_eq!(skip_frames(480_000), 480_000);
    assert_eq!(skip_frames(480_001), MAX_RENDER_SKIP_FRAMES);
}

#[test]
fn command_results() {
    assert_eq!(command_result(false, Some(1)), Err(MixerCmdError::Send));
    assert_eq!(command_result::<i32>(true, None), Err(MixerCmdError::Timeout));
    assert_eq!(command_result(true, Some(true)), Ok(true));
    assert_eq!(attach_result(true, Some(Ok(TrackId(4)))), Ok(TrackId(4)));
    assert_eq!(attach_result(false, None), Err(MixerCmdError::Send));
    assert_eq!(u64::from(TrackId::from(9)), 9);
}

#[test]
fn resume_is_passed_on() {
    let mut b = Bench::new();
    assert_eq!(
        handle_cmd(MixerCmd::Resume, &mut b.tree, &mut b.state, true),
        CmdEffect::Send(MixerEvent::RequestResume)
    );
}

#[test]
fn worker_loop() {
    assert_eq!(worker_step(false, WorkerEvent::Command), WorkerNext::Handle);
    assert_eq!(worker_step(false, WorkerEvent::Unreadable), WorkerNext::Unsubscribe);
    assert_eq!(worker_step(false, WorkerEvent::Timeout), WorkerNext::Wait);
    assert_eq!(worker_step(false, WorkerEvent::Disconnected), WorkerNext::Return);
    assert_eq!(worker_step(true, WorkerEvent::Command), WorkerNext::Return);
}

#[test]
fn device_info_from_description() {
    let plain = DeviceInfo::create("hw:0", None);
    assert_eq!((plain.id.as_str(), plain.name.as_str(), plain.address), ("hw:0", "", None));
    let desc = DeviceDescription { name: "Speaker".into(), address: Some("usb".into()) };
    let info = DeviceInfo::create("hw:1", Some(&desc));
    assert_eq!(info.name, "Speaker");
    assert_eq!(info.address.as_deref(), Some("usb"));
}

#[test]
fn mixer_registry_recreates_after_a_panic() {
    let mut tm = TaskManager::new();
    let mut mixers = Mixers::new();
    let info = DeviceInfo::create("dev-a", None);
    let first = mixers.get_or_create(&mut tm, &info);
    assert!(first.created && first.started);
    let again = mixers.get_or_create(&mut tm, &info);
    assert!(!again.created);
    assert_eq!(again.worker, first.worker);
    assert_eq!(mixers.handle("dev-a"), Some(first.worker));
    assert_eq!(mixers.handle("dev-b"), None);

    tm.finish(first.worker, TaskOutcome::Panicked(PanicPayload::Literal("boom")));
    let second = mixers.get_or_create(&mut tm, &info);
    assert!(second.created);
    assert_ne!(second.worker, first.worker);
    assert_eq!(mixers.handle("dev-a"), Some(second.worker));

    mixers.get_or_create(&mut tm, &DeviceInfo::create("dev-b", None));
    let mut ids: Vec<String> = mixers.devices().into_iter().map(|d| d.id).collect();
    ids.sort();
    assert_eq!(ids, vec!["dev-a", "dev-b"]);
    assert!(mixers.remove("dev-a"));
    assert!(!mixers.remove("dev-a"));
    assert_eq!(mixers.handle("dev-a"), None);
    assert_eq!(mixers.devices().len(), 1);
}

#[test]
fn mixer_of_a_closed_manager_is_not_started() {
    let mut tm = TaskManager::new();
    tm.close();
    let lease = Mixers::new().get_or_create(&mut tm, &DeviceInfo::create("x", None));
    assert!(lease.created && !lease.started);
    assert_eq!(lease.worker, TaskId(1));
}
