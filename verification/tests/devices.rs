use std::sync::Arc;

use my_remote_speaker::aud::devices::{DeviceEvent, DeviceState, DeviceStates};
use my_remote_speaker::aud::handler::{
    after_build, after_control, after_event, after_start, before_build, device_handler,
    get_supported_config, stream_error_callback, stream_handle_event, stream_next, AudioError,
    ConfigRange, DeviceHandlerError, ErrorKind, SampleFormat, StreamAction, StreamEvent,
    StreamHandlerError, StreamInput, StreamStep,
};
use my_remote_speaker::aud::host::{
    after_look, get_device_status, host_cycle, host_plan, look, on_device_del, record, run_action,
    ActionEffect, HostAction, HostNext, HostState, IdMap, SeenDevice,
};
use my_remote_speaker::aud::manager::{
    ensure_host_is_running, wait_ready, AudioManager, AudioManagerError, DeviceError,
};
use my_remote_speaker::aud::mixer::{
    DeviceDescription, DeviceInfo, MixerCmdError, MixerEvent, Mixers,
};
use my_remote_speaker::aud::sum::AttachError;
use my_remote_speaker::audio_cli::{after_detach, asked_for, played_devices, DetachStep};
use my_remote_speaker::task::manager::{CancelPlan, TaskHandle, TaskOutcome};
use my_remote_speaker::task::{TaskData, TaskId, TaskKind, TaskManager, TypedTaskState};

fn info(id: &str) -> DeviceInfo {
    DeviceInfo::create(id, None)
}

#[test]
fn directory_announces_changes_once() {
    let mut d = DeviceStates::new();
    assert!(matches!(d.add(info("a"), 1), Some(DeviceEvent::Added { info }) if info.id == "a"));
    assert_eq!(d.get("a").unwrap().state, DeviceState::Initializing);
    let (changed, ev) = d.transition("a", DeviceState::Ready, 2);
    assert!(changed);
    assert!(matches!(ev, Some(DeviceEvent::Ready { id }) if id == "a"));
    let (changed, ev) = d.transition("a", DeviceState::Ready, 3);
    assert!(!changed && ev.is_none());
    let (_, ev) = d.transition("a", DeviceState::Disconnected, 4);
    assert!(matches!(ev, Some(DeviceEvent::Disconnected { id }) if id == "a"));
    assert_eq!(d.get("a").unwrap().disconnected_at, Some(4));
    assert!(d.add(info("a"), 5).is_none());
    let e = d.get("a").unwrap();
    assert_eq!((e.state, e.disconnected_at), (DeviceState::Initializing, None));
    let (_, ev) = d.transition("a", DeviceState::Gone, 6);
    assert!(matches!(ev, Some(DeviceEvent::Gone { id }) if id == "a"));
    let (changed, ev) = d.transition("zzz", DeviceState::Ready, 7);
    assert!(!changed && ev.is_none());
    assert!(matches!(d.remove("a"), Some(DeviceEvent::Gone { id }) if id == "a"));
    assert!(d.remove("a").is_none());
    assert!(d.get("a").is_none());
    assert!(DeviceStates::default().snapshot().is_empty());
}

fn manager_with(ids: &[&str]) -> (AudioManager, TaskManager) {
    let mut am = AudioManager::new();
    let mut tm = TaskManager::new();
    for id in ids {
        am.mixers.get_or_create(&mut tm, &info(id));
        am.states.add(info(id), 0);
    }
    (am, tm)
}

#[test]
fn devices_are_sorted_and_need_a_mixer() {
    let (mut am, _tm) = manager_with(&["b", "a", "ab", "B"]);
    am.states.add(info("no-mixer"), 0);
    let ids: Vec<String> = am.devices().into_iter().map(|d| d.id).collect();
    assert_eq!(ids, vec!["B", "a", "ab", "b"]);
    let b = am.device("b").unwrap();
    assert_eq!(b.id(), "b");
    assert_eq!(b.worker, TaskId(1));
    assert!(am.device("no-mixer").is_none());
    assert!(am.device("nothing").is_none());
}

#[test]
fn commands_to_a_device_that_is_gone() {
    let (mut am, _tm) = manager_with(&["a"]);
    let dev = am.device("a").unwrap();
    assert_eq!(dev.state(&am.states), DeviceState::Initializing);
    assert_eq!(dev.ensure_live(&am.states), Ok(()));
    assert_eq!(
        dev.classify(&am.states, MixerCmdError::Send),
        DeviceError::Mixer { source: MixerCmdError::Send }
    );
    assert_eq!(dev.info(&am.states).unwrap().id, "a");
    am.states.transition("a", DeviceState::Gone, 1);
    assert_eq!(dev.ensure_live(&am.states), Err(DeviceError::Gone));
    assert_eq!(am.devices().len(), 1);
    assert_eq!(dev.classify(&am.states, MixerCmdError::Send), DeviceError::Gone);
    assert_eq!(dev.classify(&am.states, MixerCmdError::Timeout), DeviceError::Gone);
    let refused = MixerCmdError::Attach(AttachError::NoSlot { cap: 64 });
    assert_eq!(dev.classify(&am.states, refused), DeviceError::Mixer { source: refused });
    assert_eq!(dev.conclude(&am.states, Ok(7)), Ok(7));
    assert_eq!(
        dev.conclude::<i32>(&am.states, Err(MixerCmdError::Timeout)),
        Err(DeviceError::Gone)
    );
    am.states.remove("a");
    assert_eq!(dev.state(&am.states), DeviceState::Gone);
    assert!(dev.info(&am.states).is_none());
}

#[test]
fn sound_is_played_on_the_devices_asked_for() {
    assert!(asked_for("alsa:hw0", None));
    assert!(!asked_for("pipewire:output.hdmi", None));
    assert!(!asked_for("pipewire:output_default", None));
    assert!(!asked_for("pipewire:sink_default", None));
    assert!(asked_for("pipewire:alsa_output.pci", None));
    let text = "output".to_string();
    assert!(asked_for("pipewire:output_default", Some(&text)));
    assert!(!asked_for("alsa:hw0", Some(&text)));

    let (mut am, _tm) = manager_with(&["pipewire:sink_default", "hw:1", "hw:0", "usb"]);
    am.states.transition("usb", DeviceState::Gone, 1);
    let ids: Vec<String> = played_devices(&am, None).into_iter().map(|d| d.id).collect();
    assert_eq!(ids, vec!["hw:0", "hw:1"]);
    let text = "sink".to_string();
    let ids: Vec<String> = played_devices(&am, Some(&text)).into_iter().map(|d| d.id).collect();
    assert_eq!(ids, vec!["pipewire:sink_default"]);
}

#[test]
fn sound_on_a_device_that_went_is_skipped() {
    assert_eq!(after_detach(Ok(true)), DetachStep::Next);
    assert_eq!(after_detach(Ok(false)), DetachStep::Next);
    assert_eq!(after_detach(Err(DeviceError::Gone)), DetachStep::Skip);
    let e = DeviceError::Mixer { source: MixerCmdError::Timeout };
    assert_eq!(after_detach(Err(e)), DetachStep::Fail(e));
}

#[test]
fn host_start_is_judged_by_its_state() {
    type S = TypedTaskState<(), (), String>;
    assert!(ensure_host_is_running::<String>(S::Running(Arc::new(()))).is_ok());
    assert!(matches!(
        ensure_host_is_running::<String>(S::Failed(Arc::new("e".into()))),
        Err(AudioManagerError::HostHandler { source }) if *source == "e"
    ));
    assert!(matches!(
        ensure_host_is_running::<String>(S::Panicked(Arc::new("p".into()))),
        Err(AudioManagerError::HostHandlerPanicked { msg }) if *msg == "p"
    ));
    for s in [S::Completed(Arc::new(())), S::Cancelled, S::Cancelling, S::Invalid] {
        assert!(matches!(
            ensure_host_is_running::<String>(s),
            Err(AudioManagerError::HostHandlerQuited)
        ));
    }

    let mut tm = TaskManager::new();
    let (h, _): (TaskHandle<(), (), String>, bool) = tm.spawn_blocking_typed();
    assert!(wait_ready(&h, &tm).is_none());
    tm.report(h.id, ().into_value());
    assert!(matches!(wait_ready(&h, &tm), Some(Ok(()))));
    tm.finish(h.id, TaskOutcome::Failed("x".to_string().into_value()));
    assert!(matches!(
        wait_ready(&h, &tm),
        Some(Err(AudioManagerError::HostHandler { source })) if *source == "x"
    ));
}

fn range(format: SampleFormat, channels: u16, min_rate: u32, max_rate: u32) -> ConfigRange {
    ConfigRange { format, channels, min_rate, max_rate }
}

#[test]
fn configurations_in_order_of_preference() {
    let f2 = range(SampleFormat::F32, 2, 44100, 48000);
    let i2 = range(SampleFormat::I16, 2, 48000, 96000);
    let f1 = range(SampleFormat::F32, 1, 8000, 192000);
    let i1 = range(SampleFormat::I16, 1, 48000, 48000);
    let slow = range(SampleFormat::F32, 2, 8000, 44100);
    let other = range(SampleFormat::Unlisted, 2, 8000, 192000);
    let many = range(SampleFormat::F32, 6, 8000, 192000);
    assert_eq!(get_supported_config(vec![i1, f1, i2, f2], 48000), Some((true, true)));
    assert_eq!(get_supported_config(vec![i1, f1, i2, slow], 48000), Some((false, true)));
    assert_eq!(get_supported_config(vec![i1, f1, slow], 48000), Some((true, false)));
    assert_eq!(get_supported_config(vec![other, i1, many], 48000), Some((false, false)));
    assert_eq!(get_supported_config(vec![other, many, slow], 48000), None);
    assert_eq!(get_supported_config(vec![], 48000), None);
}

#[test]
fn device_is_served_or_not() {
    let f2 = range(SampleFormat::F32, 2, 44100, 48000);
    let i1 = range(SampleFormat::I16, 1, 48000, 48000);
    let setup = device_handler(true, true, Some(vec![f2])).unwrap();
    assert_eq!((setup.channels, setup.sample_rate, setup.buffer_frames), (2, 48000, 256));
    assert!(setup.support_f32 && setup.support_2ch);
    let setup = device_handler(true, true, Some(vec![i1])).unwrap();
    assert_eq!(setup.channels, 1);
    assert!(!setup.support_f32 && !setup.support_2ch);
    assert!(matches!(
        device_handler(false, true, Some(vec![f2])),
        Err(DeviceHandlerError::DeviceUnavailable)
    ));
    for r in [
        device_handler(true, false, Some(vec![f2])),
        device_handler(true, true, None),
        device_handler(true, true, Some(vec![])),
    ] {
        assert!(matches!(r, Err(DeviceHandlerError::DeviceUnsupported)));
    }
}

fn failure(kind: ErrorKind) -> AudioError {
    AudioError { kind, message: "m".into() }
}

#[test]
fn stream_goes_from_step_to_step() {
    assert!(matches!(before_build(true), StreamStep::Exit(Ok(()))));
    assert!(matches!(before_build(false), StreamStep::Build));
    assert!(matches!(after_build(Ok(())), StreamStep::Start));
    assert!(matches!(
        after_build(Err(failure(ErrorKind::DeviceBusy))),
        StreamStep::RetryLater
    ));
    for kind in [ErrorKind::DeviceNotAvailable, ErrorKind::PermissionDenied] {
        assert!(matches!(
            after_build(Err(failure(kind))),
            StreamStep::Exit(Err(StreamHandlerError::DeviceDisconnected { .. }))
        ));
    }
    assert!(matches!(
        after_build(Err(failure(ErrorKind::UnsupportedConfig))),
        StreamStep::Exit(Err(StreamHandlerError::FormatUnsupported { .. }))
    ));
    for kind in [ErrorKind::Other, ErrorKind::BackendError, ErrorKind::Unlisted] {
        assert!(matches!(
            after_build(Err(failure(kind))),
            StreamStep::Exit(Err(StreamHandlerError::OtherDeviceError { source })) if source.kind == kind
        ));
    }
    assert!(matches!(after_start(Ok(())), StreamStep::Report));
    assert!(matches!(
        after_start(Err(failure(ErrorKind::Other))),
        StreamStep::Exit(Err(StreamHandlerError::OtherDeviceError { .. }))
    ));
    assert!(matches!(after_control(Ok(())), StreamStep::Wait));
    assert!(matches!(
        after_control(Err(failure(ErrorKind::Other))),
        StreamStep::Exit(Err(StreamHandlerError::OtherDeviceError { .. }))
    ));
}

#[test]
fn stream_events() {
    let step = |e| after_event(stream_handle_event(e));
    assert!(matches!(
        step(StreamEvent::Failure(failure(ErrorKind::StreamInvalidated))),
        StreamStep::Exit(Err(StreamHandlerError::DeviceDisconnected { source })) if source.message == "m"
    ));
    assert!(matches!(step(StreamEvent::Mixer(MixerEvent::RequestStandby)), StreamStep::Pause));
    assert!(matches!(step(StreamEvent::Mixer(MixerEvent::RequestResume)), StreamStep::Play));
    assert!(matches!(step(StreamEvent::Unreadable), StreamStep::Wait));
    assert!(matches!(step(StreamEvent::Timeout { cancelled: false }), StreamStep::Wait));
    assert!(matches!(step(StreamEvent::Timeout { cancelled: true }), StreamStep::Exit(Ok(()))));
    assert!(matches!(stream_handle_event(StreamEvent::Disconnected), StreamAction::Exit));
}

#[test]
fn errors_that_restart_a_device() {
    for kind in [
        ErrorKind::DeviceBusy,
        ErrorKind::DeviceNotAvailable,
        ErrorKind::HostUnavailable,
        ErrorKind::PermissionDenied,
        ErrorKind::ResourceExhausted,
        ErrorKind::StreamInvalidated,
        ErrorKind::BackendError,
        ErrorKind::Other,
    ] {
        assert!(stream_error_callback(kind));
    }
    assert!(!stream_error_callback(ErrorKind::UnsupportedConfig));
    assert!(!stream_error_callback(ErrorKind::Unlisted));
}

fn seen(id: &str, name: &str) -> SeenDevice {
    SeenDevice {
        id: Some(id.into()),
        description: Some(DeviceDescription { name: name.into(), address: None }),
    }
}

fn action_of<'a>(plan: &'a [(String, HostAction)], id: &str) -> &'a HostAction {
    &plan.iter().find(|e| e.0 == id).unwrap().1
}

#[test]
fn plan_of_a_look_at_the_devices() {
    let known = vec![("old".to_string(), true), ("gone".to_string(), false)];
    let snapshot = vec![
        seen("new", "n"),
        SeenDevice { id: None, description: None },
        seen("old", "first"),
        seen("twice", "1"),
        seen("old", "second"),
        seen("twice", "2"),
    ];
    let (plan, after) = host_plan(known, snapshot);
    assert_eq!(plan.len(), 4);
    assert!(matches!(action_of(&plan, "new"), HostAction::OnDeviceAdd(Some(d)) if d.name == "n"));
    assert!(matches!(
        action_of(&plan, "old"),
        HostAction::OnDeviceOnline(true, Some(d)) if d.name == "second"
    ));
    assert!(matches!(
        action_of(&plan, "twice"),
        HostAction::OnDeviceOnline(false, Some(d)) if d.name == "2"
    ));
    assert!(matches!(action_of(&plan, "gone"), HostAction::OnDeviceDel));
    let mut after = after;
    after.sort();
    assert_eq!(
        after,
        vec![("new".to_string(), false), ("old".to_string(), true), ("twice".to_string(), false)]
    );
}

fn new_host() -> HostState {
    HostState {
        tm: TaskManager::new(),
        mixers: Mixers::new(),
        handles: IdMap::new(),
        known: IdMap::new(),
    }
}

#[test]
fn device_comes_fails_and_goes() {
    let mut host = new_host();
    let effects = host_cycle(&mut host, vec![seen("a", "A")]);
    let start = match &effects[..] {
        [(id, ActionEffect::Started(start))] if id == "a" => *start,
        _ => panic!("unexpected effects: {:?}", effects),
    };
    assert!(start.started && start.mixer.created && start.replaced.is_none());
    host.tm.register(start.handler, TaskKind::Blocking);
    assert_eq!(host.handles.get(&"a".to_string()), Some(start.handler));

    let effects = host_cycle(&mut host, vec![seen("a", "A")]);
    assert_eq!(effects, vec![("a".to_string(), ActionEffect::Left)]);

    let lost = DeviceHandlerError::Stream {
        source: StreamHandlerError::DeviceDisconnected {
            source: failure(ErrorKind::DeviceNotAvailable),
        },
    };
    host.tm.finish(start.handler, TaskOutcome::Failed(lost.into_value()));
    let effects = host_cycle(&mut host, vec![seen("a", "A")]);
    let again = match &effects[..] {
        [(id, ActionEffect::Started(start))] if id == "a" => *start,
        _ => panic!("unexpected effects: {:?}", effects),
    };
    assert!(!again.mixer.created);
    assert_eq!(again.mixer.worker, start.mixer.worker);
    assert_eq!(again.replaced, Some((start.handler, CancelPlan::Ignored)));

    host.tm.register(again.handler, TaskKind::Blocking);
    let effects = host_cycle(&mut host, vec![]);
    assert_eq!(
        effects,
        vec![(
            "a".to_string(),
            ActionEffect::Stopped(Some((
                again.handler,
                CancelPlan::SeeThrough(TaskKind::Blocking)
            )))
        )]
    );
    assert!(host.tm.get_status(again.handler).unwrap().is_cancelling());
    assert!(host.handles.get(&"a".to_string()).is_none());
    assert!(host.mixers.handle("a").is_none());
    assert!(host.known.get(&"a".to_string()).is_none());
}

#[test]
fn device_that_cannot_be_served_is_remembered() {
    let mut host = new_host();
    let effects = host_cycle(&mut host, vec![seen("a", "A"), seen("b", "B")]);
    assert_eq!(effects.len(), 2);
    let task = host.handles.get(&"a".to_string()).unwrap();
    let unsupported = DeviceHandlerError::DeviceUnsupported;
    host.tm.finish(task, TaskOutcome::Failed(unsupported.into_value()));
    let effects = host_cycle(&mut host, vec![seen("a", "A"), seen("b", "B")]);
    assert!(effects.contains(&("a".to_string(), ActionEffect::Blacklisted)));
    assert!(effects.contains(&("b".to_string(), ActionEffect::Left)));
    assert_eq!(host.known.get(&"a".to_string()), Some(true));
    assert_eq!(host.known.get(&"b".to_string()), Some(false));
    let plan = look(&mut host, vec![seen("a", "A")]);
    assert!(matches!(action_of(&plan, "a"), HostAction::OnDeviceOnline(true, _)));
    assert!(matches!(action_of(&plan, "b"), HostAction::OnDeviceDel));
}

const SECOND: u128 = 1_000_000_000;

#[test]
fn vanished_device_is_dropped_after_its_grace() {
    let mut d = DeviceStates::new();
    d.add(info("a"), 0);
    d.add(info("b"), 0);
    let stopped = ActionEffect::Stopped(None);
    let ev = record(&mut d, "a", &stopped, 5 * SECOND);
    assert!(matches!(ev, Some(DeviceEvent::Disconnected { id }) if id == "a"));
    assert!(record(&mut d, "a", &stopped, 6 * SECOND).is_none());
    assert!(d.reclaim(15 * SECOND - 1).is_empty());
    assert_eq!(d.get("a").unwrap().state, DeviceState::Disconnected);
    let events = d.reclaim(15 * SECOND);
    assert!(matches!(&events[..], [DeviceEvent::Gone { id }] if id == "a"));
    assert!(d.get("a").is_none());
    assert!(d.get("b").is_some());

    record(&mut d, "b", &stopped, 20 * SECOND);
    assert!(d.add(info("b"), 21 * SECOND).is_none());
    assert!(d.reclaim(100 * SECOND).is_empty());
    assert_eq!(d.get("b").unwrap().state, DeviceState::Initializing);
}

#[test]
fn device_that_cannot_be_served_is_gone() {
    let mut d = DeviceStates::new();
    d.add(info("a"), 0);
    let ev = record(&mut d, "a", &ActionEffect::Blacklisted, 1);
    assert!(matches!(ev, Some(DeviceEvent::Gone { id }) if id == "a"));
    assert_eq!(d.get("a").unwrap().state, DeviceState::Gone);
    assert!(record(&mut d, "a", &ActionEffect::Blacklisted, 2).is_none());
    assert!(record(&mut d, "a", &ActionEffect::Left, 3).is_none());
    assert!(record(&mut d, "x", &ActionEffect::Blacklisted, 4).is_none());
    assert!(d.reclaim(100 * SECOND).is_empty());
    assert_eq!(d.get("a").unwrap().state, DeviceState::Gone);
}

#[test]
fn stream_of_a_vanished_device_is_not_announced() {
    let (mut am, _tm) = manager_with(&["a"]);
    let worker = am.mixers.handle("a").unwrap();
    assert!(am.stream_is_up("a", TaskId(worker.0 + 100), 1).is_none());
    let ev = am.stream_is_up("a", worker, 1);
    assert!(matches!(ev, Some(DeviceEvent::Ready { id }) if id == "a"));
    assert!(am.stream_is_up("a", worker, 2).is_none());
    am.mixers.remove("a");
    record(&mut am.states, "a", &ActionEffect::Stopped(None), 3);
    assert!(am.stream_is_up("a", worker, 4).is_none());
    assert_eq!(am.states.get("a").unwrap().state, DeviceState::Disconnected);
}

#[test]
fn stream_goes_on_by_what_it_learns() {
    let looked = StreamInput::Looked { cancelled: false };
    assert!(matches!(stream_next(StreamStep::RetryLater, looked), Some(StreamStep::Build)));
    let tried = |step| stream_next(step, StreamInput::Tried(Ok(())));
    assert!(matches!(tried(StreamStep::Build), Some(StreamStep::Start)));
    assert!(matches!(tried(StreamStep::Start), Some(StreamStep::Report)));
    assert!(matches!(tried(StreamStep::Play), Some(StreamStep::Wait)));
    assert!(matches!(tried(StreamStep::Pause), Some(StreamStep::Wait)));
    assert!(tried(StreamStep::Wait).is_none());
    assert!(tried(StreamStep::RetryLater).is_none());
    assert!(tried(StreamStep::Exit(Ok(()))).is_none());
    let came = |step, event| stream_next(step, StreamInput::Came(event));
    assert!(matches!(
        came(StreamStep::Report, StreamEvent::Mixer(MixerEvent::RequestStandby)),
        Some(StreamStep::Pause)
    ));
    assert!(matches!(
        came(StreamStep::Wait, StreamEvent::Timeout { cancelled: true }),
        Some(StreamStep::Exit(Ok(())))
    ));
    assert!(came(StreamStep::Build, StreamEvent::Disconnected).is_none());
}

#[test]
fn removal_of_an_unknown_device_does_nothing() {
    let mut host = new_host();
    assert!(on_device_del(&mut host, &"x".to_string()).is_none());
    let e = run_action(&mut host, "x".to_string(), HostAction::OnDeviceDel);
    assert_eq!(e, ActionEffect::Stopped(None));
}

#[test]
fn id_map_keeps_one_entry_per_id() {
    let mut m: IdMap<u8> = IdMap::new();
    assert_eq!(m.insert("a".into(), 1), None);
    assert_eq!(m.insert("b".into(), 2), None);
    assert_eq!(m.insert("a".into(), 3), Some(1));
    assert_eq!(m.get(&"a".to_string()), Some(3));
    assert_eq!(m.remove(&"a".to_string()), Some(3));
    assert_eq!(m.remove(&"a".to_string()), None);
    assert_eq!(m.get(&"b".to_string()), Some(2));
}

#[test]
fn verdict_on_a_device_by_its_task() {
    type S = TypedTaskState<(), (), DeviceHandlerError>;
    let stream = |source| S::Failed(Arc::new(DeviceHandlerError::Stream { source }));
    let e = || failure(ErrorKind::Other);
    let failed = |e| S::Failed(Arc::new(e));
    assert_eq!(get_device_status(&failed(DeviceHandlerError::DeviceUnavailable)), Some(false));
    assert_eq!(get_device_status(&failed(DeviceHandlerError::DeviceUnsupported)), Some(true));
    assert_eq!(
        get_device_status(&stream(StreamHandlerError::DeviceDisconnected { source: e() })),
        Some(false)
    );
    assert_eq!(
        get_device_status(&stream(StreamHandlerError::FormatUnsupported { source: e() })),
        Some(true)
    );
    assert_eq!(
        get_device_status(&stream(StreamHandlerError::OtherDeviceError { source: e() })),
        Some(true)
    );
    for s in [
        S::Pending,
        S::Running(Arc::new(())),
        S::Completed(Arc::new(())),
        S::Cancelling,
        S::Cancelled,
        S::Panicked(Arc::new("p".into())),
        S::Invalid,
    ] {
        assert_eq!(get_device_status(&s), None);
    }
}

#[test]
fn host_goes_on_until_cancelled() {
    assert_eq!(after_look(true, false), HostNext::LookAgain);
    assert_eq!(after_look(true, true), HostNext::Stop);
    assert_eq!(after_look(false, false), HostNext::Stop);
}
