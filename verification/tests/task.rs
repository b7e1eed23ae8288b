use std::sync::Arc;

use my_remote_speaker::task::manager::{
    cancel_work, panic_payload_to_string, terminal_state, CancelPlan, CancelWork, PanicPayload,
    ProgressUpdater, TaskHandle, TaskIdCounter, TaskOutcome, TypedWaitStep, WaitStep, WatchStep,
};
use my_remote_speaker::task::{
    TaskData, TaskError, TaskId, TaskKind, TaskManager, TaskState, TypedTaskState,
    TypedTaskStateRef,
};

type Status = u32;
type Ret = i32;
type Fail = String;
type Handle = TaskHandle<Status, Ret, Fail>;

fn mk_tm() -> TaskManager {
    TaskManager::new()
}

/// Starts a task and makes its worker known.
fn start(tm: &mut TaskManager, kind: TaskKind) -> Handle {
    let (h, started) = match kind {
        TaskKind::Cooperative => tm.spawn_typed::<Status, Ret, Fail>(),
        TaskKind::Blocking => tm.spawn_blocking_typed::<Status, Ret, Fail>(),
    };
    assert!(started);
    assert_eq!(tm.register(h.id, kind), CancelPlan::Ignored);
    h
}

/// The worker of a task returns and is gone.
fn run_out(tm: &mut TaskManager, h: &Handle, outcome: TaskOutcome<'_>) -> bool {
    tm.finish(h.id, outcome);
    tm.release(h.id).expire
}

fn completed(v: Ret) -> TaskOutcome<'static> {
    TaskOutcome::Completed(v.into_value())
}

/// Does what a cancellation leaves to do.
fn see_through(tm: &mut TaskManager, h: &Handle, plan: CancelPlan, exited: bool) {
    match plan {
        CancelPlan::SeeThrough(kind) => {
            for work in cancel_work(kind, exited) {
                match work {
                    CancelWork::Abort => {}
                    CancelWork::AwaitClosure | CancelWork::AwaitWorker => {
                        assert!(h.status(tm).is_cancelling());
                        tm.release(h.id);
                    }
                    CancelWork::Settle => tm.settle(h.id),
                }
            }
        }
        _ => {}
    }
}

#[test]
fn async_task_completes() {
    let mut tm = mk_tm();
    let h = start(&mut tm, TaskKind::Cooperative);
    assert!(run_out(&mut tm, &h, completed(42)));
    match h.status(&tm) {
        TypedTaskState::Completed(v) => assert_eq!(*v, 42),
        s => panic!("unexpected state: {:?}", s),
    }
}

#[test]
fn async_task_fails() {
    let mut tm = mk_tm();
    let h = start(&mut tm, TaskKind::Cooperative);
    run_out(&mut tm, &h, TaskOutcome::Failed("boom".to_string().into_value()));
    match h.status(&tm) {
        TypedTaskState::Failed(e) => assert_eq!(e.as_str(), "boom"),
        s => panic!("unexpected state: {:?}", s),
    }
}

#[test]
fn async_task_panics() {
    let mut tm = mk_tm();
    let h = start(&mut tm, TaskKind::Cooperative);
    run_out(&mut tm, &h, TaskOutcome::Panicked(PanicPayload::Literal("async panic payload")));
    match h.status(&tm) {
        TypedTaskState::Panicked(msg) => assert_eq!(msg.as_str(), "async panic payload"),
        s => panic!("unexpected state: {:?}", s),
    }
}

#[test]
fn blocking_task_completes_and_panics() {
    let mut tm = mk_tm();
    let h = start(&mut tm, TaskKind::Blocking);
    run_out(&mut tm, &h, completed(7));
    match h.status(&tm) {
        TypedTaskState::Completed(v) => assert_eq!(*v, 7),
        s => panic!("unexpected state: {:?}", s),
    }

    let hp = start(&mut tm, TaskKind::Blocking);
    let text = "blocking panic payload".to_string();
    run_out(&mut tm, &hp, TaskOutcome::Panicked(PanicPayload::Text(&text)));
    match hp.status(&tm) {
        TypedTaskState::Panicked(msg) => assert_eq!(msg.as_str(), "blocking panic payload"),
        s => panic!("unexpected state: {:?}", s),
    }
}

#[test]
fn progress_pending_to_running_and_update() {
    let mut tm = mk_tm();
    let h = start(&mut tm, TaskKind::Cooperative);
    let pc = ProgressUpdater::<Status>::new(h.id);
    assert!(h.status(&tm).is_pending());
    assert!(pc.update(&mut tm, 1));
    assert!(matches!(h.status(&tm), TypedTaskState::Running(v) if *v == 1));
    assert!(!pc.update(&mut tm, 2));
    assert!(matches!(h.status(&tm), TypedTaskState::Running(v) if *v == 2));
    run_out(&mut tm, &h, completed(0));
    assert!(h.status(&tm).is_completed());
}

#[test]
fn progress_does_not_override_cancelling() {
    let mut tm = mk_tm();
    let h = start(&mut tm, TaskKind::Cooperative);
    let pc = ProgressUpdater::<Status>::new(h.id);
    pc.update(&mut tm, 1);
    assert!(matches!(h.status(&tm), TypedTaskState::Running(v) if *v == 1));
    let plan = h.cancel(&mut tm);
    assert_eq!(plan, CancelPlan::SeeThrough(TaskKind::Cooperative));
    assert!(!pc.update(&mut tm, 2));
    assert!(h.status(&tm).is_cancelling());
    assert!(!run_out(&mut tm, &h, completed(0)));
    assert!(h.status(&tm).is_cancelling());
    see_through(&mut tm, &h, plan, true);
    assert!(h.status(&tm).is_cancelled());
    assert!(!matches!(h.status(&tm), TypedTaskState::Running(v) if *v == 2));
}

#[test]
fn cooperative_cancel_async() {
    let mut tm = mk_tm();
    let h = start(&mut tm, TaskKind::Cooperative);
    let plan = h.cancel(&mut tm);
    run_out(&mut tm, &h, completed(1));
    see_through(&mut tm, &h, plan, true);
    assert!(h.status(&tm).is_cancelled());
}

#[test]
fn cancel_aborts_unresponsive_async() {
    let mut tm = mk_tm();
    let h = start(&mut tm, TaskKind::Cooperative);
    let plan = h.cancel(&mut tm);
    assert_eq!(
        cancel_work(TaskKind::Cooperative, false),
        vec![CancelWork::Abort, CancelWork::AwaitWorker, CancelWork::Settle]
    );
    see_through(&mut tm, &h, plan, false);
    assert!(h.status(&tm).is_cancelled());
}

#[test]
fn cooperative_cancel_blocking() {
    let mut tm = mk_tm();
    let h = start(&mut tm, TaskKind::Blocking);
    let plan = h.cancel(&mut tm);
    assert_eq!(plan, CancelPlan::SeeThrough(TaskKind::Blocking));
    run_out(&mut tm, &h, completed(1));
    see_through(&mut tm, &h, plan, true);
    assert!(h.status(&tm).is_cancelled());
}

#[test]
fn spawn_after_close_immediately_cancelled() {
    let mut tm = mk_tm();
    assert!(!tm.is_closed());
    assert!(tm.close().is_empty());
    assert!(tm.is_closed());
    let (h, started) = tm.spawn_typed::<Status, Ret, Fail>();
    assert!(!started);
    assert!(h.status(&tm).is_cancelled());
}

#[test]
fn cancel_at_triggers_cancel() {
    let mut tm = mk_tm();
    let h = start(&mut tm, TaskKind::Cooperative);
    assert_eq!(h.cancel_at(&mut tm, false), WatchStep::Keep);
    let plan = match h.cancel_at(&mut tm, true) {
        WatchStep::Fired(plan) => plan,
        s => panic!("unexpected step: {:?}", s),
    };
    run_out(&mut tm, &h, completed(1));
    see_through(&mut tm, &h, plan, true);
    assert!(h.status(&tm).is_cancelled());
    assert_eq!(h.cancel_at(&mut tm, false), WatchStep::Stop);
}

#[test]
fn get_status_removes_handle_after_terminal() {
    let mut tm = mk_tm();
    let h = start(&mut tm, TaskKind::Cooperative);
    run_out(&mut tm, &h, completed(3));
    assert!(h.status(&tm).is_completed());
    assert_eq!(h.cancel(&mut tm), CancelPlan::Ignored);
    assert!(h.status(&tm).is_completed());
}

#[test]
fn wait_terminal_returns_completed_value() {
    let mut tm = mk_tm();
    let h = start(&mut tm, TaskKind::Cooperative);
    assert!(matches!(h.wait_terminal(&tm), TypedWaitStep::Wait));
    run_out(&mut tm, &h, completed(42));
    match h.wait_terminal(&tm) {
        TypedWaitStep::Ready(TypedTaskState::Completed(v)) => assert_eq!(*v, 42),
        s => panic!("expected Completed(42), got {s:?}"),
    }
}

#[test]
fn wait_terminal_returns_failed() {
    let mut tm = mk_tm();
    let h = start(&mut tm, TaskKind::Cooperative);
    run_out(&mut tm, &h, TaskOutcome::Failed("wait fail".to_string().into_value()));
    match h.wait_terminal(&tm) {
        TypedWaitStep::Ready(TypedTaskState::Failed(e)) => assert_eq!(e.as_str(), "wait fail"),
        s => panic!("expected Failed, got {s:?}"),
    }
}

#[test]
fn wait_terminal_returns_panicked() {
    let mut tm = mk_tm();
    let h = start(&mut tm, TaskKind::Cooperative);
    run_out(&mut tm, &h, TaskOutcome::Panicked(PanicPayload::Literal("wait panic payload")));
    match h.wait_terminal(&tm) {
        TypedWaitStep::Ready(TypedTaskState::Panicked(msg)) => {
            assert!(msg.contains("wait panic payload"))
        }
        s => panic!("expected Panicked, got {s:?}"),
    }
}

#[test]
fn wait_terminal_immediate_when_already_terminal() {
    let mut tm = mk_tm();
    let h = start(&mut tm, TaskKind::Cooperative);
    run_out(&mut tm, &h, completed(9));
    assert!(h.status(&tm).is_completed());
    assert!(matches!(
        h.wait_terminal(&tm),
        TypedWaitStep::Ready(TypedTaskState::Completed(v)) if *v == 9
    ));
}

#[test]
fn wait_terminal_on_blocking_task() {
    let mut tm = mk_tm();
    let h = start(&mut tm, TaskKind::Blocking);
    run_out(&mut tm, &h, completed(7));
    assert!(matches!(
        h.wait_terminal(&tm),
        TypedWaitStep::Ready(TypedTaskState::Completed(v)) if *v == 7
    ));
}

#[test]
fn cancel_then_wait_terminal_returns_cancelled() {
    let mut tm = mk_tm();
    let h = start(&mut tm, TaskKind::Cooperative);
    let plan = h.cancel(&mut tm);
    assert!(matches!(h.wait_terminal(&tm), TypedWaitStep::Wait));
    run_out(&mut tm, &h, completed(1));
    see_through(&mut tm, &h, plan, true);
    match h.wait_terminal(&tm) {
        TypedWaitStep::Ready(ts) => assert!(ts.is_cancelled()),
        TypedWaitStep::Wait => panic!("cancel should settle"),
    }
}

#[test]
fn cancel_unresponsive_blocking_wait_waits_real_exit() {
    let mut tm = mk_tm();
    let h = start(&mut tm, TaskKind::Blocking);
    let plan = h.cancel(&mut tm);
    assert!(matches!(h.wait_terminal(&tm), TypedWaitStep::Wait));
    assert_eq!(
        cancel_work(TaskKind::Blocking, false),
        vec![
            CancelWork::Abort,
            CancelWork::AwaitClosure,
            CancelWork::AwaitWorker,
            CancelWork::Settle
        ]
    );
    see_through(&mut tm, &h, plan, false);
    match h.wait_terminal(&tm) {
        TypedWaitStep::Ready(ts) => assert!(ts.is_cancelled()),
        TypedWaitStep::Wait => panic!("wait should settle after the closure exits"),
    }
}

#[test]
fn wait_for_observes_cancelling_or_cancelled() {
    let mut tm = mk_tm();
    let h = start(&mut tm, TaskKind::Cooperative);
    ProgressUpdater::<Status>::new(h.id).update(&mut tm, 1);
    assert!(matches!(h.status(&tm), TypedTaskState::Running(v) if *v == 1));
    let pred = |s: TypedTaskStateRef<'_, Status, Ret, Fail>| s.is_cancelling() || s.is_cancelled();
    assert!(matches!(h.wait_for(&tm, &pred), TypedWaitStep::Wait));
    h.cancel(&mut tm);
    match h.wait_for(&tm, &pred) {
        TypedWaitStep::Ready(ts) => assert!(ts.is_cancelling() || ts.is_cancelled()),
        TypedWaitStep::Wait => panic!("should observe the cancellation"),
    }
}

#[test]
fn wait_for_terminal_fallback_when_predicate_never_matches() {
    let mut tm = mk_tm();
    let h = start(&mut tm, TaskKind::Cooperative);
    let never = |_: TypedTaskStateRef<'_, Status, Ret, Fail>| false;
    assert!(matches!(h.wait_for(&tm, &never), TypedWaitStep::Wait));
    run_out(&mut tm, &h, completed(5));
    match h.wait_for(&tm, &never) {
        TypedWaitStep::Ready(ts) => assert!(ts.is_completed()),
        TypedWaitStep::Wait => panic!("terminal fallback should return"),
    }
}

#[test]
fn wait_multi_waiter_all_woken() {
    let mut tm = mk_tm();
    let h = start(&mut tm, TaskKind::Cooperative);
    run_out(&mut tm, &h, completed(11));
    for _ in 0..2 {
        assert!(matches!(
            h.wait_terminal(&tm),
            TypedWaitStep::Ready(TypedTaskState::Completed(v)) if *v == 11
        ));
    }
}

#[test]
fn wait_on_nonexistent_task() {
    let tm = mk_tm();
    let ghost = TaskId::from(999_999);
    assert!(matches!(tm.wait_terminal(ghost), WaitStep::Ready(None)));
    assert!(matches!(tm.wait_for(ghost, &|_: &TaskState| true), WaitStep::Ready(None)));
    let h = Handle::new(ghost);
    match h.wait_terminal(&tm) {
        TypedWaitStep::Ready(ts) => assert!(ts.is_invalid()),
        TypedWaitStep::Wait => panic!("must return immediately"),
    }
    assert!(h.status(&tm).is_invalid());
}

#[test]
fn wait_terminal_wrong_type_handle_is_invalid() {
    let mut tm = mk_tm();
    let h = start(&mut tm, TaskKind::Cooperative);
    run_out(&mut tm, &h, completed(3));
    assert!(h.status(&tm).is_completed());
    let wrong: TaskHandle<String, String, String> = TaskHandle::new(h.id);
    match wrong.wait_terminal(&tm) {
        TypedWaitStep::Ready(ts) => assert!(ts.is_invalid()),
        TypedWaitStep::Wait => panic!("wrong-typed wait should return immediately"),
    }
}

#[test]
fn typed_state_ref_conversions() {
    let owned = TypedTaskState::Completed(Arc::new(42i32));
    let r: TypedTaskStateRef<u32, i32, String> = (&owned).into();
    assert!(matches!(r, TypedTaskStateRef::Completed(v) if *v == 42));
    let back: TypedTaskState<u32, i32, String> = r.into();
    assert!(matches!(back, TypedTaskState::Completed(v) if *v == 42));
    let p: TypedTaskStateRef<u32, i32, String> =
        (&TypedTaskState::<u32, i32, String>::Pending).into();
    assert!(p.is_pending());
    let o: TypedTaskState<u32, i32, String> =
        TypedTaskStateRef::Panicked(&"x".to_string()).into();
    assert!(o.is_panicked());
    let inv_r: TypedTaskStateRef<u32, i32, String> =
        (&TypedTaskState::<u32, i32, String>::Invalid).into();
    assert!(inv_r.is_invalid());
    let inv_o: TypedTaskState<u32, i32, String> = TypedTaskStateRef::Invalid.into();
    assert!(inv_o.is_invalid());
}

#[test]
fn typed_cast_ok_and_mismatch() {
    let s = TaskState::Running(7u32.into_value());
    assert!(matches!(s.as_typed::<u32, i32, String>(), TypedTaskStateRef::Running(v) if *v == 7));
    assert!(s.as_typed::<String, i32, String>().is_invalid());
    let c = TaskState::Completed(3i32.into_value());
    assert!(matches!(c.to_typed::<u32, String, String>(), TypedTaskState::Invalid));
    assert!(c.into_result::<String, String>().is_none());
    assert!(TaskState::Pending.into_result::<i32, String>().is_none());
    assert!(matches!(c.into_result::<i32, String>(), Some(Ok(v)) if *v == 3));
    let f = TaskState::Failed("e".to_string().into_value());
    assert!(matches!(
        f.into_result::<i32, String>(),
        Some(Err(TaskError::Failed(e))) if e.as_str() == "e"
    ));
}

#[test]
fn wait_for_observes_running_on_first_update() {
    let mut tm = mk_tm();
    let h = start(&mut tm, TaskKind::Cooperative);
    let pc = ProgressUpdater::<Status>::new(h.id);
    let running = |s: TypedTaskStateRef<'_, Status, Ret, Fail>| s.is_running();
    assert!(matches!(h.wait_for(&tm, &running), TypedWaitStep::Wait));
    assert!(pc.update(&mut tm, 1));
    assert!(!pc.update(&mut tm, 2));
    match h.wait_for(&tm, &running) {
        TypedWaitStep::Ready(TypedTaskState::Running(v)) => assert!(*v == 1 || *v == 2),
        s => panic!("expected Running, got {s:?}"),
    }
}

#[test]
fn ids_count_up_from_one() {
    let mut c = TaskIdCounter::default();
    assert_eq!(c.next(), TaskId(1));
    assert_eq!(c.next(), TaskId(2));
    assert_eq!(u64::from(TaskId::from(17)), 17);
    let mut tm = mk_tm();
    let first = tm.spawn();
    let second = tm.spawn_blocking();
    assert_eq!((first.id, first.kind, first.started), (TaskId(1), TaskKind::Cooperative, true));
    assert_eq!((second.id, second.kind), (TaskId(2), TaskKind::Blocking));
}

#[test]
fn worker_that_vanishes_counts_as_panicked() {
    let mut tm = mk_tm();
    let h = start(&mut tm, TaskKind::Cooperative);
    assert!(tm.release(h.id).expire);
    match h.status(&tm) {
        TypedTaskState::Panicked(msg) => {
            assert_eq!(msg.as_str(), "Task executed with panic or aborted")
        }
        s => panic!("unexpected state: {:?}", s),
    }
    assert!(!tm.release(TaskId(99)).expire);
}

#[test]
fn panic_messages() {
    assert_eq!(panic_payload_to_string(PanicPayload::Literal("a")), "a");
    assert_eq!(panic_payload_to_string(PanicPayload::Text(&"b".to_string())), "b");
    assert_eq!(
        panic_payload_to_string(PanicPayload::Unknown),
        "Task panicked with unknown payload"
    );
    let aborted = terminal_state(TaskOutcome::Aborted).panicked_message().unwrap();
    assert_eq!(aborted.as_str(), "Task was cancelled or aborted");
}

#[test]
fn close_cancels_every_task_with_a_worker() {
    let mut tm = mk_tm();
    let a = start(&mut tm, TaskKind::Cooperative);
    let b = start(&mut tm, TaskKind::Blocking);
    let done = start(&mut tm, TaskKind::Cooperative);
    run_out(&mut tm, &done, completed(1));
    let (unregistered, _) = tm.spawn_typed::<Status, Ret, Fail>();
    let mut plans = tm.close();
    plans.sort_by_key(|p| p.0 .0);
    assert_eq!(plans, vec![(a.id, TaskKind::Cooperative), (b.id, TaskKind::Blocking)]);
    assert!(a.status(&tm).is_cancelling());
    assert!(b.status(&tm).is_cancelling());
    assert!(done.status(&tm).is_completed());
    assert!(unregistered.status(&tm).is_pending());
    assert_eq!(
        tm.register(unregistered.id, TaskKind::Cooperative),
        CancelPlan::SeeThrough(TaskKind::Cooperative)
    );
    assert!(unregistered.status(&tm).is_cancelling());
    assert!(tm.close().is_empty());
}

#[test]
fn nothing_lives_after_close() {
    let mut tm = mk_tm();
    let pending = start(&mut tm, TaskKind::Cooperative);
    let running = start(&mut tm, TaskKind::Blocking);
    ProgressUpdater::<Status>::new(running.id).update(&mut tm, 3);
    let failed = start(&mut tm, TaskKind::Cooperative);
    run_out(&mut tm, &failed, TaskOutcome::Failed("no".to_string().into_value()));
    tm.close();
    assert!(pending.status(&tm).is_cancelling());
    assert!(running.status(&tm).is_cancelling());
    assert!(failed.status(&tm).is_failed());
    ProgressUpdater::<Status>::new(running.id).update(&mut tm, 4);
    assert!(running.status(&tm).is_cancelling());
    let (late, started) = tm.spawn_typed::<Status, Ret, Fail>();
    assert!(!started);
    assert!(late.status(&tm).is_cancelled());
    assert!(tm.close().is_empty());
}

#[test]
fn condition_is_never_asked_about_an_invalid_state() {
    let mut tm = mk_tm();
    let h = start(&mut tm, TaskKind::Cooperative);
    tm.report(h.id, "another type".to_string().into_value());
    let strict = |s: TypedTaskStateRef<'_, Status, Ret, Fail>| {
        assert!(!s.is_invalid());
        false
    };
    assert!(matches!(h.wait_for(&tm, &strict), TypedWaitStep::Ready(TypedTaskState::Invalid)));
    let absent = Handle::new(TaskId(999));
    assert!(matches!(absent.wait_for(&tm, &strict), TypedWaitStep::Ready(TypedTaskState::Invalid)));
}

#[test]
fn task_cancelled_before_its_worker_is_known_is_only_marked() {
    let mut tm = mk_tm();
    let (h, _) = tm.spawn_typed::<Status, Ret, Fail>();
    assert_eq!(h.cancel(&mut tm), CancelPlan::Marked);
    assert_eq!(h.cancel(&mut tm), CancelPlan::Ignored);
    assert!(h.status(&tm).is_cancelling());
}

#[test]
fn forgotten_task_is_gone_for_good() {
    let mut tm = mk_tm();
    let h = start(&mut tm, TaskKind::Cooperative);
    run_out(&mut tm, &h, completed(1));
    tm.expire(h.id);
    assert!(tm.get_status(h.id).is_none());
    assert!(!ProgressUpdater::<Status>::new(h.id).update(&mut tm, 1));
    tm.settle(h.id);
    tm.finish(h.id, completed(2));
    assert!(tm.get_status(h.id).is_none());
    assert_eq!(h.cancel_at(&mut tm, false), WatchStep::Stop);
}

#[test]
fn cancelled_task_stays_cancelled() {
    let mut tm = mk_tm();
    let h = start(&mut tm, TaskKind::Cooperative);
    let plan = h.cancel(&mut tm);
    see_through(&mut tm, &h, plan, true);
    assert!(!ProgressUpdater::<Status>::new(h.id).update(&mut tm, 4));
    tm.finish(h.id, completed(4));
    tm.release(h.id);
    assert_eq!(h.cancel(&mut tm), CancelPlan::Ignored);
    assert!(h.status(&tm).is_cancelled());
}

#[test]
fn watch_stops_when_the_manager_closes() {
    let mut tm = mk_tm();
    let (h, _) = tm.spawn_typed::<Status, Ret, Fail>();
    assert_eq!(h.cancel_at(&mut tm, false), WatchStep::Keep);
    tm.close();
    assert_eq!(h.cancel_at(&mut tm, false), WatchStep::Stop);
}

#[test]
fn task_that_ended_before_it_was_registered_keeps_no_worker() {
    let mut tm = mk_tm();
    let (h, _) = tm.spawn_typed::<Status, Ret, Fail>();
    run_out(&mut tm, &h, completed(1));
    assert_eq!(tm.register(h.id, TaskKind::Cooperative), CancelPlan::Ignored);
    assert!(tm.close().is_empty());
}

#[test]
fn state_names() {
    assert_eq!(TaskState::Pending.debug_name(), "TaskState::Pending");
    assert_eq!(TaskState::Running(1u32.into_value()).debug_name(), "TaskState::Running");
    assert_eq!(TaskState::Cancelled.debug_name(), "TaskState::Cancelled");
}
