use certus::actor::{
    idle_step, send_outcome, ActorError, ActorHandler, ActorLifecycle, ActorLoop, LoopAction, LoopPhase, PARK_THRESHOLD,
};
use certus::channel::{Channel, ChannelError, ChannelKind};

#[test]
fn actor_error_display() {
    assert_eq!(ActorError::AlreadyActive.to_string(), "actor is already active");
    assert_eq!(ActorError::NotActive.to_string(), "actor is not active");
    assert_eq!(ActorError::SendFailed("test".into()).to_string(), "send failed: test");
    assert_eq!(ActorError::ShutdownTimeout.to_string(), "actor shutdown timed out");
    assert_eq!(ActorError::AffinityFailed("EPERM".into()).to_string(), "affinity failed: EPERM");
}

#[test]
fn new_creates_idle_actor() {
    let actor = ActorLifecycle::new();
    assert!(!actor.is_active());
}

#[test]
fn activate_returns_handle_and_sets_active() {
    let mut actor = ActorLifecycle::new();
    actor.activate().unwrap();
    assert!(actor.is_active());
    actor.deactivate();
}

#[test]
fn deactivate_joins_thread_and_sets_idle() {
    let mut actor = ActorLifecycle::new();
    actor.activate().unwrap();
    actor.deactivate();
    assert!(!actor.is_active());
}

#[test]
fn double_activate_returns_already_active() {
    let mut actor = ActorLifecycle::new();
    actor.activate().unwrap();
    let result = actor.activate();
    assert!(result.unwrap_err().is_already_active());
    actor.deactivate();
}

#[test]
fn cpu_affinity_default_is_none() {
    let actor = ActorLifecycle::new();
    assert!(actor.cpu_affinity().is_none());
}

#[test]
fn set_cpu_affinity_while_idle() {
    let mut actor = ActorLifecycle::new();
    actor.set_cpu_affinity(vec![0]).unwrap();
    assert!(actor.cpu_affinity().is_some());
}

#[test]
fn set_cpu_affinity_rejected_while_active() {
    let mut actor = ActorLifecycle::new();
    actor.activate().unwrap();
    let err = actor.set_cpu_affinity(vec![0]).unwrap_err();
    assert!(err.is_already_active());
    actor.deactivate();
}

#[test]
fn with_cpu_affinity_builder() {
    let actor = ActorLifecycle::new().with_cpu_affinity(vec![0]);
    assert!(actor.cpu_affinity().is_some());
}

#[test]
fn failed_startup_leaves_actor_idle() {
    let mut actor = ActorLifecycle::new();
    actor.activate().unwrap();
    let r = actor.startup(Err(ActorError::AffinityFailed("thread exited before startup".into())));
    assert!(r.is_err());
    assert!(!actor.is_active());
}

struct Recorder {
    log: Vec<u32>,
    started: bool,
    stopped: bool,
}

impl ActorHandler<u32> for Recorder {
    fn handle(&mut self, msg: u32) {
        self.log.push(msg);
    }

    fn on_start(&mut self) {
        self.started = true;
    }

    fn on_stop(&mut self) {
        self.stopped = true;
    }
}

#[test]
fn send_messages_processed_sequentially() {
    let mut inbox: Channel<u32> = Channel::new(ChannelKind::Mpsc, 128);
    inbox.bind_sender().unwrap();
    inbox.bind_receiver().unwrap();
    for i in 0..100 {
        inbox.try_send(i).unwrap();
    }
    inbox.close();
    let mut lp = ActorLoop::new(Recorder { log: Vec::new(), started: false, stopped: false });
    lp.start();
    loop {
        let action = lp.turn(inbox.try_recv());
        if action == LoopAction::Stop {
            break;
        }
    }
    lp.stop();
    let h = lp.into_handler();
    let expected: Vec<u32> = (0..100).collect();
    assert_eq!(h.log, expected);
    assert!(h.started && h.stopped);
}

#[test]
fn on_start_and_on_stop_called() {
    let mut lp = ActorLoop::new(Recorder { log: Vec::new(), started: false, stopped: false });
    lp.start();
    assert!(lp.handler().started);
    lp.stop();
    assert!(lp.handler().stopped);
}

#[test]
fn idle_turns_park_at_threshold() {
    assert_eq!(idle_step(0, false), (1, false));
    assert_eq!(idle_step(5, true), (0, false));
    assert_eq!(idle_step(PARK_THRESHOLD - 2, false), (PARK_THRESHOLD - 1, false));
    assert_eq!(idle_step(PARK_THRESHOLD - 1, false), (0, true));
}

#[test]
fn empty_inbox_runs_idle_turn() {
    let mut lp = ActorLoop::new(Recorder { log: Vec::new(), started: false, stopped: false });
    lp.start();
    let a = lp.turn(Err(ChannelError::Empty));
    assert_eq!(a, LoopAction::Continue);
    assert_eq!(lp.idle_count(), 1);
    let a = lp.turn(Ok(7));
    assert_eq!(a, LoopAction::Continue);
    assert_eq!(lp.idle_count(), 0);
    assert_eq!(lp.turn(Err(ChannelError::Closed)), LoopAction::Stop);
}

#[test]
fn send_outcomes() {
    assert_eq!(send_outcome(None).unwrap_err().to_string(), "send failed: channel closed");
    assert!(send_outcome(Some(Ok(()))).is_ok());
    assert_eq!(send_outcome(Some(Err(ChannelError::Full))).unwrap_err().to_string(), "send failed: channel is full");
}

#[test]
fn loop_phases_run_hooks_once_in_order() {
    let mut lp = ActorLoop::new(Recorder { log: Vec::new(), started: false, stopped: false });
    assert_eq!(lp.phase(), LoopPhase::Ready);
    lp.start();
    assert_eq!(lp.phase(), LoopPhase::Running);
    assert!(lp.handler().started && !lp.handler().stopped);
    let _ = lp.turn(Ok(1));
    lp.stop();
    assert_eq!(lp.phase(), LoopPhase::Stopped);
    assert!(lp.handler().stopped);
}
