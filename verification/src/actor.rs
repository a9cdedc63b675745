use vstd::prelude::*;

use crate::channel::{channel_error_text, ChannelError, ChannelErrorView};

verus! {

/// Error of an actor operation.
#[derive(Debug, Clone)]
pub enum ActorError {
    /// `activate` was called on a running actor.
    AlreadyActive,
    /// `deactivate` was called on an idle actor.
    NotActive,
    /// A message could not be sent to the actor's inbox.
    SendFailed(String),
    /// The actor's thread could not be joined.
    ShutdownTimeout,
    /// Pinning the actor's thread failed.
    AffinityFailed(String),
}

/// The abstract value of an actor error.
pub enum ActorErrorView {
    AlreadyActive,
    NotActive,
    SendFailed(Seq<char>),
    ShutdownTimeout,
    AffinityFailed(Seq<char>),
}

impl View for ActorError {
    type V = ActorErrorView;

    open spec fn view(&self) -> ActorErrorView {
        match self {
            ActorError::AlreadyActive => ActorErrorView::AlreadyActive,
            ActorError::NotActive => ActorErrorView::NotActive,
            ActorError::SendFailed(m) => ActorErrorView::SendFailed(m@),
            ActorError::ShutdownTimeout => ActorErrorView::ShutdownTimeout,
            ActorError::AffinityFailed(m) => ActorErrorView::AffinityFailed(m@),
        }
    }
}

/// The display text of an actor error.
pub open spec fn actor_error_text(e: ActorErrorView) -> Seq<char> {
    match e {
        ActorErrorView::AlreadyActive => "actor is already active"@,
        ActorErrorView::NotActive => "actor is not active"@,
        ActorErrorView::SendFailed(m) => "send failed: "@ + m,
        ActorErrorView::ShutdownTimeout => "actor shutdown timed out"@,
        ActorErrorView::AffinityFailed(m) => "affinity failed: "@ + m,
    }
}

impl ActorError {
    /// The error's display text.
    pub fn to_string(&self) -> (r: String)
        ensures
            r@ == actor_error_text(self@),
    {
        match self {
            ActorError::AlreadyActive => String::from_str("actor is already active"),
            ActorError::NotActive => String::from_str("actor is not active"),
            ActorError::SendFailed(m) => {
                let mut s = String::from_str("send failed: ");
                s.append(m.as_str());
                s
            },
            ActorError::ShutdownTimeout => String::from_str("actor shutdown timed out"),
            ActorError::AffinityFailed(m) => {
                let mut s = String::from_str("affinity failed: ");
                s.append(m.as_str());
                s
            },
        }
    }

    /// Whether this is `AlreadyActive`.
    pub fn is_already_active(&self) -> (r: bool)
        ensures
            r <==> self@ == ActorErrorView::AlreadyActive,
    {
        match self {
            ActorError::AlreadyActive => true,
            _ => false,
        }
    }
}

/// The behaviour of an actor: how it handles each message, what it does
/// when it starts and stops, and the background work it does whenever its
/// inbox is empty.
pub trait ActorHandler<M>: Sized {
    /// Handles one message, on the actor's thread.
    fn handle(&mut self, msg: M);

    /// Runs once before the message loop.
    fn on_start(&mut self) {
    }

    /// Runs once after the message loop ends.
    fn on_stop(&mut self) {
    }

    /// Runs whenever the inbox is empty; returns whether useful work was
    /// done. By default it does nothing and reports no work.
    fn on_idle(&mut self) -> (r: bool)
        default_ensures
            !r,
            *final(self) == *old(self),
    {
        false
    }
}

/// Number of consecutive idle turns without work after which the actor's
/// thread parks for a while.
pub const PARK_THRESHOLD: u64 = 10_000_000;

/// The idle counter after an idle turn that did (`did_work`) or did not do
/// useful work, and whether the thread parks: work resets the counter, no
/// work raises it, and reaching the threshold parks and resets it.
pub open spec fn idle_next(count: u64, did_work: bool) -> (u64, bool) {
    let c: int = if did_work { 0 } else { count + 1 };
    if c >= PARK_THRESHOLD {
        (0u64, true)
    } else {
        (c as u64, false)
    }
}

/// Counts one idle turn (see `idle_next`).
pub fn idle_step(count: u64, did_work: bool) -> (r: (u64, bool))
    requires
        count < PARK_THRESHOLD,
    ensures
        r == idle_next(count, did_work),
        r.0 < PARK_THRESHOLD,
{
    let c: u64 = if did_work { 0 } else { count + 1 };
    if c >= PARK_THRESHOLD {
        (0, true)
    } else {
        (c, false)
    }
}

/// What the actor's thread does after a turn of its loop.
#[derive(Debug, Clone, Copy, PartialEq, Eq, Structural)]
pub enum LoopAction {
    /// Take the next turn.
    Continue,
    /// Park briefly, then take the next turn.
    Park,
    /// Leave the loop and stop.
    Stop,
}

/// The action for an idle turn's park decision.
pub open spec fn park_action(park: bool) -> LoopAction {
    if park { LoopAction::Park } else { LoopAction::Continue }
}

/// Where an actor's message loop stands: not started yet, running its
/// turns, or stopped.
#[derive(Debug, Clone, Copy, PartialEq, Eq, Structural)]
pub enum LoopPhase {
    Ready,
    Running,
    Stopped,
}

/// The thread side of an actor: its handler, the count of consecutive idle
/// turns without work, and where the loop stands. The start hook runs once
/// before any turn, the stop hook once after the last.
pub struct ActorLoop<H> {
    handler: H,
    idle_count: u64,
    phase: LoopPhase,
}

impl<H> ActorLoop<H> {
    /// The count of consecutive idle turns without work.
    pub closed spec fn idle(&self) -> u64 {
        self.idle_count
    }

    /// The handler.
    pub closed spec fn handler_spec(&self) -> H {
        self.handler
    }

    /// Where the loop stands.
    pub closed spec fn phase_spec(&self) -> LoopPhase {
        self.phase
    }

    /// A loop around `handler`, not started, with no idle turn counted.
    pub fn new(handler: H) -> (r: Self)
        ensures
            r.idle() == 0,
            r.handler_spec() == handler,
            r.phase_spec() == LoopPhase::Ready,
    {
        ActorLoop { handler, idle_count: 0, phase: LoopPhase::Ready }
    }

    /// Where the loop stands.
    pub fn phase(&self) -> (r: LoopPhase)
        ensures
            r == self.phase_spec(),
    {
        self.phase
    }

    /// The count of consecutive idle turns without work.
    pub fn idle_count(&self) -> (r: u64)
        ensures
            r == self.idle(),
    {
        self.idle_count
    }

    /// The handler.
    pub fn handler(&self) -> (r: &H)
        ensures
            *r == self.handler_spec(),
    {
        &self.handler
    }

    /// Gives the handler back.
    pub fn into_handler(self) -> (r: H)
        ensures
            r == self.handler_spec(),
    {
        self.handler
    }

    /// Runs the handler's start hook once; the handler afterwards is what
    /// the hook left of it.
    pub fn start<M>(&mut self)
        where H: ActorHandler<M>,
        requires
            old(self).phase_spec() == LoopPhase::Ready,
        ensures
            final(self).idle() == old(self).idle(),
            final(self).phase_spec() == LoopPhase::Running,
            exists|h: &mut H|
                *h == old(self).handler_spec() && *final(h) == final(self).handler_spec() && #[trigger] call_ensures(
                    H::on_start,
                    (h,),
                    (),
                ),
    {
        self.handler.on_start();
        self.phase = LoopPhase::Running;
    }

    /// Runs the handler's stop hook once; the handler afterwards is what
    /// the hook left of it.
    pub fn stop<M>(&mut self)
        where H: ActorHandler<M>,
        requires
            old(self).phase_spec() == LoopPhase::Running,
        ensures
            final(self).idle() == old(self).idle(),
            final(self).phase_spec() == LoopPhase::Stopped,
            exists|h: &mut H|
                *h == old(self).handler_spec() && *final(h) == final(self).handler_spec() && #[trigger] call_ensures(
                    H::on_stop,
                    (h,),
                    (),
                ),
    {
        self.handler.on_stop();
        self.phase = LoopPhase::Stopped;
    }

    /// One turn of the message loop, given what the inbox gave: a message
    /// resets the idle count and is handed to the handler; an empty inbox
    /// runs the idle hook once and counts the turn by what the hook
    /// reported, parking at the threshold; a closed inbox (or any other
    /// error) stops the loop and leaves the handler alone.
    pub fn turn<M>(&mut self, received: Result<M, ChannelError>) -> (a: LoopAction)
        where H: ActorHandler<M>,
        requires
            old(self).idle() < PARK_THRESHOLD,
            old(self).phase_spec() == LoopPhase::Running,
        ensures
            final(self).idle() < PARK_THRESHOLD,
            final(self).phase_spec() == LoopPhase::Running,
            match received {
                Ok(msg) => {
                    &&& a == LoopAction::Continue
                    &&& final(self).idle() == 0
                    &&& exists|h: &mut H|
                        *h == old(self).handler_spec() && *final(h) == final(self).handler_spec()
                            && #[trigger] call_ensures(H::handle, (h, msg), ())
                },
                Err(e) => if e@ == ChannelErrorView::Empty {
                    exists|h: &mut H, did_work: bool|
                        *h == old(self).handler_spec() && *final(h) == final(self).handler_spec()
                            && #[trigger] call_ensures(H::on_idle, (h,), did_work)
                            && (final(self).idle(), a == LoopAction::Park) == idle_next(old(self).idle(), did_work)
                } else {
                    &&& a == LoopAction::Stop
                    &&& final(self).idle() == old(self).idle()
                    &&& final(self).handler_spec() == old(self).handler_spec()
                },
            },
    {
        match received {
            Ok(msg) => {
                self.idle_count = 0;
                self.handler.handle(msg);
                LoopAction::Continue
            },
            Err(ChannelError::Empty) => {
                let did_work = self.handler.on_idle();
                let (c, park) = idle_step(self.idle_count, did_work);
                self.idle_count = c;
                proof {
                    assert((c, (if park { LoopAction::Park } else { LoopAction::Continue }) == LoopAction::Park)
                        == idle_next(old(self).idle(), did_work));
                }
                if park { LoopAction::Park } else { LoopAction::Continue }
            },
            Err(_) => LoopAction::Stop,
        }
    }

    /// Counts an idle turn whose idle hook failed: it counts as a turn
    /// without work.
    pub fn idle_failed(&mut self) -> (a: LoopAction)
        requires
            old(self).idle() < PARK_THRESHOLD,
            old(self).phase_spec() == LoopPhase::Running,
        ensures
            final(self).idle() < PARK_THRESHOLD,
            final(self).phase_spec() == LoopPhase::Running,
            (final(self).idle(), a == LoopAction::Park) == idle_next(old(self).idle(), false),
            a != LoopAction::Stop,
    {
        let (c, park) = idle_step(self.idle_count, false);
        self.idle_count = c;
        if park { LoopAction::Park } else { LoopAction::Continue }
    }
}

/// The control side of an actor: whether it runs, whether its handler has
/// been handed to a thread, and the processors its thread is pinned to.
pub struct ActorLifecycle {
    running: bool,
    started: bool,
    affinity: Option<Vec<usize>>,
}

/// The abstract state of an actor's control side.
pub struct LifecycleModel {
    pub running: bool,
    pub started: bool,
    pub affinity: Option<Seq<usize>>,
}

/// The view of an optional processor list.
pub open spec fn affinity_view(a: Option<Vec<usize>>) -> Option<Seq<usize>> {
    match a {
        Some(v) => Some(v@),
        None => None,
    }
}

impl ActorLifecycle {
    /// The abstract state.
    pub closed spec fn model(&self) -> LifecycleModel {
        LifecycleModel { running: self.running, started: self.started, affinity: affinity_view(self.affinity) }
    }

    /// An idle actor with no affinity.
    pub fn new() -> (r: Self)
        ensures
            r.model() == (LifecycleModel { running: false, started: false, affinity: None }),
    {
        ActorLifecycle { running: false, started: false, affinity: None }
    }

    /// Whether the actor is running.
    pub fn is_active(&self) -> (r: bool)
        ensures
            r == self.model().running,
    {
        self.running
    }

    /// The processors the thread is to be pinned to, if set.
    pub fn cpu_affinity(&self) -> (r: Option<Vec<usize>>)
        ensures
            affinity_view(r) == self.model().affinity,
    {
        match &self.affinity {
            Some(v) => Some(v.clone()),
            None => None,
        }
    }

    /// Sets the affinity (builder form).
    pub fn with_cpu_affinity(self, cpus: Vec<usize>) -> (r: Self)
        ensures
            r.model() == (LifecycleModel { affinity: Some(cpus@), ..self.model() }),
    {
        ActorLifecycle { affinity: Some(cpus), ..self }
    }

    /// Sets or changes the affinity; refused with `AlreadyActive` while the
    /// actor runs.
    pub fn set_cpu_affinity(&mut self, cpus: Vec<usize>) -> (r: Result<(), ActorError>)
        ensures
            if old(self).model().running {
                &&& r matches Err(e) && e@ == ActorErrorView::AlreadyActive
                &&& final(self).model() == old(self).model()
            } else {
                &&& r is Ok
                &&& final(self).model() == (LifecycleModel { affinity: Some(cpus@), ..old(self).model() })
            },
    {
        if self.running {
            return Err(ActorError::AlreadyActive);
        }
        self.affinity = Some(cpus);
        Ok(())
    }

    /// Moves the actor from idle to running and hands its handler to the
    /// thread about to start; a running actor refuses with `AlreadyActive`.
    /// A handler is handed over only once.
    pub fn activate(&mut self) -> (r: Result<(), ActorError>)
        requires
            old(self).model().running || !old(self).model().started,
        ensures
            if old(self).model().running {
                &&& r matches Err(e) && e@ == ActorErrorView::AlreadyActive
                &&& final(self).model() == old(self).model()
            } else {
                &&& r is Ok
                &&& final(self).model() == (LifecycleModel { running: true, started: true, ..old(self).model() })
            },
    {
        if self.running {
            return Err(ActorError::AlreadyActive);
        }
        self.running = true;
        self.started = true;
        Ok(())
    }

    /// Takes the thread's startup report: on failure the actor is idle
    /// again and the error is passed on.
    pub fn startup(&mut self, report: Result<(), ActorError>) -> (r: Result<(), ActorError>)
        ensures
            r == report,
            final(self).model() == (LifecycleModel { running: old(self).model().running && report is Ok, ..old(self).model() }),
    {
        if report.is_err() {
            self.running = false;
        }
        report
    }

    /// Marks the actor idle after its thread was joined.
    pub fn deactivate(&mut self)
        ensures
            final(self).model() == (LifecycleModel { running: false, ..old(self).model() }),
    {
        self.running = false;
    }
}

/// The result of sending to an actor: `sent` is `None` when the handle no
/// longer holds a sender, else what the channel answered.
pub fn send_outcome(sent: Option<Result<(), ChannelError>>) -> (r: Result<(), ActorError>)
    ensures
        match sent {
            None => r matches Err(e) && e@ == ActorErrorView::SendFailed("channel closed"@),
            Some(Ok(())) => r is Ok,
            Some(Err(c)) => r matches Err(e) && e@ == ActorErrorView::SendFailed(channel_error_text(c@)),
        },
{
    match sent {
        None => {
            proof {
                reveal_strlit("channel closed");
            }
            Err(ActorError::SendFailed(String::from_str("channel closed")))
        },
        Some(Ok(())) => Ok(()),
        Some(Err(c)) => Err(ActorError::SendFailed(c.to_string())),
    }
}

} // verus!
