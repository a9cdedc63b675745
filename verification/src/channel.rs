use vstd::prelude::*;

use std::collections::VecDeque;

verus! {

/// Error of a channel operation.
#[derive(Debug, Clone)]
pub enum ChannelError {
    /// The queue is full (for `try_send`).
    Full,
    /// The queue is empty (for `try_recv`).
    Empty,
    /// All senders are gone, or the channel was closed; no more messages
    /// will arrive.
    Closed,
    /// A topology constraint was violated when binding an endpoint.
    BindingRejected { reason: String },
}

/// The abstract value of a channel error: the variant, with the reason's
/// text for a rejected binding.
pub enum ChannelErrorView {
    Full,
    Empty,
    Closed,
    BindingRejected { reason: Seq<char> },
}

impl View for ChannelError {
    type V = ChannelErrorView;

    open spec fn view(&self) -> ChannelErrorView {
        match self {
            ChannelError::Full => ChannelErrorView::Full,
            ChannelError::Empty => ChannelErrorView::Empty,
            ChannelError::Closed => ChannelErrorView::Closed,
            ChannelError::BindingRejected { reason } => ChannelErrorView::BindingRejected { reason: reason@ },
        }
    }
}

/// The display text of a channel error.
pub open spec fn channel_error_text(e: ChannelErrorView) -> Seq<char> {
    match e {
        ChannelErrorView::Full => "channel is full"@,
        ChannelErrorView::Empty => "channel is empty"@,
        ChannelErrorView::Closed => "channel is closed"@,
        ChannelErrorView::BindingRejected { reason } => "binding rejected: "@ + reason,
    }
}

impl ChannelError {
    /// The error's display text.
    pub fn to_string(&self) -> (r: String)
        ensures
            r@ == channel_error_text(self@),
    {
        match self {
            ChannelError::Full => String::from_str("channel is full"),
            ChannelError::Empty => String::from_str("channel is empty"),
            ChannelError::Closed => String::from_str("channel is closed"),
            ChannelError::BindingRejected { reason } => {
                let mut s = String::from_str("binding rejected: ");
                s.append(reason.as_str());
                s
            },
        }
    }

    /// Whether two errors are the same variant with the same reason.
    pub fn same(&self, other: &ChannelError) -> (r: bool)
        ensures
            r <==> self@ == other@,
    {
        match self {
            ChannelError::Full => {
                let r = other.is_full();
                proof {
                    assert(self@ == ChannelErrorView::Full);
                }
                r
            },
            ChannelError::Empty => match other {
                ChannelError::Empty => true,
                _ => false,
            },
            ChannelError::Closed => match other {
                ChannelError::Closed => true,
                _ => false,
            },
            ChannelError::BindingRejected { reason: a } => match other {
                ChannelError::BindingRejected { reason: b } => {
                    let r = a.eq(b);
                    proof {
                        if r {
                            assert(a@ =~= b@);
                        }
                    }
                    r
                },
                _ => false,
            },
        }
    }

    /// Whether this is `Full`.
    pub fn is_full(&self) -> (r: bool)
        ensures
            r <==> self@ == ChannelErrorView::Full,
    {
        match self {
            ChannelError::Full => true,
            _ => false,
        }
    }
}

/// Producer side of a channel, as components see it.
pub trait ISender<T> {
    /// Sends a message, waiting while the queue is full.
    fn send(&self, value: T) -> Result<(), ChannelError>;

    /// Sends a message without waiting.
    fn try_send(&self, value: T) -> Result<(), ChannelError>;
}

/// Consumer side of a channel, as components see it.
pub trait IReceiver<T> {
    /// Receives a message, waiting while the queue is empty.
    fn recv(&self) -> Result<T, ChannelError>;

    /// Receives a message without waiting.
    fn try_recv(&self) -> Result<T, ChannelError>;
}

/// The binding discipline of a channel.
#[derive(Debug, Clone, Copy, PartialEq, Eq, Structural)]
pub enum ChannelKind {
    /// One sender and one receiver.
    Spsc,
    /// Any number of senders and one receiver.
    Mpsc,
}

/// A bounded first-in first-out channel with its endpoint bookkeeping: the
/// messages queued, how many senders are attached, whether the sender count
/// ever dropped back to zero, whether the channel was closed by force, and
/// which single-use endpoints are bound.
pub struct Channel<T> {
    kind: ChannelKind,
    queue: VecDeque<T>,
    capacity: usize,
    senders: usize,
    sender_alive: bool,
    force_closed: bool,
    sender_bound: bool,
    receiver_bound: bool,
    receiver_gone: bool,
}

/// The abstract state of a channel.
#[verifier::ext_equal]
pub struct ChannelModel<T> {
    pub kind: ChannelKind,
    pub queue: Seq<T>,
    pub capacity: nat,
    pub senders: nat,
    pub sender_alive: bool,
    pub force_closed: bool,
    pub sender_bound: bool,
    pub receiver_bound: bool,
    /// A receiver was attached and has been released, and none since.
    pub receiver_gone: bool,
}

/// Whether `n` is a power of two.
pub open spec fn is_pow2(n: nat) -> bool
    decreases n,
{
    if n == 1 {
        true
    } else if n < 1 || n % 2 == 1 {
        false
    } else {
        is_pow2(n / 2)
    }
}

/// Whether no more messages can arrive: every sender left after one was
/// attached, or the channel was closed.
pub open spec fn is_closed<T>(m: ChannelModel<T>) -> bool {
    (!m.sender_alive && m.senders == 0) || m.force_closed
}

impl<T> Channel<T> {
    /// The abstract state.
    pub closed spec fn model(&self) -> ChannelModel<T> {
        ChannelModel {
            kind: self.kind,
            queue: self.queue@,
            capacity: self.capacity as nat,
            senders: self.senders as nat,
            sender_alive: self.sender_alive,
            force_closed: self.force_closed,
            sender_bound: self.sender_bound,
            receiver_bound: self.receiver_bound,
            receiver_gone: self.receiver_gone,
        }
    }

    /// Well-formedness: the queue holds at most `capacity` messages, and
    /// a single-producer channel counts at most one sender, which is bound
    /// exactly when it is counted; a multi-producer channel never marks a
    /// sender as bound.
    pub open spec fn wf(&self) -> bool {
        &&& self.model().queue.len() <= self.model().capacity
        &&& self.model().kind == ChannelKind::Spsc ==> self.model().senders <= 1
            && (self.model().sender_bound <==> self.model().senders == 1)
        &&& self.model().kind == ChannelKind::Mpsc ==> !self.model().sender_bound
    }

    /// An empty channel of the given kind holding up to `capacity`
    /// messages, a power of two, with no endpoint bound.
    pub fn new(kind: ChannelKind, capacity: usize) -> (r: Self)
        requires
            is_pow2(capacity as nat),
        ensures
            r.wf(),
            r.model() == (ChannelModel::<T> {
                kind,
                queue: Seq::empty(),
                capacity: capacity as nat,
                senders: 0,
                sender_alive: true,
                force_closed: false,
                sender_bound: false,
                receiver_bound: false,
                receiver_gone: false,
            }),
    {
        let r = Channel {
            kind,
            queue: VecDeque::new(),
            capacity,
            senders: 0,
            sender_alive: true,
            force_closed: false,
            sender_bound: false,
            receiver_bound: false,
            receiver_gone: false,
        };
        proof {
            assert(r.model() =~= ChannelModel::<T> {
                kind,
                queue: Seq::empty(),
                capacity: capacity as nat,
                senders: 0,
                sender_alive: true,
                force_closed: false,
                sender_bound: false,
                receiver_bound: false,
                receiver_gone: false,
            });
        }
        r
    }

    /// An empty channel of the given kind with the default capacity of
    /// 1024 messages.
    pub fn with_default_capacity(kind: ChannelKind) -> (r: Self)
        ensures
            r.wf(),
            r.model() == (ChannelModel::<T> {
                kind,
                queue: Seq::empty(),
                capacity: 1024,
                senders: 0,
                sender_alive: true,
                force_closed: false,
                sender_bound: false,
                receiver_bound: false,
                receiver_gone: false,
            }),
    {
        proof {
            reveal_with_fuel(is_pow2, 12);
        }
        Self::new(kind, 1024)
    }

    /// An empty channel meant for NUMA node `node`. Placement follows the
    /// thread that first touches the memory, so the node changes nothing
    /// here: the channel is the one `new` makes.
    pub fn new_numa(kind: ChannelKind, capacity: usize, node: usize) -> (r: Self)
        requires
            is_pow2(capacity as nat),
        ensures
            r.wf(),
            r.model() == (ChannelModel::<T> {
                kind,
                queue: Seq::empty(),
                capacity: capacity as nat,
                senders: 0,
                sender_alive: true,
                force_closed: false,
                sender_bound: false,
                receiver_bound: false,
                receiver_gone: false,
            }),
    {
        Self::new(kind, capacity)
    }

    /// Number of queued messages.
    pub fn len(&self) -> (r: usize)
        ensures
            r == self.model().queue.len(),
    {
        self.queue.len()
    }

    /// The most messages the queue holds.
    pub fn capacity(&self) -> (r: usize)
        ensures
            r == self.model().capacity,
    {
        self.capacity
    }

    /// Number of attached senders.
    pub fn sender_count(&self) -> (r: usize)
        ensures
            r == self.model().senders,
    {
        self.senders
    }

    /// Attaches a sender. A single-producer channel accepts one sender at a
    /// time and rejects another while it is bound; a multi-producer channel
    /// accepts any number.
    pub fn bind_sender(&mut self) -> (r: Result<(), ChannelError>)
        requires
            old(self).wf(),
            old(self).model().kind == ChannelKind::Mpsc ==> old(self).model().senders < usize::MAX,
        ensures
            final(self).wf(),
            if old(self).model().kind == ChannelKind::Spsc && old(self).model().sender_bound {
                &&& final(self).model() == old(self).model()
                &&& r matches Err(e) && e@ == (ChannelErrorView::BindingRejected {
                    reason: "SPSC channel already has a sender"@,
                })
            } else {
                &&& r is Ok
                &&& final(self).model() == (ChannelModel {
                    senders: old(self).model().senders + 1,
                    sender_bound: old(self).model().kind == ChannelKind::Spsc || old(self).model().sender_bound,
                    ..old(self).model()
                })
            },
    {
        if self.kind == ChannelKind::Spsc && self.sender_bound {
            proof {
                reveal_strlit("SPSC channel already has a sender");
            }
            return Err(ChannelError::BindingRejected { reason: String::from_str("SPSC channel already has a sender") });
        }
        let ghost old_m = self.model();
        if self.kind == ChannelKind::Spsc {
            self.sender_bound = true;
        }
        self.senders = self.senders + 1;
        proof {
            assert(self.model() =~= ChannelModel {
                senders: old_m.senders + 1,
                sender_bound: old_m.kind == ChannelKind::Spsc || old_m.sender_bound,
                ..old_m
            });
        }
        Ok(())
    }

    /// Attaches the receiver; a second receiver is rejected while one is
    /// bound.
    pub fn bind_receiver(&mut self) -> (r: Result<(), ChannelError>)
        requires
            old(self).wf(),
        ensures
            final(self).wf(),
            if old(self).model().receiver_bound {
                &&& final(self).model() == old(self).model()
                &&& r matches Err(e) && e@ == (ChannelErrorView::BindingRejected {
                    reason: if old(self).model().kind == ChannelKind::Spsc {
                        "SPSC channel already has a receiver"@
                    } else {
                        "MPSC channel already has a receiver"@
                    },
                })
            } else {
                &&& r is Ok
                &&& final(self).model() == (ChannelModel {
                    receiver_bound: true,
                    receiver_gone: false,
                    ..old(self).model()
                })
            },
    {
        if self.receiver_bound {
            proof {
                reveal_strlit("SPSC channel already has a receiver");
                reveal_strlit("MPSC channel already has a receiver");
            }
            let reason = match self.kind {
                ChannelKind::Spsc => String::from_str("SPSC channel already has a receiver"),
                ChannelKind::Mpsc => String::from_str("MPSC channel already has a receiver"),
            };
            return Err(ChannelError::BindingRejected { reason });
        }
        let ghost old_m = self.model();
        self.receiver_bound = true;
        self.receiver_gone = false;
        proof {
            assert(self.model() =~= ChannelModel { receiver_bound: true, receiver_gone: false, ..old_m });
        }
        Ok(())
    }

    /// Detaches a sender. When the last sender leaves, the channel no
    /// longer has a live sender; a single-producer channel frees its sender
    /// slot.
    pub fn release_sender(&mut self)
        requires
            old(self).wf(),
            old(self).model().senders > 0,
        ensures
            final(self).wf(),
            final(self).model() == (ChannelModel {
                senders: (old(self).model().senders - 1) as nat,
                sender_alive: old(self).model().sender_alive && old(self).model().senders != 1,
                sender_bound: old(self).model().kind == ChannelKind::Mpsc && old(self).model().sender_bound,
                ..old(self).model()
            }),
    {
        let ghost old_m = self.model();
        if self.senders == 1 {
            self.sender_alive = false;
        }
        self.senders = self.senders - 1;
        if self.kind == ChannelKind::Spsc {
            self.sender_bound = false;
        }
        proof {
            assert(self.model() =~= ChannelModel {
                senders: (old_m.senders - 1) as nat,
                sender_alive: old_m.sender_alive && old_m.senders != 1,
                sender_bound: old_m.kind == ChannelKind::Mpsc && old_m.sender_bound,
                ..old_m
            });
        }
    }

    /// Detaches the receiver, freeing its slot; until another receiver is
    /// attached, sends are refused.
    pub fn release_receiver(&mut self)
        requires
            old(self).wf(),
        ensures
            final(self).wf(),
            final(self).model() == (ChannelModel { receiver_bound: false, receiver_gone: true, ..old(self).model() }),
    {
        let ghost old_m = self.model();
        self.receiver_bound = false;
        self.receiver_gone = true;
        proof {
            assert(self.model() =~= ChannelModel { receiver_bound: false, receiver_gone: true, ..old_m });
        }
    }

    /// Whether the receiver has been released and no other attached since,
    /// so that sends are refused.
    pub fn receiver_gone(&self) -> (r: bool)
        ensures
            r == self.model().receiver_gone,
    {
        self.receiver_gone
    }

    /// Closes the channel by force: once the queue is drained the receiver
    /// sees `Closed`, whatever senders remain.
    pub fn close(&mut self)
        requires
            old(self).wf(),
        ensures
            final(self).wf(),
            final(self).model() == (ChannelModel { force_closed: true, ..old(self).model() }),
    {
        let ghost old_m = self.model();
        self.force_closed = true;
        proof {
            assert(self.model() =~= ChannelModel { force_closed: true, ..old_m });
        }
    }

    /// Queues `value` at the back. Once the receiver is gone the value is
    /// dropped and `Closed` returned; with the queue full it is dropped and
    /// `Full` returned.
    pub fn try_send(&mut self, value: T) -> (r: Result<(), ChannelError>)
        requires
            old(self).wf(),
        ensures
            final(self).wf(),
            if old(self).model().receiver_gone {
                &&& final(self).model() == old(self).model()
                &&& r matches Err(e) && e@ == ChannelErrorView::Closed
            } else if old(self).model().queue.len() == old(self).model().capacity {
                &&& final(self).model() == old(self).model()
                &&& r matches Err(e) && e@ == ChannelErrorView::Full
            } else {
                &&& r is Ok
                &&& final(self).model() == (ChannelModel { queue: old(self).model().queue.push(value), ..old(self).model() })
            },
    {
        if self.receiver_gone {
            return Err(ChannelError::Closed);
        }
        if self.queue.len() == self.capacity {
            return Err(ChannelError::Full);
        }
        let ghost old_m = self.model();
        self.queue.push_back(value);
        proof {
            assert(self.model() =~= ChannelModel { queue: old_m.queue.push(value), ..old_m });
        }
        Ok(())
    }

    /// Takes the message at the front. With the queue empty the result is
    /// `Closed` when no more messages can arrive, else `Empty`.
    pub fn try_recv(&mut self) -> (r: Result<T, ChannelError>)
        requires
            old(self).wf(),
        ensures
            final(self).wf(),
            if old(self).model().queue.len() > 0 {
                &&& r == Ok::<T, ChannelError>(old(self).model().queue[0])
                &&& final(self).model() == (ChannelModel { queue: old(self).model().queue.drop_first(), ..old(self).model() })
            } else {
                &&& final(self).model() == old(self).model()
                &&& r matches Err(e) && e@ == if is_closed(old(self).model()) {
                    ChannelErrorView::Closed
                } else {
                    ChannelErrorView::Empty
                }
            },
    {
        let ghost old_m = self.model();
        match self.queue.pop_front() {
            Some(v) => {
                proof {
                    assert(self.model() =~= ChannelModel { queue: old_m.queue.drop_first(), ..old_m });
                }
                Ok(v)
            },
            None => {
                if (!self.sender_alive && self.senders == 0) || self.force_closed {
                    Err(ChannelError::Closed)
                } else {
                    Err(ChannelError::Empty)
                }
            },
        }
    }
}

/// A single-producer channel never has two live senders: while one is
/// attached a second is rejected, and once it is released its slot is free
/// again.
pub proof fn law_single_sender<T>(c: Channel<T>)
    requires
        c.wf(),
        c.model().kind == ChannelKind::Spsc,
    ensures
        c.model().senders <= 1,
        c.model().senders == 1 ==> c.model().sender_bound,
        c.model().senders == 0 ==> !c.model().sender_bound,
{
}

} // verus!
