//! One decoy port: bound once, then every connection is counted and dropped
//! unread until the socket fails.

use vstd::prelude::*;
use crate::registry::{count_in, next_count, Registry};
use crate::task::{Failure, FailureKind, Task};

verus! {

/// An IP address, as the number that its bits write.
#[derive(Clone, Copy, Debug, PartialEq, Eq, Structural)]
pub enum IpAddress {
    V4(u32),
    V6(u128),
}

/// What is known of one accepted connection. It is logged and then forgotten.
#[derive(Clone, Copy, Debug, PartialEq, Eq, Structural)]
pub struct ConnectionEvent {
    pub local_port: u16,
    pub remote_ip: IpAddress,
    pub remote_port: u16,
}

/// Where a listener stands.
#[derive(Clone, Copy, Debug, PartialEq, Eq, Structural)]
pub enum Phase {
    /// No socket yet.
    Unbound,
    /// The socket is bound and no connection has come in yet.
    Bound,
    /// The steady state: connections come in and are dropped, one after the
    /// other.
    Accepting,
    /// The socket layer reported an error. There is no way out of this phase.
    Failed,
}

/// What happened outside since the listener's last action.
#[derive(Clone, Debug, PartialEq, Eq)]
pub enum Event {
    /// The listener's task has begun to run.
    Started,
    /// The port was bound.
    BindSucceeded,
    /// The port could not be bound, for the reason given.
    BindFailed(String),
    /// A connection was accepted from this address and port.
    Connected { remote_ip: IpAddress, remote_port: u16 },
    /// Accepting a connection failed, for the reason given.
    AcceptFailed(String),
}

/// What the listener wants done next.
#[derive(Clone, Debug, PartialEq, Eq)]
pub enum Action {
    /// Bind a socket to this port on all interfaces.
    Bind(u16),
    /// Wait for the first connection.
    Accept,
    /// Log the connection, close it without reading or writing a byte, and
    /// wait for the next one.
    Discard(ConnectionEvent),
    /// End the task with this failure.
    Abort(Failure),
    /// The event does not belong to the listener's phase: nothing was changed
    /// and nothing is to be done.
    Nothing,
}

/// Whether `event` can happen to a listener in `phase`: the start and the
/// outcome of binding while it has no socket, connections and their failure
/// once it has one, and nothing after it has failed.
pub open spec fn expects(phase: Phase, event: Event) -> bool {
    match event {
        Event::Started => phase == Phase::Unbound,
        Event::BindSucceeded => phase == Phase::Unbound,
        Event::BindFailed(_) => phase == Phase::Unbound,
        Event::Connected { .. } => phase == Phase::Bound || phase == Phase::Accepting,
        Event::AcceptFailed(_) => phase == Phase::Bound || phase == Phase::Accepting,
    }
}

/// The phase after `event`.
pub open spec fn next_phase(phase: Phase, event: Event) -> Phase {
    if !expects(phase, event) {
        phase
    } else {
        match event {
            Event::Started => Phase::Unbound,
            Event::BindSucceeded => Phase::Bound,
            Event::BindFailed(_) => Phase::Failed,
            Event::Connected { .. } => Phase::Accepting,
            Event::AcceptFailed(_) => Phase::Failed,
        }
    }
}

/// The counts after `event` has reached the listener on `port`: binding makes
/// the port known, and each connection adds one to the port's count.
pub open spec fn next_counts(port: u16, phase: Phase, event: Event, counts: Map<u16, u64>) -> Map<
    u16,
    u64,
> {
    if !expects(phase, event) {
        counts
    } else {
        match event {
            Event::BindSucceeded => counts.insert(port, count_in(counts, port)),
            Event::Connected { .. } => counts.insert(port, next_count(count_in(counts, port))),
            _ => counts,
        }
    }
}

/// What the listener on `port` wants done after `event`.
pub open spec fn reaction(port: u16, phase: Phase, event: Event) -> Action {
    if !expects(phase, event) {
        Action::Nothing
    } else {
        match event {
            Event::Started => Action::Bind(port),
            Event::BindSucceeded => Action::Accept,
            Event::BindFailed(detail) => Action::Abort(
                Failure { task: Task::Listener(port), kind: FailureKind::Bind, detail },
            ),
            Event::Connected { remote_ip, remote_port } => Action::Discard(
                ConnectionEvent { local_port: port, remote_ip, remote_port },
            ),
            Event::AcceptFailed(detail) => Action::Abort(
                Failure { task: Task::Listener(port), kind: FailureKind::Accept, detail },
            ),
        }
    }
}

/// The listener of one port.
#[derive(Debug)]
pub struct Listener {
    port: u16,
    phase: Phase,
}

impl Listener {
    /// The port that the listener is for.
    pub closed spec fn local_port(&self) -> u16 {
        self.port
    }

    /// The phase in which the listener is.
    pub closed spec fn state(&self) -> Phase {
        self.phase
    }

    /// A listener for `port` that has no socket yet.
    pub fn new(port: u16) -> (listener: Listener)
        ensures
            listener.local_port() == port,
            listener.state() == Phase::Unbound,
    {
        Listener { port, phase: Phase::Unbound }
    }

    /// The port that the listener is for.
    pub fn port(&self) -> (port: u16)
        ensures
            port == self.local_port(),
    {
        self.port
    }

    /// The phase in which the listener is.
    pub fn phase(&self) -> (phase: Phase)
        ensures
            phase == self.state(),
    {
        self.phase
    }

    /// Takes one event: moves to the next phase, counts in `registry` what the
    /// event brought, and says what is to be done next.
    pub fn step(&mut self, event: Event, registry: &mut Registry) -> (action: Action)
        ensures
            final(self).local_port() == old(self).local_port(),
            final(self).state() == next_phase(old(self).state(), event),
            final(registry)@ == next_counts(
                old(self).local_port(),
                old(self).state(),
                event,
                old(registry)@,
            ),
            action == reaction(old(self).local_port(), old(self).state(), event),
    {
        let unbound = self.phase == Phase::Unbound;
        let has_socket = self.phase == Phase::Bound || self.phase == Phase::Accepting;
        match event {
            Event::Started => {
                if unbound {
                    Action::Bind(self.port)
                } else {
                    Action::Nothing
                }
            },
            Event::BindSucceeded => {
                if unbound {
                    registry.register(self.port);
                    self.phase = Phase::Bound;
                    Action::Accept
                } else {
                    Action::Nothing
                }
            },
            Event::BindFailed(detail) => {
                if unbound {
                    self.phase = Phase::Failed;
                    Action::Abort(
                        Failure { task: Task::Listener(self.port), kind: FailureKind::Bind, detail },
                    )
                } else {
                    Action::Nothing
                }
            },
            Event::Connected { remote_ip, remote_port } => {
                if has_socket {
                    registry.increment(self.port);
                    self.phase = Phase::Accepting;
                    Action::Discard(
                        ConnectionEvent { local_port: self.port, remote_ip, remote_port },
                    )
                } else {
                    Action::Nothing
                }
            },
            Event::AcceptFailed(detail) => {
                if has_socket {
                    self.phase = Phase::Failed;
                    Action::Abort(
                        Failure {
                            task: Task::Listener(self.port),
                            kind: FailureKind::Accept,
                            detail,
                        },
                    )
                } else {
                    Action::Nothing
                }
            },
        }
    }
}

/// A connection is never answered. Whatever the phase, a listener asks for
/// one thing only when a connection comes in: to log it, close it unread and
/// wait for the next one; or for nothing at all, where it has no socket.
pub proof fn lemma_connection_is_only_discarded(
    port: u16,
    phase: Phase,
    remote_ip: IpAddress,
    remote_port: u16,
)
    ensures
        reaction(port, phase, Event::Connected { remote_ip, remote_port }) == (if phase
            == Phase::Bound || phase == Phase::Accepting {
            Action::Discard(ConnectionEvent { local_port: port, remote_ip, remote_port })
        } else {
            Action::Nothing
        }),
{
}

/// The phase of a listener after `events` have reached it one after the
/// other.
pub open spec fn phase_after(phase: Phase, events: Seq<Event>) -> Phase
    decreases events.len(),
{
    if events.len() == 0 {
        phase
    } else {
        next_phase(phase_after(phase, events.drop_last()), events.last())
    }
}

/// The counts after `events` have reached the listener on `port` one after the
/// other.
pub open spec fn counts_after(port: u16, phase: Phase, events: Seq<Event>, counts: Map<u16, u64>) -> Map<
    u16,
    u64,
>
    decreases events.len(),
{
    if events.len() == 0 {
        counts
    } else {
        next_counts(
            port,
            phase_after(phase, events.drop_last()),
            events.last(),
            counts_after(port, phase, events.drop_last(), counts),
        )
    }
}

/// Whether every one of `events` is an accepted connection.
pub open spec fn all_connections(events: Seq<Event>) -> bool {
    forall|i: int| 0 <= i < events.len() ==> (#[trigger] events[i]) is Connected
}

/// Connections are counted exactly. After any number of connections, one after
/// the other, to a listener that has its socket, the count of its port has
/// grown by that number, as a 64-bit word; no other port's count has changed.
/// While the sum fits in 64 bits the count is the sum itself: nothing is lost
/// and nothing is counted twice.
pub proof fn lemma_connections_counted(
    port: u16,
    phase: Phase,
    events: Seq<Event>,
    counts: Map<u16, u64>,
)
    requires
        phase == Phase::Bound || phase == Phase::Accepting,
        all_connections(events),
    ensures
        count_in(counts_after(port, phase, events, counts), port) == (count_in(counts, port)
            + events.len()) % 0x1_0000_0000_0000_0000,
        count_in(counts, port) + events.len() <= u64::MAX ==> count_in(
            counts_after(port, phase, events, counts),
            port,
        ) == count_in(counts, port) + events.len(),
        forall|other: u16|
            other != port ==> (#[trigger] counts_after(port, phase, events, counts).contains_key(
                other,
            )) == counts.contains_key(other) && count_in(
                counts_after(port, phase, events, counts),
                other,
            ) == count_in(counts, other),
        events.len() > 0 ==> phase_after(phase, events) == Phase::Accepting && counts_after(
            port,
            phase,
            events,
            counts,
        ).contains_key(port),
        events.len() == 0 ==> phase_after(phase, events) == phase,
    decreases events.len(),
{
    if events.len() > 0 {
        let earlier = events.drop_last();
        assert(all_connections(earlier)) by {
            assert forall|i: int| 0 <= i < earlier.len() implies (#[trigger] earlier[i])
                is Connected by {
                assert(earlier[i] == events[i]);
            }
        }
        assert(events.last() is Connected) by {
            assert(events[events.len() - 1] is Connected);
        }
        lemma_connections_counted(port, phase, earlier, counts);
        let before = counts_after(port, phase, earlier, counts);
        let after = counts_after(port, phase, events, counts);
        assert(expects(phase_after(phase, earlier), events.last()));
        assert(after == before.insert(port, next_count(count_in(before, port))));
        assert forall|other: u16| other != port implies (#[trigger] after.contains_key(other))
            == counts.contains_key(other) && count_in(after, other) == count_in(counts, other) by {
            assert(before.contains_key(other) == counts.contains_key(other));
        }
    }
}

/// A port that was not seen before its listener was bound has, after any
/// number of connections that fits in 64 bits, exactly that number as its
/// count.
pub proof fn lemma_fresh_port_counts_from_zero(port: u16, events: Seq<Event>, counts: Map<u16, u64>)
    requires
        !counts.contains_key(port),
        all_connections(events),
        events.len() <= u64::MAX,
    ensures
        counts_after(
            port,
            Phase::Bound,
            events,
            next_counts(port, Phase::Unbound, Event::BindSucceeded, counts),
        ).contains_key(port),
        counts_after(
            port,
            Phase::Bound,
            events,
            next_counts(port, Phase::Unbound, Event::BindSucceeded, counts),
        )[port] == events.len(),
{
    let bound = next_counts(port, Phase::Unbound, Event::BindSucceeded, counts);
    assert(count_in(bound, port) == 0);
    lemma_connections_counted(port, Phase::Bound, events, bound);
}

} // verus!
