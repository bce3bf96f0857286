//! The decisions of the two hooks, as a machine that is told what has
//! happened and answers with what to do next. Whoever drives it performs
//! the actions: looking up the platform's own primitive and calling it.

use crate::ipv4::{encode, pack};
use crate::policy::{Blocklist, PolicyStore};
use crate::sys;
use vstd::prelude::*;

verus! {

/// The value by which the hooked primitives report failure.
pub const FAILURE: i32 = -1;

/// What a `connect` call names as its destination.
#[derive(Clone, Copy, Debug, PartialEq, Eq, Structural)]
pub enum Destination {
    /// No address was given.
    Absent,
    /// An IPv4 address, in its 32-bit encoding.
    Ipv4(u32),
    /// An address of another family, or one too short to hold an IPv4
    /// address.
    Other,
}

/// What the policy says of a connection attempt.
#[derive(Clone, Copy, Debug, PartialEq, Eq, Structural)]
pub enum Decision {
    Refuse,
    Forward,
}

/// The ways in which a hook fails a call by itself.
#[derive(Clone, Copy, Debug, PartialEq, Eq, Structural)]
pub enum Failure {
    /// The destination is blocked.
    ConnectionRefused,
    /// The platform's own primitive could not be found, or the machine was
    /// told something that does not belong to its state.
    NotSupported,
}

/// The two hooked primitives.
#[derive(Clone, Copy, Debug, PartialEq, Eq, Structural)]
pub enum Primitive {
    Socket,
    Connect,
}

/// Where a hook invocation stands.
#[derive(Clone, Copy, Debug, PartialEq, Eq, Structural)]
pub enum HookState {
    /// Nothing has happened yet.
    Idle,
    /// The platform's primitive is being looked up.
    Resolving(Primitive),
    /// The platform's primitive is being called.
    Delegating(Primitive),
    /// The invocation is over.
    Finished,
}

/// What the driver tells the machine.
#[derive(Clone, Copy, Debug, PartialEq, Eq, Structural)]
pub enum HookEvent {
    /// The socket-creation hook was entered.
    SocketCalled,
    /// The connect hook was entered, with this destination.
    ConnectCalled(Destination),
    /// The lookup ended; `true` when the primitive was found.
    Resolved(bool),
    /// The platform's primitive returned this value.
    Delegated(i32),
}

/// What the machine asks of the driver.
#[derive(Clone, Copy, Debug, PartialEq, Eq, Structural)]
pub enum HookAction {
    /// Look up the platform's primitive.
    Resolve(Primitive),
    /// Call the platform's primitive with the caller's own arguments.
    Delegate(Primitive),
    /// Fail the call with this error.
    Fail(Failure),
    /// Hand this value back to the caller; the last error stays as the
    /// platform's primitive left it.
    Return(i32),
}

/// One move of the machine.
#[derive(Clone, Copy, Debug, PartialEq, Eq, Structural)]
pub struct Transition {
    pub next: HookState,
    pub action: HookAction,
}

/// The destination that a socket address argument names. `inet` is the
/// platform's tag for IPv4; `address` holds the four address bytes in the
/// order in which they lie in the argument, where it is long enough to
/// hold them.
pub open spec fn destination_of(
    present: bool,
    family: i32,
    inet: i32,
    address: Option<[u8; 4]>,
) -> Destination {
    if !present {
        Destination::Absent
    } else if family == inet && address is Some {
        let o = address->0;
        Destination::Ipv4(encode(o[0], o[1], o[2], o[3]))
    } else {
        Destination::Other
    }
}

/// The policy's decision: only a blocked IPv4 destination is refused.
pub open spec fn decision_of(policy: Set<u32>, destination: Destination) -> Decision {
    match destination {
        Destination::Ipv4(a) => if policy.contains(a) {
            Decision::Refuse
        } else {
            Decision::Forward
        },
        _ => Decision::Forward,
    }
}

/// The error code that signals `failure`: a refusal is signalled by the
/// platform's code for a refused connection, a failed lookup by its code
/// for a function that the system lacks.
pub open spec fn code_of(failure: Failure, refused: i32, not_supported: i32) -> i32 {
    match failure {
        Failure::ConnectionRefused => refused,
        Failure::NotSupported => not_supported,
    }
}

/// The exported name of a primitive.
pub open spec fn symbol_of(primitive: Primitive) -> Seq<char> {
    match primitive {
        Primitive::Socket => "socket"@,
        Primitive::Connect => "connect"@,
    }
}

/// The machine's move from `state` on `event`. An event that does not
/// belong to the state ends the invocation as not supported.
pub open spec fn transition(policy: Set<u32>, state: HookState, event: HookEvent) -> Transition {
    match (state, event) {
        (HookState::Idle, HookEvent::SocketCalled) => Transition {
            next: HookState::Resolving(Primitive::Socket),
            action: HookAction::Resolve(Primitive::Socket),
        },
        (HookState::Idle, HookEvent::ConnectCalled(d)) => match decision_of(policy, d) {
            Decision::Refuse => Transition {
                next: HookState::Finished,
                action: HookAction::Fail(Failure::ConnectionRefused),
            },
            Decision::Forward => Transition {
                next: HookState::Resolving(Primitive::Connect),
                action: HookAction::Resolve(Primitive::Connect),
            },
        },
        (HookState::Resolving(p), HookEvent::Resolved(true)) => Transition {
            next: HookState::Delegating(p),
            action: HookAction::Delegate(p),
        },
        (HookState::Resolving(_), HookEvent::Resolved(false)) => Transition {
            next: HookState::Finished,
            action: HookAction::Fail(Failure::NotSupported),
        },
        (HookState::Delegating(_), HookEvent::Delegated(value)) => Transition {
            next: HookState::Finished,
            action: HookAction::Return(value),
        },
        _ => Transition {
            next: HookState::Finished,
            action: HookAction::Fail(Failure::NotSupported),
        },
    }
}

/// The actions that the machine answers to a sequence of events, one for
/// each event.
pub open spec fn run(policy: Set<u32>, state: HookState, events: Seq<HookEvent>) -> Seq<
    HookAction,
>
    decreases events.len(),
{
    if events.len() == 0 {
        Seq::empty()
    } else {
        let t = transition(policy, state, events[0]);
        seq![t.action] + run(policy, t.next, events.drop_first())
    }
}

impl Primitive {
    /// The name under which the platform exports the primitive.
    pub fn symbol(self) -> (r: &'static str)
        ensures
            r@ == symbol_of(self),
    {
        match self {
            Primitive::Socket => "socket",
            Primitive::Connect => "connect",
        }
    }
}

impl Destination {
    /// Classifies a socket address argument, given the platform's tag for
    /// IPv4.
    pub fn classify(present: bool, family: i32, inet: i32, address: Option<[u8; 4]>) -> (d:
        Destination)
        ensures
            d == destination_of(present, family, inet, address),
    {
        if !present {
            Destination::Absent
        } else if family == inet {
            match address {
                Some(octets) => Destination::Ipv4(pack(octets)),
                None => Destination::Other,
            }
        } else {
            Destination::Other
        }
    }

    /// Classifies a socket address argument on this platform. Which family
    /// tag stands for IPv4 is the platform's to say, so a present address
    /// comes out as the IPv4 destination that its bytes encode, or as
    /// `Other`.
    pub fn decode(present: bool, family: i32, address: Option<[u8; 4]>) -> (d: Destination)
        ensures
            !present ==> d == Destination::Absent,
            present && address is None ==> d == Destination::Other,
            present && address is Some ==> d == Destination::Other || d == Destination::Ipv4(
                encode(address->0[0], address->0[1], address->0[2], address->0[3]),
            ),
    {
        Destination::classify(present, family, sys::inet_family(), address)
    }
}

/// Asks the policy about a destination.
pub fn connect_decision(policy: &Blocklist, destination: Destination) -> (v: Decision)
    ensures
        v == decision_of(policy@, destination),
{
    match destination {
        Destination::Ipv4(a) => if policy.is_blocked(a) {
            Decision::Refuse
        } else {
            Decision::Forward
        },
        _ => Decision::Forward,
    }
}

/// Enters the connect hook on a store that has been initialized: the
/// machine's first move on a connection attempt to `destination`. A
/// blocked IPv4 destination is refused at once; every other destination
/// has the platform's `connect` looked up.
pub fn connect(store: &PolicyStore, destination: Destination) -> (t: Transition)
    requires
        store.is_initialized(),
    ensures
        t == transition(store.blocked(), HookState::Idle, HookEvent::ConnectCalled(destination)),
        decision_of(store.blocked(), destination) == Decision::Refuse ==> t == (Transition {
            next: HookState::Finished,
            action: HookAction::Fail(Failure::ConnectionRefused),
        }),
        decision_of(store.blocked(), destination) == Decision::Forward ==> t == (Transition {
            next: HookState::Resolving(Primitive::Connect),
            action: HookAction::Resolve(Primitive::Connect),
        }),
{
    step(store.policy(), HookState::Idle, HookEvent::ConnectCalled(destination))
}

/// Enters the socket hook on a store that has been initialized: the
/// machine's first move on a socket creation. The policy is in place when
/// the hook is entered, and is not asked: the platform's `socket` is
/// looked up whatever the store blocks.
pub fn socket(store: &PolicyStore) -> (t: Transition)
    requires
        store.is_initialized(),
    ensures
        t == transition(store.blocked(), HookState::Idle, HookEvent::SocketCalled),
        t.next == HookState::Resolving(Primitive::Socket),
        t.action == HookAction::Resolve(Primitive::Socket),
{
    step(store.policy(), HookState::Idle, HookEvent::SocketCalled)
}

/// Moves the machine: tells it `event` in `state` and gets the next state
/// and the action to perform.
pub fn step(policy: &Blocklist, state: HookState, event: HookEvent) -> (t: Transition)
    ensures
        t == transition(policy@, state, event),
{
    let unsupported = Transition {
        next: HookState::Finished,
        action: HookAction::Fail(Failure::NotSupported),
    };
    match state {
        HookState::Idle => match event {
            HookEvent::SocketCalled => Transition {
                next: HookState::Resolving(Primitive::Socket),
                action: HookAction::Resolve(Primitive::Socket),
            },
            HookEvent::ConnectCalled(d) => match connect_decision(policy, d) {
                Decision::Refuse => Transition {
                    next: HookState::Finished,
                    action: HookAction::Fail(Failure::ConnectionRefused),
                },
                Decision::Forward => Transition {
                    next: HookState::Resolving(Primitive::Connect),
                    action: HookAction::Resolve(Primitive::Connect),
                },
            },
            _ => unsupported,
        },
        HookState::Resolving(p) => match event {
            HookEvent::Resolved(true) => Transition {
                next: HookState::Delegating(p),
                action: HookAction::Delegate(p),
            },
            _ => unsupported,
        },
        HookState::Delegating(_) => match event {
            HookEvent::Delegated(value) => Transition {
                next: HookState::Finished,
                action: HookAction::Return(value),
            },
            _ => unsupported,
        },
        HookState::Finished => unsupported,
    }
}

/// The error code that signals `failure`, given the platform's codes for
/// a refused connection and for a function that the system lacks.
pub fn failure_code(failure: Failure, refused: i32, not_supported: i32) -> (r: i32)
    ensures
        r == code_of(failure, refused, not_supported),
{
    match failure {
        Failure::ConnectionRefused => refused,
        Failure::NotSupported => not_supported,
    }
}

/// Fails the call as the hooked primitives do: stores the platform's code
/// for `failure`, as `failure_code` picks it, as the thread's last error
/// and gives the failure value to return.
pub fn report(failure: Failure) -> (r: i32)
    ensures
        r == FAILURE,
{
    let refused: i32 = sys::connection_refused_code();
    let not_supported: i32 = sys::not_supported_code();
    sys::set_last_error(failure_code(failure, refused, not_supported));
    FAILURE
}

} // verus!
