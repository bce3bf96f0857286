//! What holds of the policy and of the hook machine on every input.

use crate::hook::{
    code_of, decision_of, run, transition, Decision, Destination, Failure, HookAction, HookEvent,
    HookState, Primitive, Transition,
};
use crate::ipv4::{
    encode, lemma_char_code, lemma_quad_value_iff_text, octet_text, quad_text, quad_value,
};
use crate::policy::{
    addresses_of, configured, policy_of, store_after, store_after_all, token_address,
};
use crate::text::{
    all_space, lemma_split_joined, lemma_split_single, lemma_trim_padded, split, trim,
};
use vstd::prelude::*;

verus! {

/// The machine answers each event with one action.
pub proof fn lemma_run_len(policy: Set<u32>, state: HookState, events: Seq<HookEvent>)
    ensures
        run(policy, state, events).len() == events.len(),
    decreases events.len(),
{
    if events.len() > 0 {
        let t = transition(policy, state, events[0]);
        lemma_run_len(policy, t.next, events.drop_first());
    }
}

/// Once an invocation is over, the machine asks for nothing more: whatever
/// it is told, it answers that this is not supported.
pub proof fn lemma_finished_asks_nothing(policy: Set<u32>, events: Seq<HookEvent>)
    ensures
        run(policy, HookState::Finished, events).len() == events.len(),
        forall|i: int|
            0 <= i < events.len() ==> #[trigger] run(policy, HookState::Finished, events)[i]
                == HookAction::Fail(Failure::NotSupported),
    decreases events.len(),
{
    lemma_run_len(policy, HookState::Finished, events);
    if events.len() > 0 {
        lemma_finished_asks_nothing(policy, events.drop_first());
        lemma_run_len(policy, HookState::Finished, events.drop_first());
    }
}

/// A connection attempt to a blocked address is refused at once, and
/// whatever the machine is told afterwards, it never asks for the
/// platform's primitive to be called.
pub proof fn lemma_blocked_never_dialed(policy: Set<u32>, address: u32, later: Seq<HookEvent>)
    requires
        policy.contains(address),
    ensures
        ({
            let events = seq![HookEvent::ConnectCalled(Destination::Ipv4(address))] + later;
            let actions = run(policy, HookState::Idle, events);
            &&& actions.len() == events.len()
            &&& actions[0] == HookAction::Fail(Failure::ConnectionRefused)
            &&& forall|i: int| 0 <= i < actions.len() ==> !(#[trigger] actions[i] is Delegate)
        }),
{
    let events = seq![HookEvent::ConnectCalled(Destination::Ipv4(address))] + later;
    let actions = run(policy, HookState::Idle, events);
    lemma_run_len(policy, HookState::Idle, events);
    assert(events.drop_first() =~= later);
    lemma_finished_asks_nothing(policy, later);
    assert forall|i: int| 0 <= i < actions.len() implies !(#[trigger] actions[i] is Delegate) by {
        if i > 0 {
            assert(actions[i] == run(policy, HookState::Finished, later)[i - 1]);
        }
    }
}

/// A refusal is signalled by the platform's code for a refused
/// connection: a connection attempt to a blocked address fails with that
/// code as the error.
pub proof fn lemma_refusal_signals_connection_refused(
    policy: Set<u32>,
    address: u32,
    refused: i32,
    not_supported: i32,
)
    requires
        policy.contains(address),
    ensures
        transition(
            policy,
            HookState::Idle,
            HookEvent::ConnectCalled(Destination::Ipv4(address)),
        ).action == HookAction::Fail(Failure::ConnectionRefused),
        code_of(Failure::ConnectionRefused, refused, not_supported) == refused,
{
}

/// A failed lookup is signalled by the platform's code for a function that
/// the system lacks, in the connect hook and in the socket hook alike.
pub proof fn lemma_failed_lookup_signals_not_supported(
    policy: Set<u32>,
    primitive: Primitive,
    refused: i32,
    not_supported: i32,
)
    ensures
        transition(policy, HookState::Resolving(primitive), HookEvent::Resolved(false))
            == (Transition {
            next: HookState::Finished,
            action: HookAction::Fail(Failure::NotSupported),
        }),
        code_of(Failure::NotSupported, refused, not_supported) == not_supported,
{
}

/// A connection attempt that the policy forwards is resolved, delegated,
/// and its result handed back as it came, when the platform's primitive is
/// found.
pub proof fn lemma_forwarded_verbatim(policy: Set<u32>, destination: Destination, value: i32)
    requires
        decision_of(policy, destination) == Decision::Forward,
    ensures
        run(
            policy,
            HookState::Idle,
            seq![
                HookEvent::ConnectCalled(destination),
                HookEvent::Resolved(true),
                HookEvent::Delegated(value),
            ],
        ) == seq![
            HookAction::Resolve(Primitive::Connect),
            HookAction::Delegate(Primitive::Connect),
            HookAction::Return(value),
        ],
{
    let e = seq![
        HookEvent::ConnectCalled(destination),
        HookEvent::Resolved(true),
        HookEvent::Delegated(value),
    ];
    let e1 = seq![HookEvent::Resolved(true), HookEvent::Delegated(value)];
    let e2 = seq![HookEvent::Delegated(value)];
    assert(e.drop_first() =~= e1);
    assert(e1.drop_first() =~= e2);
    assert(e2.drop_first() =~= Seq::<HookEvent>::empty());
    reveal_with_fuel(run, 4);
    assert(run(policy, HookState::Idle, e) =~= seq![
        HookAction::Resolve(Primitive::Connect),
        HookAction::Delegate(Primitive::Connect),
        HookAction::Return(value),
    ]);
}

/// A connection attempt to an IPv4 address that is not on the blocklist is
/// forwarded: resolved, delegated, and its result handed back as it came.
pub proof fn lemma_unlisted_address_forwarded(policy: Set<u32>, address: u32, value: i32)
    requires
        !policy.contains(address),
    ensures
        decision_of(policy, Destination::Ipv4(address)) == Decision::Forward,
        run(
            policy,
            HookState::Idle,
            seq![
                HookEvent::ConnectCalled(Destination::Ipv4(address)),
                HookEvent::Resolved(true),
                HookEvent::Delegated(value),
            ],
        ) == seq![
            HookAction::Resolve(Primitive::Connect),
            HookAction::Delegate(Primitive::Connect),
            HookAction::Return(value),
        ],
{
    lemma_forwarded_verbatim(policy, Destination::Ipv4(address), value);
}

/// A destination that is absent or of another family is forwarded under
/// every policy: it is never held against the blocklist.
pub proof fn lemma_other_destinations_forwarded(
    policy: Set<u32>,
    destination: Destination,
    value: i32,
)
    requires
        !(destination is Ipv4),
    ensures
        decision_of(policy, destination) == Decision::Forward,
        run(
            policy,
            HookState::Idle,
            seq![
                HookEvent::ConnectCalled(destination),
                HookEvent::Resolved(true),
                HookEvent::Delegated(value),
            ],
        ) == seq![
            HookAction::Resolve(Primitive::Connect),
            HookAction::Delegate(Primitive::Connect),
            HookAction::Return(value),
        ],
{
    lemma_forwarded_verbatim(policy, destination, value);
}

/// When a forwarded connection attempt finds no platform primitive, the
/// call fails as not supported and nothing is called.
pub proof fn lemma_unresolved_connect_not_supported(policy: Set<u32>, destination: Destination)
    requires
        decision_of(policy, destination) == Decision::Forward,
    ensures
        run(
            policy,
            HookState::Idle,
            seq![HookEvent::ConnectCalled(destination), HookEvent::Resolved(false)],
        ) == seq![
            HookAction::Resolve(Primitive::Connect),
            HookAction::Fail(Failure::NotSupported),
        ],
{
    let e = seq![HookEvent::ConnectCalled(destination), HookEvent::Resolved(false)];
    let e1 = seq![HookEvent::Resolved(false)];
    assert(e.drop_first() =~= e1);
    assert(e1.drop_first() =~= Seq::<HookEvent>::empty());
    reveal_with_fuel(run, 3);
    assert(run(policy, HookState::Idle, e) =~= seq![
        HookAction::Resolve(Primitive::Connect),
        HookAction::Fail(Failure::NotSupported),
    ]);
}

/// Socket creation is forwarded under every policy: resolved, delegated
/// and its result handed back as it came; and it fails as not supported
/// when the platform's primitive is not found.
pub proof fn lemma_socket_forwarded(policy: Set<u32>, value: i32)
    ensures
        run(
            policy,
            HookState::Idle,
            seq![HookEvent::SocketCalled, HookEvent::Resolved(true), HookEvent::Delegated(value)],
        ) == seq![
            HookAction::Resolve(Primitive::Socket),
            HookAction::Delegate(Primitive::Socket),
            HookAction::Return(value),
        ],
        run(policy, HookState::Idle, seq![HookEvent::SocketCalled, HookEvent::Resolved(false)])
            == seq![
            HookAction::Resolve(Primitive::Socket),
            HookAction::Fail(Failure::NotSupported),
        ],
{
    let e = seq![HookEvent::SocketCalled, HookEvent::Resolved(true), HookEvent::Delegated(value)];
    let e1 = seq![HookEvent::Resolved(true), HookEvent::Delegated(value)];
    let e2 = seq![HookEvent::Delegated(value)];
    let f = seq![HookEvent::SocketCalled, HookEvent::Resolved(false)];
    let f1 = seq![HookEvent::Resolved(false)];
    assert(e.drop_first() =~= e1);
    assert(e1.drop_first() =~= e2);
    assert(e2.drop_first() =~= Seq::<HookEvent>::empty());
    assert(f.drop_first() =~= f1);
    assert(f1.drop_first() =~= Seq::<HookEvent>::empty());
    reveal_with_fuel(run, 4);
    assert(run(policy, HookState::Idle, e) =~= seq![
        HookAction::Resolve(Primitive::Socket),
        HookAction::Delegate(Primitive::Socket),
        HookAction::Return(value),
    ]);
    assert(run(policy, HookState::Idle, f) =~= seq![
        HookAction::Resolve(Primitive::Socket),
        HookAction::Fail(Failure::NotSupported),
    ]);
}

/// An absent configuration and an empty one block nothing, so every
/// destination is forwarded under them.
pub proof fn lemma_no_configuration_blocks_nothing(destination: Destination)
    ensures
        policy_of(None) == Set::<u32>::empty(),
        configured(Seq::<char>::empty()) == Set::<u32>::empty(),
        decision_of(policy_of(None), destination) == Decision::Forward,
        decision_of(configured(Seq::<char>::empty()), destination) == Decision::Forward,
{
    let none = Seq::<char>::empty();
    assert(split(none, ',') =~= seq![none]);
    assert(trim(none) == none);
    assert(split(none, '.') =~= seq![none]);
    assert(quad_value(none) is None);
    assert(token_address(none) is None);
    assert forall|a: u32| !configured(none).contains(a) by {
        if configured(none).contains(a) {
            let tokens = split(none, ',');
            let i = choose|i: int|
                0 <= i < tokens.len() && token_address(#[trigger] tokens[i]) == Some(a);
            assert(tokens[i] == none);
        }
    }
    assert(configured(none) =~= Set::<u32>::empty());
}

/// A token that writes an address as a dotted quad, with any whitespace
/// around it, names that address.
pub proof fn lemma_padded_quad_is_named(
    lead: Seq<char>,
    a: u8,
    b: u8,
    c: u8,
    d: u8,
    trail: Seq<char>,
)
    requires
        all_space(lead),
        all_space(trail),
    ensures
        token_address(lead + quad_text(a, b, c, d) + trail) == Some(encode(a, b, c, d)),
{
    let body = quad_text(a, b, c, d);
    let first = octet_text(a);
    let last = octet_text(d);
    assert(body[0] == first[0]);
    assert(body.last() == last.last());
    lemma_char_code(first[0]);
    lemma_char_code(last.last());
    lemma_trim_padded(lead, body, trail);
    lemma_quad_value_iff_text(body, encode(a, b, c, d));
}

/// Two runs of tokens block what each of them blocks.
pub proof fn lemma_addresses_concat(first: Seq<Seq<char>>, second: Seq<Seq<char>>)
    ensures
        addresses_of(first + second) == addresses_of(first).union(addresses_of(second)),
{
    let both = first + second;
    let want = addresses_of(first).union(addresses_of(second));
    assert forall|a: u32| addresses_of(both).contains(a) implies want.contains(a) by {
        let i = choose|i: int| 0 <= i < both.len() && token_address(#[trigger] both[i]) == Some(a);
        if i < first.len() {
            assert(first[i] == both[i]);
        } else {
            assert(second[i - first.len()] == both[i]);
        }
    }
    assert forall|a: u32| want.contains(a) implies addresses_of(both).contains(a) by {
        if addresses_of(first).contains(a) {
            let i = choose|i: int|
                0 <= i < first.len() && token_address(#[trigger] first[i]) == Some(a);
            assert(both[i] == first[i]);
        } else {
            let i = choose|i: int|
                0 <= i < second.len() && token_address(#[trigger] second[i]) == Some(a);
            assert(both[first.len() + i] == second[i]);
        }
    }
    assert(addresses_of(both) =~= want);
}

/// Two configurations joined by a comma block what each of them blocks.
pub proof fn lemma_configured_joined(first: Seq<char>, second: Seq<char>)
    ensures
        configured(first + seq![','] + second) == configured(first).union(configured(second)),
{
    lemma_split_joined(first, second, ',');
    lemma_addresses_concat(split(first, ','), split(second, ','));
}

/// A configuration without a comma is one token: it blocks the address
/// that the token names, or nothing.
pub proof fn lemma_configured_single(token: Seq<char>)
    requires
        forall|i: int| 0 <= i < token.len() ==> token[i] != ',',
    ensures
        configured(token) == match token_address(token) {
            Some(a) => Set::<u32>::empty().insert(a),
            None => Set::<u32>::empty(),
        },
{
    lemma_split_single(token, ',');
    let tokens = split(token, ',');
    assert(tokens[0] == token);
    assert(configured(token) =~= match token_address(token) {
        Some(a) => Set::<u32>::empty().insert(a),
        None => Set::<u32>::empty(),
    });
}

/// A token that names no address changes nothing: the tokens around it
/// block what they would block without it.
pub proof fn lemma_malformed_token_skipped(
    before: Seq<Seq<char>>,
    token: Seq<char>,
    after: Seq<Seq<char>>,
)
    requires
        token_address(token) is None,
    ensures
        addresses_of(before.push(token) + after) == addresses_of(before + after),
{
    let with = before.push(token) + after;
    let without = before + after;
    assert forall|a: u32| addresses_of(with).contains(a) implies addresses_of(without).contains(
        a,
    ) by {
        let i = choose|i: int| 0 <= i < with.len() && token_address(#[trigger] with[i]) == Some(a);
        if i < before.len() {
            assert(without[i] == with[i]);
        } else {
            assert(i > before.len());
            assert(without[i - 1] == with[i]);
        }
    }
    assert forall|a: u32| addresses_of(without).contains(a) implies addresses_of(with).contains(
        a,
    ) by {
        let i = choose|i: int|
            0 <= i < without.len() && token_address(#[trigger] without[i]) == Some(a);
        if i < before.len() {
            assert(with[i] == without[i]);
        } else {
            assert(with[i + 1] == without[i]);
        }
    }
    assert(addresses_of(with) =~= addresses_of(without));
}

/// Two addresses with the same encoding have the same four octets, so
/// membership in a blocklist is equality of addresses.
pub proof fn lemma_encode_injective(a: u8, b: u8, c: u8, d: u8, e: u8, f: u8, g: u8, h: u8)
    requires
        encode(a, b, c, d) == encode(e, f, g, h),
    ensures
        a == e && b == f && c == g && d == h,
{
}

/// An address is blocked exactly when some token of the configuration
/// names it.
pub proof fn lemma_blocked_iff_named(config: Seq<char>, address: u32)
    ensures
        configured(config).contains(address) <==> exists|i: int|
            0 <= i < split(config, ',').len() && token_address(#[trigger] split(config, ',')[i])
                == Some(address),
{
}

/// Whichever hook is entered first fixes the policy: the store then holds
/// what the configuration of that moment gives, and an initialization with
/// a later configuration leaves it so.
pub proof fn lemma_first_initialization_fixes_policy(
    first: Option<Seq<char>>,
    later: Option<Seq<char>>,
)
    ensures
        store_after(None, first) == Some(policy_of(first)),
        store_after(store_after(None, first), later) == Some(policy_of(first)),
{
}

/// A store that holds a policy keeps it through every later
/// initialization.
pub proof fn lemma_initialized_store_is_kept(policy: Set<u32>, configs: Seq<Option<Seq<char>>>)
    ensures
        store_after_all(Some(policy), configs) == Some(policy),
    decreases configs.len(),
{
    if configs.len() > 0 {
        lemma_initialized_store_is_kept(policy, configs.drop_first());
    }
}

/// Initialization happens once: however many initializations run on a
/// fresh store, it ends with the policy that the first one built, and a
/// repeated initialization changes nothing.
pub proof fn lemma_initialization_happens_once(
    before: Option<Set<u32>>,
    configs: Seq<Option<Seq<char>>>,
)
    requires
        configs.len() >= 1,
    ensures
        store_after_all(None, configs) == Some(policy_of(configs[0])),
        store_after(store_after(before, configs[0]), configs[0]) == store_after(
            before,
            configs[0],
        ),
{
    lemma_initialized_store_is_kept(policy_of(configs[0]), configs.drop_first());
}

} // verus!
