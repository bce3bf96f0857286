//! The blocklist: the set of encoded IPv4 addresses that a configuration
//! text names, and the store that holds it once it has been built.

use crate::ipv4::{parse_quad, quad_value};
use crate::text::{span_texts, split, split_spans, to_chars, trim, trim_span};
use std::collections::HashSet;
use vstd::prelude::*;
use vstd::std_specs::hash::*;

verus! {

broadcast use group_hash_axioms;

/// The address that one configuration token names, if it names one: the
/// token is trimmed, then read as a dotted quad.
pub open spec fn token_address(token: Seq<char>) -> Option<u32> {
    quad_value(trim(token))
}

/// The addresses that the tokens name; a token that names none adds none.
pub open spec fn addresses_of(tokens: Seq<Seq<char>>) -> Set<u32> {
    Set::new(
        |a: u32|
            exists|i: int| 0 <= i < tokens.len() && token_address(#[trigger] tokens[i]) == Some(a),
    )
}

/// The addresses that a comma-separated configuration text blocks.
pub open spec fn configured(config: Seq<char>) -> Set<u32> {
    addresses_of(split(config, ','))
}

/// The policy for a configuration that may be absent: an absent one
/// blocks nothing.
pub open spec fn policy_of(config: Option<Seq<char>>) -> Set<u32> {
    match config {
        Some(text) => configured(text),
        None => Set::empty(),
    }
}

/// The text of a configuration that may be absent.
pub open spec fn text_of(config: Option<&str>) -> Option<Seq<char>> {
    match config {
        Some(text) => Some(text@),
        None => None,
    }
}

/// One more token adds its address, or nothing.
pub proof fn lemma_addresses_push(tokens: Seq<Seq<char>>, token: Seq<char>)
    ensures
        addresses_of(tokens.push(token)) == match token_address(token) {
            Some(a) => addresses_of(tokens).insert(a),
            None => addresses_of(tokens),
        },
{
    let more = tokens.push(token);
    let want = match token_address(token) {
        Some(a) => addresses_of(tokens).insert(a),
        None => addresses_of(tokens),
    };
    assert forall|a: u32| addresses_of(more).contains(a) implies want.contains(a) by {
        let i = choose|i: int| 0 <= i < more.len() && token_address(#[trigger] more[i]) == Some(a);
        if i < tokens.len() {
            assert(tokens[i] == more[i]);
        }
    }
    assert forall|a: u32| want.contains(a) implies addresses_of(more).contains(a) by {
        if token_address(token) == Some(a) {
            assert(more[tokens.len() as int] == token);
        } else {
            let i = choose|i: int|
                0 <= i < tokens.len() && token_address(#[trigger] tokens[i]) == Some(a);
            assert(more[i] == tokens[i]);
        }
    }
    assert(addresses_of(more) =~= want);
}

/// A set of blocked IPv4 addresses, each held in its 32-bit encoding.
/// Membership is exact equality.
pub struct Blocklist {
    addresses: HashSet<u32>,
}

impl View for Blocklist {
    type V = Set<u32>;

    closed spec fn view(&self) -> Set<u32> {
        self.addresses@
    }
}

impl Blocklist {
    /// The blocklist that blocks nothing.
    pub fn empty() -> (r: Blocklist)
        ensures
            r@ == Set::<u32>::empty(),
    {
        Blocklist { addresses: HashSet::new() }
    }

    /// Reads a comma-separated list of dotted quads. Each token is trimmed;
    /// a token that is no dotted quad is passed over.
    pub fn parse(config: &str) -> (r: Blocklist)
        ensures
            r@ == configured(config@),
    {
        let chars = to_chars(config);
        let spans = split_spans(chars.as_slice(), 0, chars.len(), ',');
        let ghost tokens = span_texts(chars@, spans@);
        let mut addresses: HashSet<u32> = HashSet::new();
        let mut k: usize = 0;
        proof {
            assert(chars@.subrange(0, chars@.len() as int) =~= chars@);
            assert(addresses_of(tokens.take(0)) =~= Set::<u32>::empty());
        }
        while k < spans.len()
            invariant
                k <= spans@.len(),
                tokens == span_texts(chars@, spans@),
                crate::text::spans_within(spans@, 0, chars@.len() as int),
                addresses@ == addresses_of(tokens.take(k as int)),
            decreases spans@.len() - k,
        {
            let lo: usize = spans[k].0;
            let hi: usize = spans[k].1;
            let inner = trim_span(chars.as_slice(), lo, hi);
            proof {
                assert(tokens[k as int] == chars@.subrange(lo as int, hi as int));
                assert(tokens.take(k + 1) =~= tokens.take(k as int).push(tokens[k as int]));
                lemma_addresses_push(tokens.take(k as int), tokens[k as int]);
            }
            match parse_quad(chars.as_slice(), inner.0, inner.1) {
                Some(address) => {
                    addresses.insert(address);
                },
                None => {},
            }
            k += 1;
        }
        proof {
            assert(tokens.take(k as int) =~= tokens);
        }
        Blocklist { addresses }
    }

    /// Builds the policy from a configuration that may be absent.
    pub fn load(config: Option<&str>) -> (r: Blocklist)
        ensures
            r@ == policy_of(text_of(config)),
    {
        match config {
            Some(text) => Blocklist::parse(text),
            None => Blocklist::empty(),
        }
    }

    /// The number of blocked addresses.
    pub fn len(&self) -> (r: usize)
        ensures
            r == self@.len(),
    {
        self.addresses.len()
    }

    /// Whether connections to `address` are to be refused.
    pub fn is_blocked(&self, address: u32) -> (r: bool)
        ensures
            r == self@.contains(address),
    {
        self.addresses.contains(&address)
    }
}

/// What a store holds after an initialization with `config`: what it held
/// before, if it held a policy; else the policy that `config` gives.
pub open spec fn store_after(before: Option<Set<u32>>, config: Option<Seq<char>>) -> Option<
    Set<u32>,
> {
    match before {
        Some(policy) => Some(policy),
        None => Some(policy_of(config)),
    }
}

/// What a store holds after one initialization for each of `configs`, in
/// order.
pub open spec fn store_after_all(
    before: Option<Set<u32>>,
    configs: Seq<Option<Seq<char>>>,
) -> Option<Set<u32>>
    decreases configs.len(),
{
    if configs.len() == 0 {
        before
    } else {
        store_after_all(store_after(before, configs[0]), configs.drop_first())
    }
}

/// The place where a process keeps its policy: empty at first, filled by
/// the first initialization, and never changed after that.
pub struct PolicyStore {
    policy: Option<Blocklist>,
}

impl View for PolicyStore {
    type V = Option<Set<u32>>;

    closed spec fn view(&self) -> Option<Set<u32>> {
        match self.policy {
            Some(list) => Some(list@),
            None => None,
        }
    }
}

impl PolicyStore {
    /// Whether the policy has been built.
    pub open spec fn is_initialized(&self) -> bool {
        self@ is Some
    }

    /// The addresses that the store blocks; none before it is initialized.
    pub open spec fn blocked(&self) -> Set<u32> {
        match self@ {
            Some(policy) => policy,
            None => Set::empty(),
        }
    }

    /// A store whose policy has not been built yet.
    pub fn new() -> (r: PolicyStore)
        ensures
            r@ is None,
    {
        PolicyStore { policy: None }
    }

    /// Whether the policy has been built.
    pub fn initialized(&self) -> (r: bool)
        ensures
            r == self.is_initialized(),
    {
        self.policy.is_some()
    }

    /// Builds the policy from `config` if none has been built yet, and
    /// leaves an existing one as it is.
    pub fn ensure_initialized(&mut self, config: Option<&str>)
        ensures
            final(self)@ == store_after(old(self)@, text_of(config)),
    {
        if self.policy.is_none() {
            self.policy = Some(Blocklist::load(config));
        }
    }

    /// The policy, once built.
    pub fn policy(&self) -> (r: &Blocklist)
        requires
            self.is_initialized(),
        ensures
            r@ == self.blocked(),
    {
        self.policy.as_ref().unwrap()
    }

    /// Whether connections to `address` are to be refused.
    pub fn is_blocked(&self, address: u32) -> (r: bool)
        requires
            self.is_initialized(),
        ensures
            r == self.blocked().contains(address),
    {
        self.policy().is_blocked(address)
    }
}

} // verus!
