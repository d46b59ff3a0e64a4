use vstd::prelude::*;
use crate::chain::{SectionKey, SectionProofChain};
use crate::codec::{enc_bytes, put_bytes, put_u8};
use crate::crypto::{bls_valid, bls_verify};
use crate::id::P2pNode;
use crate::location::XorName;

verus! {

/// The minimum age a node can have.
pub const MIN_AGE: u8 = 4;

/// The counter of churn events experienced by a node. Its age is the base-2 logarithm of
/// the count, rounded down.
#[derive(Clone, Copy, Debug, PartialEq, Eq, Structural, PartialOrd, Ord, Hash)]
pub struct AgeCounter(pub u32);

/// The minimum allowed value of the counter, that of age `MIN_AGE`.
pub const MIN_AGE_COUNTER_VALUE: u32 = 16;

/// `2` to the power `e`.
pub open spec fn pow2(e: nat) -> nat
    decreases e,
{
    if e == 0 {
        1
    } else {
        2 * pow2((e - 1) as nat)
    }
}

/// The position of the highest set bit of a positive value.
pub open spec fn log2(v: nat) -> nat
    decreases v,
{
    if v <= 1 {
        0
    } else {
        1 + log2(v / 2)
    }
}

/// Whether `v` is a power of two.
pub open spec fn is_power_of_two(v: nat) -> bool {
    exists|e: nat| pow2(e) == v
}

proof fn lemma_pow2_pos(e: nat)
    ensures
        pow2(e) >= 1,
    decreases e,
{
    if e > 0 {
        lemma_pow2_pos((e - 1) as nat);
    }
}

proof fn lemma_log2_pow2(e: nat)
    ensures
        log2(pow2(e)) == e,
    decreases e,
{
    if e > 0 {
        lemma_pow2_pos((e - 1) as nat);
        lemma_log2_pow2((e - 1) as nat);
        assert(pow2(e) / 2 == pow2((e - 1) as nat));
    }
}

impl AgeCounter {
    /// The counter for `age`, with `age` raised to `MIN_AGE` first; saturates at `u32::MAX`.
    pub open spec fn from_age_spec(age: u8) -> u32 {
        let a = if age < MIN_AGE { MIN_AGE } else { age };
        if a < 32 {
            pow2(a as nat) as u32
        } else {
            u32::MAX
        }
    }

    /// Creates a counter of the given age. An age below `MIN_AGE` is raised to `MIN_AGE`.
    pub fn from_age(age: u8) -> (r: Self)
        ensures
            r.0 == Self::from_age_spec(age),
    {
        let a: u8 = if age < MIN_AGE { MIN_AGE } else { age };
        if a >= 32 {
            return AgeCounter(u32::MAX);
        }
        let mut v: u32 = 1;
        let mut i: u8 = 0;
        while i < a
            invariant
                i <= a,
                a < 32,
                v as nat == pow2(i as nat),
            decreases a - i,
        {
            proof {
                lemma_pow2_bound(i as nat);
            }
            v = v * 2;
            i = i + 1;
        }
        AgeCounter(v)
    }

    /// The age that this counter stands for.
    pub open spec fn age_spec(self) -> nat {
        log2(self.0 as nat)
    }

    /// Returns the age: the position of the highest set bit of the counter.
    pub fn age(self) -> (r: u8)
        ensures
            r as nat == self.age_spec(),
    {
        let mut v: u32 = self.0;
        let mut n: u8 = 0;
        proof {
            lemma_log2_bound(self.0 as nat);
        }
        while v > 1
            invariant
                n as nat + log2(v as nat) == log2(self.0 as nat),
                log2(self.0 as nat) <= 32,
            decreases v,
        {
            v = v / 2;
            n = n + 1;
        }
        n
    }

    /// Increments the counter and returns whether the age grew, which is when the new count
    /// is a power of two. At `u32::MAX` the counter stays and the age does not grow.
    pub fn increment(&mut self) -> (r: bool)
        ensures
            old(self).0 < u32::MAX ==> final(self).0 == old(self).0 + 1 && r == is_power_of_two(
                final(self).0 as nat,
            ),
            old(self).0 == u32::MAX ==> final(self).0 == u32::MAX && !r,
    {
        if self.0 == u32::MAX {
            return false;
        }
        self.0 = self.0 + 1;
        is_pow2_u32(self.0)
    }
}

proof fn lemma_pow2_mono(e1: nat, e2: nat)
    requires
        e1 <= e2,
    ensures
        pow2(e1) <= pow2(e2),
    decreases e2,
{
    if e1 < e2 {
        lemma_pow2_mono(e1, (e2 - 1) as nat);
        lemma_pow2_pos((e2 - 1) as nat);
    }
}

proof fn lemma_pow2_bound(e: nat)
    requires
        e <= 30,
    ensures
        pow2(e) <= 0x4000_0000,
{
    lemma_pow2_mono(e, 30);
    reveal_with_fuel(pow2, 31);
}

proof fn lemma_log2_bound(v: nat)
    requires
        v <= u32::MAX,
    ensures
        log2(v) <= 32,
{
    reveal_with_fuel(pow2, 33);
    lemma_log2_le(v, 32);
}

proof fn lemma_log2_le(v: nat, k: nat)
    requires
        v < pow2(k),
    ensures
        log2(v) < k || v <= 1,
        log2(v) <= k,
    decreases k,
{
    if v > 1 && k > 0 {
        assert(pow2(k) == 2 * pow2((k - 1) as nat));
        lemma_log2_le(v / 2, (k - 1) as nat);
    }
}

/// Whether a positive `u32` is a power of two, by halving while even.
fn is_pow2_u32(v: u32) -> (r: bool)
    requires
        v > 0,
    ensures
        r == is_power_of_two(v as nat),
{
    let mut x: u32 = v;
    let ghost mut e: nat = 0;
    assert(pow2(0) == 1);
    while x % 2 == 0
        invariant
            x > 0,
            x as nat * pow2(e) == v as nat,
        decreases x,
    {
        proof {
            assert(pow2(e + 1) == 2 * pow2(e));
            assert((x / 2) as nat * pow2(e + 1) == x as nat * pow2(e)) by (nonlinear_arith)
                requires x % 2 == 0, pow2(e + 1) == 2 * pow2(e);
        }
        x = x / 2;
        proof { e = e + 1; }
    }
    if x == 1 {
        proof {
            assert(pow2(e) == v as nat);
        }
        true
    } else {
        proof {
            assert forall|k: nat| pow2(k) != v as nat by {
                lemma_odd_factor(x as nat, e, k, v as nat);
            }
        }
        false
    }
}

proof fn lemma_odd_factor(x: nat, e: nat, k: nat, v: nat)
    requires
        x > 1,
        x % 2 == 1,
        x * pow2(e) == v,
    ensures
        pow2(k) != v,
    decreases e, k,
{
    if pow2(k) == v {
        if e == 0 {
            if k == 0 {
                assert(x * 1 == x);
            } else {
                assert(pow2(k) == 2 * pow2((k - 1) as nat));
                assert(x * pow2(e) == x);
            }
        } else if k == 0 {
            lemma_pow2_pos((e - 1) as nat);
            assert(pow2(e) == 2 * pow2((e - 1) as nat));
            assert(x * pow2(e) >= 2) by (nonlinear_arith)
                requires x > 1, pow2(e) >= 1;
        } else {
            assert(pow2(e) == 2 * pow2((e - 1) as nat));
            assert(pow2(k) == 2 * pow2((k - 1) as nat));
            assert(x * pow2((e - 1) as nat) == pow2((k - 1) as nat)) by (nonlinear_arith)
                requires x * pow2(e) == pow2(k), pow2(e) == 2 * pow2((e - 1) as nat), pow2(k) == 2 * pow2((k - 1) as nat);
            lemma_odd_factor(x, (e - 1) as nat, (k - 1) as nat, pow2((k - 1) as nat));
        }
    }
}

impl Default for AgeCounter {
    fn default() -> (r: Self)
        ensures
            r.0 == MIN_AGE_COUNTER_VALUE,
    {
        AgeCounter(MIN_AGE_COUNTER_VALUE)
    }
}

/// Proves that the minimum counter stands for the minimum age.
pub proof fn lemma_min_age_counter()
    ensures
        AgeCounter(MIN_AGE_COUNTER_VALUE).age_spec() == MIN_AGE as nat,
        AgeCounter::from_age_spec(MIN_AGE) == MIN_AGE_COUNTER_VALUE,
{
    lemma_log2_pow2(4);
    reveal_with_fuel(pow2, 5);
}

/// Membership state of a node in our section.
#[derive(Clone, Copy, Debug, PartialEq, Eq, Structural, Hash)]
pub enum MemberState {
    Joined,
    Relocating,
    Left,
}

/// The tag of a membership state in signed bytes.
pub open spec fn state_tag(state: MemberState) -> u8 {
    match state {
        MemberState::Joined => 0,
        MemberState::Relocating => 1,
        MemberState::Left => 2,
    }
}

/// The bytes signed to prove a member's state: its name, then its state.
pub open spec fn to_sign_spec(name: Seq<u8>, state: MemberState) -> Seq<u8> {
    enc_bytes(name) + seq![state_tag(state)]
}

/// Returns the bytes of `MemberInfo` that are signed: the name and the state.
pub fn to_sign(name: &XorName, state: MemberState) -> (r: Vec<u8>)
    ensures
        r@ == to_sign_spec(name@, state),
{
    let mut out: Vec<u8> = Vec::new();
    put_bytes(&mut out, name.as_slice());
    let tag: u8 = match state {
        MemberState::Joined => 0,
        MemberState::Relocating => 1,
        MemberState::Left => 2,
    };
    put_u8(&mut out, tag);
    assert(out@ =~= to_sign_spec(name@, state));
    out
}

/// A section signature over some bytes, with the key that made it.
#[derive(Debug)]
pub struct Proof {
    pub public_key: SectionKey,
    pub signature: Vec<u8>,
}

impl Proof {
    /// Returns whether the signature is valid over `bytes`.
    pub fn verify(&self, bytes: &[u8]) -> (r: bool)
        ensures
            r == bls_valid(self.public_key@, self.signature@, bytes@),
    {
        bls_verify(self.public_key.as_slice(), self.signature.as_slice(), bytes)
    }
}

/// Information about a member of our section.
#[derive(Debug)]
pub struct MemberInfo {
    pub age_counter: AgeCounter,
    pub state: MemberState,
    pub p2p_node: P2pNode,
    pub proof: Proof,
}

impl MemberInfo {
    /// Creates the information of a joined member of the given age.
    pub fn new(age: u8, p2p_node: P2pNode, proof: Proof) -> (r: Self)
        ensures
            r.age_counter.0 == AgeCounter::from_age_spec(age),
            r.state == MemberState::Joined,
            r.p2p_node == p2p_node,
            r.proof == proof,
    {
        MemberInfo { age_counter: AgeCounter::from_age(age), state: MemberState::Joined, p2p_node, proof }
    }

    /// The member's age.
    pub fn age(&self) -> (r: u8)
        ensures
            r as nat == self.age_counter.age_spec(),
    {
        self.age_counter.age()
    }

    /// Sets the member's age, raised to `MIN_AGE`.
    pub fn set_age(&mut self, age: u8)
        ensures
            final(self).age_counter.0 == AgeCounter::from_age_spec(age),
            final(self).state == old(self).state,
    {
        self.age_counter = AgeCounter::from_age(age);
    }

    /// Increments the age counter; returns whether the age grew.
    pub fn increment_age_counter(&mut self) -> (r: bool)
        ensures
            old(self).age_counter.0 < u32::MAX ==> final(self).age_counter.0 == old(self).age_counter.0 + 1
                && r == is_power_of_two(final(self).age_counter.0 as nat),
            old(self).age_counter.0 == u32::MAX ==> final(self).age_counter.0 == u32::MAX && !r,
    {
        self.age_counter.increment()
    }

    /// Moves the member to the next age.
    pub fn increment_age(&mut self)
        ensures
            final(self).age_counter.0 == AgeCounter::from_age_spec(
                if old(self).age_counter.age_spec() < 255 { (old(self).age_counter.age_spec() + 1) as u8 } else { 255u8 },
            ),
    {
        let age = self.age_counter.age();
        let next: u8 = if age < 255 { age + 1 } else { 255 };
        self.age_counter = AgeCounter::from_age(next);
    }

    /// Whether the member is past the infant ages, which end at `MIN_AGE`: its counter is at
    /// least `2^(MIN_AGE + 1)`.
    pub fn is_mature(&self) -> (r: bool)
        ensures
            r == (self.age_counter.0 >= 32),
    {
        self.age_counter.0 >= 32
    }

    /// The raw value of the age counter.
    pub fn age_counter_value(&self) -> (r: u32)
        ensures
            r == self.age_counter.0,
    {
        self.age_counter.0
    }

    /// Returns whether the proof is by a key of our `history` over the member's name and
    /// state.
    pub fn verify(&self, history: &SectionProofChain) -> (r: bool)
        ensures
            r == (history.keys_view().contains(self.proof.public_key@)
                && bls_valid(self.proof.public_key@, self.proof.signature@, to_sign_spec(self.p2p_node.public_id.name@, self.state))),
    {
        let bytes = to_sign(self.p2p_node.name(), self.state);
        history.has_key(self.proof.public_key.as_slice()) && self.proof.verify(bytes.as_slice())
    }
}

} // verus!
