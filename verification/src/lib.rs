//! A supervisory control plane for governed motion.
//!
//! An intent is evaluated against policy before any planner or driver is
//! touched. The planner and driver entry points of a [`fsm::Manipulator`]
//! take an [`policy::Approved`] token, and only [`policy::evaluate`] can mint
//! one, so actuating on a refused or unanswered intent does not type-check.
//!
//! Durations and timestamps are whole milliseconds throughout.

pub mod cell;
pub mod fault;
pub mod fsm;
pub mod invariants;
pub mod log;
pub mod policy;

pub use fault::Fault;
pub use fsm::{Agent, Governed, Manipulator, State};
pub use log::{Event, EventKind, EventLog};
pub use policy::{Approved, Evaluator, PolicyId, Refusal, WorldFacts, POLICY_IDS};

use vstd::prelude::*;

verus! {

/// Stations in the workcell, as plain indices.
pub const N_STATIONS: usize = 4;

pub type IntentId = u32;

/// The dwell every new intent starts with.
pub const DEFAULT_DWELL_MS: u32 = 4000;

/// A governed intent: everything policy needs in order to decide before
/// anything moves.
#[derive(Debug, PartialEq)]
pub struct Intent {
    pub id: IntentId,
    /// Correlates every event this intent produces.
    pub trace: String,
    pub source: usize,
    pub dest: usize,
    pub plate: u32,
    /// A governed intent carries its descriptor; one that does not is refused.
    pub descriptor: bool,
    pub operator_authorized: bool,
    /// How long the sample would sit outside its controlled environment.
    pub dwell_ms: u32,
}

/// The lowercase hexadecimal digit for `d`.
pub open spec fn hex_char(d: nat) -> char {
    if d < 10 {
        ((d + 48) as u8) as char
    } else {
        ((d - 10 + 97) as u8) as char
    }
}

/// The lowercase hexadecimal digits of `n`, most significant first, without
/// leading zeros (`0` is the single digit `0`).
pub open spec fn hex(n: nat) -> Seq<char>
    decreases n,
{
    if n < 16 {
        seq![hex_char(n)]
    } else {
        hex(n / 16).push(hex_char(n % 16))
    }
}

/// `hex(n)` left-padded with zeros to at least four digits.
pub open spec fn hex4(n: nat) -> Seq<char> {
    let h = hex(n);
    if h.len() < 4 {
        Seq::new((4 - h.len()) as nat, |i: int| '0') + h
    } else {
        h
    }
}

/// The trace id of intent `id`: `tr-` and its id as four or more hex digits.
pub open spec fn spec_trace(id: u32) -> Seq<char> {
    seq!['t', 'r', '-'] + hex4(id as nat)
}

proof fn lemma_hex_len(n: nat)
    ensures
        hex(n).len() >= 1,
        n < 16 ==> hex(n).len() == 1,
        16 <= n < 256 ==> hex(n).len() == 2,
        256 <= n < 4096 ==> hex(n).len() == 3,
        4096 <= n ==> hex(n).len() >= 4,
    decreases n,
{
    if n >= 16 {
        lemma_hex_len(n / 16);
    }
}

fn hex_digit(d: u32) -> (r: &'static str)
    requires
        d < 16,
    ensures
        r@ == seq![hex_char(d as nat)],
{
    proof {
        reveal_strlit("0");
        reveal_strlit("1");
        reveal_strlit("2");
        reveal_strlit("3");
        reveal_strlit("4");
        reveal_strlit("5");
        reveal_strlit("6");
        reveal_strlit("7");
        reveal_strlit("8");
        reveal_strlit("9");
        reveal_strlit("a");
        reveal_strlit("b");
        reveal_strlit("c");
        reveal_strlit("d");
        reveal_strlit("e");
        reveal_strlit("f");
    }
    match d {
        0 => "0",
        1 => "1",
        2 => "2",
        3 => "3",
        4 => "4",
        5 => "5",
        6 => "6",
        7 => "7",
        8 => "8",
        9 => "9",
        10 => "a",
        11 => "b",
        12 => "c",
        13 => "d",
        14 => "e",
        _ => "f",
    }
}

fn append_hex(s: &mut String, n: u32)
    ensures
        final(s)@ == old(s)@ + hex(n as nat),
    decreases n,
{
    if n >= 16 {
        append_hex(s, n / 16);
    }
    let d = hex_digit(n % 16);
    s.append(d);
    assert(final(s)@ =~= old(s)@ + hex(n as nat)) by {
        if n >= 16 {
            assert(hex(n as nat) == hex((n / 16) as nat).push(hex_char((n % 16) as nat)));
        }
    }
}

/// The trace id that [`Intent::new`] gives intent `id`.
pub fn trace_for(id: u32) -> (r: String)
    ensures
        r@ == spec_trace(id),
        r@.len() > 0,
{
    proof {
        reveal_strlit("tr-");
        reveal_strlit("0");
        lemma_hex_len(id as nat);
    }
    let mut s = String::from_str("tr-");
    if id < 16 {
        s.append("0");
        s.append("0");
        s.append("0");
    } else if id < 256 {
        s.append("0");
        s.append("0");
    } else if id < 4096 {
        s.append("0");
    }
    append_hex(&mut s, id);
    assert(s@ =~= spec_trace(id));
    s
}

impl Clone for Intent {
    fn clone(&self) -> (r: Self)
        ensures
            r == *self,
    {
        Intent {
            id: self.id,
            trace: self.trace.clone(),
            source: self.source,
            dest: self.dest,
            plate: self.plate,
            descriptor: self.descriptor,
            operator_authorized: self.operator_authorized,
            dwell_ms: self.dwell_ms,
        }
    }
}

impl Intent {
    /// A governed intent with its descriptor, operator authorization and the
    /// default dwell.
    pub fn new(id: IntentId, source: usize, dest: usize, plate: u32) -> (r: Self)
        ensures
            r.id == id,
            r.trace@ == spec_trace(id),
            r.source == source,
            r.dest == dest,
            r.plate == plate,
            r.descriptor,
            r.operator_authorized,
            r.dwell_ms == DEFAULT_DWELL_MS,
    {
        Intent {
            id,
            trace: trace_for(id),
            source,
            dest,
            plate,
            descriptor: true,
            operator_authorized: true,
            dwell_ms: DEFAULT_DWELL_MS,
        }
    }

    /// The same intent without its descriptor.
    pub fn without_descriptor(self) -> (r: Self)
        ensures
            r == (Intent { descriptor: false, ..self }),
    {
        let mut s = self;
        s.descriptor = false;
        s
    }

    /// The same intent with dwell `ms`.
    pub fn with_dwell(self, ms: u32) -> (r: Self)
        ensures
            r == (Intent { dwell_ms: ms, ..self }),
    {
        let mut s = self;
        s.dwell_ms = ms;
        s
    }
}

/// One xorshift64 step (shifts 13, 7, 17).
pub open spec fn xorshift(x: u64) -> u64 {
    let a = x ^ ((x << 13u64) as u64);
    let b = a ^ (a >> 7u64);
    b ^ ((b << 17u64) as u64)
}

/// The state a seed starts from: the seed itself, or a fixed odd constant for
/// zero, which is a fixed point of xorshift.
pub open spec fn seed_state(seed: u64) -> u64 {
    if seed == 0 {
        0x9E3779B97F4A7C15u64
    } else {
        seed
    }
}

/// Xorshift keeps a nonzero state nonzero, so a generator seeded away from
/// zero never falls into the zero fixed point.
pub proof fn xorshift_never_reaches_zero(x: u64)
    requires
        x != 0,
    ensures
        xorshift(x) != 0,
{
    assert(x != 0 ==> x ^ ((x << 13u64) as u64) != 0) by (bit_vector);
    let a = x ^ ((x << 13u64) as u64);
    assert(a != 0 ==> a ^ (a >> 7u64) != 0) by (bit_vector);
    let b = a ^ (a >> 7u64);
    assert(b != 0 ==> b ^ ((b << 17u64) as u64) != 0) by (bit_vector);
}

/// Deterministic xorshift generator, so a re-run tells the same story twice.
#[derive(Debug)]
pub struct Rng(u64);

impl Clone for Rng {
    fn clone(&self) -> (r: Self)
        ensures
            r.state() == self.state(),
    {
        proof {
            use_type_invariant(self);
        }
        Rng(self.0)
    }
}

impl Rng {
    #[verifier::type_invariant]
    spec fn nonzero(self) -> bool {
        self.0 != 0
    }

    /// The current state.
    pub closed spec fn state(self) -> u64 {
        self.0
    }

    pub fn new(seed: u64) -> (r: Self)
        ensures
            r.state() == seed_state(seed),
            r.state() != 0,
    {
        Rng(if seed == 0 { 0x9E3779B97F4A7C15 } else { seed })
    }

    pub fn next_u64(&mut self) -> (r: u64)
        ensures
            r == xorshift(old(self).state()),
            final(self).state() == r,
            r != 0,
    {
        proof {
            use_type_invariant(&*self);
            xorshift_never_reaches_zero(self.0);
        }
        let mut x = self.0;
        x ^= x << 13;
        x ^= x >> 7;
        x ^= x << 17;
        self.0 = x;
        x
    }

    /// Uniform-ish index in `[0, n)`: the next draw modulo `n`.
    pub fn below(&mut self, n: usize) -> (r: usize)
        requires
            n > 0,
        ensures
            r < n,
            r as int == xorshift(old(self).state()) as int % (n as int),
            final(self).state() == xorshift(old(self).state()),
    {
        let x = self.next_u64();
        (x % (n as u64)) as usize
    }
}

} // verus!
