//! A stand-in for the canisters that the relay calls: it answers the three methods
//! the relay forwards to, and records which was called and how many cycles were
//! attached.

use vstd::prelude::*;

verus! {

/// The calls that the stand-in has seen.
#[derive(Debug)]
pub struct MockDownstream {
    calls: u64,
    last_cycles: u64,
    last_method: String,
}

/// What the stand-in has recorded, as values.
pub struct MockState {
    pub calls: nat,
    pub last_cycles: u64,
    pub last_method: Seq<char>,
}

impl View for MockDownstream {
    type V = MockState;

    closed spec fn view(&self) -> MockState {
        MockState {
            calls: self.calls as nat,
            last_cycles: self.last_cycles,
            last_method: self.last_method@,
        }
    }
}

impl MockState {
    /// The record after a call of `method` with `cycles`, of which the low 64 bits
    /// are kept.
    pub open spec fn seen(self, method: Seq<char>, cycles: u128) -> MockState {
        MockState {
            calls: self.calls + 1,
            last_cycles: (cycles as int % 0x1_0000_0000_0000_0000) as u64,
            last_method: method,
        }
    }
}

/// A call is counted, and its method and its cycles are what is recorded last: all
/// cycles, up to whole multiples of what 64 bits can count.
pub proof fn a_call_is_recorded(m: MockState, method: Seq<char>, cycles: u128)
    ensures
        m.seen(method, cycles).calls == m.calls + 1,
        m.seen(method, cycles).last_method == method,
        cycles <= u64::MAX ==> m.seen(method, cycles).last_cycles == cycles,
        (cycles - m.seen(method, cycles).last_cycles) % (u64::MAX + 1) == 0,
{
}

impl MockDownstream {
    /// A stand-in that was not called yet.
    pub fn new() -> (m: MockDownstream)
        ensures
            m@ == (MockState { calls: 0, last_cycles: 0, last_method: Seq::empty() }),
    {
        MockDownstream { calls: 0, last_cycles: 0, last_method: String::new() }
    }

    /// Records a call of `method` with `cycles`.
    pub fn record(&mut self, method: &str, cycles: u128)
        requires
            old(self)@.calls < u64::MAX,
        ensures
            final(self)@ == old(self)@.seen(method@, cycles),
    {
        self.calls = self.calls + 1;
        assert(cycles as u64 == cycles % 0x1_0000_0000_0000_0000u128) by (bit_vector);
        self.last_cycles = cycles as u64;
        self.last_method = method.to_owned();
    }

    /// Index role: folds a signature.
    pub fn ingest(&mut self, cycles: u128) -> (r: u8)
        requires
            old(self)@.calls < u64::MAX,
        ensures
            r == 0,
            final(self)@ == old(self)@.seen("ingest"@, cycles),
    {
        self.record("ingest", cycles);
        0
    }

    /// Game role: the signature of a verdict.
    pub fn request_signature(&mut self, cycles: u128)
        requires
            old(self)@.calls < u64::MAX,
        ensures
            final(self)@ == old(self)@.seen("request_signature"@, cycles),
    {
        self.record("request_signature", cycles);
    }

    /// Game role: takes an index root.
    pub fn push_root(&mut self, cycles: u128)
        requires
            old(self)@.calls < u64::MAX,
        ensures
            final(self)@ == old(self)@.seen("push_root"@, cycles),
    {
        self.record("push_root", cycles);
    }

    /// How many calls were seen.
    pub fn calls(&self) -> (r: u64)
        ensures
            r == self@.calls,
    {
        self.calls
    }

    /// The cycles of the last call.
    pub fn last_cycles(&self) -> (r: u64)
        ensures
            r == self@.last_cycles,
    {
        self.last_cycles
    }

    /// The method of the last call.
    pub fn last_method(&self) -> (r: String)
        ensures
            r@ == self@.last_method,
    {
        self.last_method.clone()
    }
}

} // verus!
