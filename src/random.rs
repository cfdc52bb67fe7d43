//! Sources of random draws, passed explicitly to the operations that need
//! them so that a fixed sequence can stand in for the thread generator.
use vstd::prelude::*;

verus! {

/// A source of uniformly distributed draws.
pub trait RandomSource {
    /// A number in `0..n`.
    fn below(&mut self, n: u64) -> (r: u64)
        requires
            n > 0,
        ensures
            r < n,
    ;
}

/// Relies on `rand::Rng::gen_range` on `rand::thread_rng()`: for a range
/// `0..n` it returns a value in that range, and it panics only on an empty
/// range, which `n > 0` excludes.
#[verifier::external_body]
fn thread_below(n: u64) -> (r: u64)
    requires
        n > 0,
    ensures
        r < n,
{
    rand::Rng::gen_range(&mut rand::thread_rng(), 0..n)
}

/// Draws from the thread-local generator.
pub struct ThreadRandom {}

impl ThreadRandom {
    pub fn new() -> ThreadRandom {
        ThreadRandom {}
    }
}

impl RandomSource for ThreadRandom {
    fn below(&mut self, n: u64) -> (r: u64) {
        thread_below(n)
    }
}

/// Replays a fixed list of values, cycling, each reduced modulo the bound
/// asked for; an empty list always yields zero.
pub struct ScriptedRandom {
    values: Vec<u64>,
    next: usize,
}

impl ScriptedRandom {
    /// The values replayed.
    pub closed spec fn script(&self) -> Seq<u64> {
        self.values@
    }

    /// Index of the value that the next draw starts from.
    pub closed spec fn cursor(&self) -> nat {
        self.next as nat
    }

    pub fn new(values: Vec<u64>) -> (s: ScriptedRandom)
        ensures
            s.script() == values@,
            s.cursor() == 0,
    {
        ScriptedRandom { values, next: 0 }
    }
}

impl RandomSource for ScriptedRandom {
    fn below(&mut self, n: u64) -> (r: u64) {
        if self.next >= self.values.len() {
            self.next = 0;
        }
        if self.values.len() == 0 {
            return 0;
        }
        let v = self.values[self.next] % n;
        self.next = self.next + 1;
        v
    }
}

} // verus!
