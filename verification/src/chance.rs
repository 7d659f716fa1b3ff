//! The random source that the plugins draw from.
use vstd::prelude::*;
use random::Source;

verus! {

/// `random`'s default source (Xorshift128+). Every instance in a thread
/// shares one generator, seeded alike in each thread.
#[verifier::external_type_specification]
#[verifier::external_body]
pub struct ExDefault(random::Default);

/// Calls `random::Default::new`. Nothing is stated of the source: its state
/// is shared with every other source of the thread.
#[verifier::external_body]
fn default_source() -> random::Default {
    random::Default::new()
}

/// Calls `Source::read_u64`: any `u64` may come back.
#[verifier::external_body]
fn read_u64(source: &mut random::Default) -> u64 {
    source.read_u64()
}

/// A random source that counts the numbers drawn from it. The only way to
/// draw is [`RandomSource::next`], so the count is the number of reads of
/// the shared generator made through this source.
pub struct RandomSource {
    source: random::Default,
    reads: Ghost<nat>,
}

impl RandomSource {
    /// How many numbers have been drawn from this source.
    pub closed spec fn reads(&self) -> nat {
        self.reads@
    }

    /// A source of the thread's generator, with nothing drawn yet.
    pub fn new() -> (r: Self)
        ensures
            r.reads() == 0,
    {
        RandomSource { source: default_source(), reads: Ghost(0) }
    }

    /// Draws one number; any `u64` may come back.
    pub fn next(&mut self) -> (r: u64)
        ensures
            final(self).reads() == old(self).reads() + 1,
    {
        let r = read_u64(&mut self.source);
        self.reads = Ghost(self.reads@ + 1);
        r
    }
}

} // verus!
