use vstd::prelude::*;

verus! {

/// A gossip message about one room's vibe, with a time-to-live.
#[derive(Debug, Clone)]
pub struct Murmur<T> {
    pub source: usize,
    pub vibe: T,
    pub surprise: T,
    pub tick: u64,
    pub ttl: u32,
}

/// The time-to-live after one decay step: one less, but never below zero.
pub open spec fn decayed_ttl(ttl: u32) -> u32 {
    if ttl > 0 {
        (ttl - 1) as u32
    } else {
        0
    }
}

/// The time-to-live after `k` decay steps.
pub open spec fn ttl_after(ttl: u32, k: nat) -> u32
    decreases k,
{
    if k == 0 {
        ttl
    } else {
        decayed_ttl(ttl_after(ttl, (k - 1) as nat))
    }
}

impl<T> Murmur<T> {
    /// Lowers the time-to-live by one, stopping at zero.
    pub fn decay(&mut self)
        ensures
            final(self).ttl == decayed_ttl(old(self).ttl),
            final(self).source == old(self).source,
            final(self).vibe == old(self).vibe,
            final(self).surprise == old(self).surprise,
            final(self).tick == old(self).tick,
    {
        if self.ttl > 0 {
            self.ttl -= 1;
        }
    }

    /// A murmur is alive while its time-to-live is positive.
    pub fn is_alive(&self) -> (alive: bool)
        ensures
            alive == (self.ttl > 0),
    {
        self.ttl > 0
    }
}

/// Decaying `k` times takes `k` off the time-to-live, down to zero and no
/// further, so a murmur decayed at least `ttl` times is no longer alive.
pub proof fn lemma_decay_expires(ttl: u32, k: nat)
    ensures
        ttl_after(ttl, k) == (if k >= ttl { 0 } else { ttl - k }),
        k >= ttl ==> !(ttl_after(ttl, k) > 0),
    decreases k,
{
    if k > 0 {
        lemma_decay_expires(ttl, (k - 1) as nat);
    }
}

} // verus!
