use vstd::prelude::*;

use crate::jepa::Jepa;

verus! {

/// A room: an id, one vibe value, its own predictor, and the surprise that
/// its last tick reported.
#[derive(Debug, Clone)]
pub struct Room<T> {
    pub id: usize,
    pub vibe: T,
    pub jepa: Jepa<T>,
    pub last_surprise: T,
}

impl<T: Default> Room<T> {
    /// A room with the given id and vibe, an empty predictor that keeps the
    /// newest `window` readings (at least one), and the default value as its
    /// last surprise.
    pub fn new(id: usize, vibe: T, window: usize) -> (room: Room<T>)
        ensures
            room.id == id,
            room.vibe == vibe,
            room.jepa@.readings.len() == 0,
            room.jepa@.weights.len() == 0,
            room.jepa@.window == (if window >= 1 { window } else { 1 }),
            call_ensures(T::default, (), room.last_surprise),
    {
        Room { id, vibe, jepa: Jepa::new(window), last_surprise: T::default() }
    }
}

impl<T: Copy> Room<T> {
    /// One tick of the room: its predictor reads `(timestamp, vibe)` with the
    /// given weight, and `surprise`, what the predictor made of the vibe
    /// before that reading, becomes the room's last surprise and is returned.
    pub fn tick(&mut self, timestamp: T, surprise: T, weight: T) -> (reported: T)
        ensures
            reported == surprise,
            final(self).id == old(self).id,
            final(self).vibe == old(self).vibe,
            final(self).jepa@ == old(self).jepa@.after_read((timestamp, old(self).vibe), weight),
            final(self).last_surprise == surprise,
    {
        let vibe = self.vibe;
        self.jepa.read(timestamp, vibe, weight);
        self.last_surprise = surprise;
        surprise
    }
}

} // verus!
