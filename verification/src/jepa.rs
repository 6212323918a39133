use vstd::prelude::*;

verus! {

/// The last `n` items of `s`, or all of `s` where it holds no more than `n`.
pub open spec fn keep_last<A>(s: Seq<A>, n: nat) -> Seq<A> {
    if s.len() <= n {
        s
    } else {
        s.subrange(s.len() - n, s.len() as int)
    }
}

/// A predictor seen as mathematical values: its readings as
/// `(timestamp, value)` pairs, oldest first, one weight per reading, and the
/// number of readings it keeps.
pub struct JepaModel<T> {
    pub readings: Seq<(T, T)>,
    pub weights: Seq<T>,
    pub window: nat,
}

impl<T> JepaModel<T> {
    /// The shape every predictor keeps: one weight per reading, no more
    /// readings than the window, and a window of at least one.
    pub open spec fn well_formed(self) -> bool {
        &&& self.readings.len() == self.weights.len()
        &&& self.readings.len() <= self.window
        &&& self.window >= 1
    }

    /// The predictor after it takes one reading with the given weight: the
    /// reading and its weight go to the end, and only the newest `window`
    /// of each are kept.
    pub open spec fn after_read(self, reading: (T, T), weight: T) -> JepaModel<T> {
        JepaModel {
            readings: keep_last(self.readings.push(reading), self.window),
            weights: keep_last(self.weights.push(weight), self.window),
            window: self.window,
        }
    }

    /// The predictor after it takes each reading of `inputs` in turn, each
    /// `(reading, weight)`.
    pub open spec fn after_reads(self, inputs: Seq<((T, T), T)>) -> JepaModel<T>
        decreases inputs.len(),
    {
        if inputs.len() == 0 {
            self
        } else {
            let last = inputs.last();
            self.after_reads(inputs.drop_last()).after_read(last.0, last.1)
        }
    }
}

/// A windowed predictor for one room: it remembers the newest readings, each
/// with a weight.
#[derive(Debug)]
pub struct Jepa<T> {
    readings: Vec<(T, T)>,
    weights: Vec<T>,
    window: usize,
}

impl<T> View for Jepa<T> {
    type V = JepaModel<T>;

    closed spec fn view(&self) -> JepaModel<T> {
        JepaModel { readings: self.readings@, weights: self.weights@, window: self.window as nat }
    }
}

impl<T> Jepa<T> {
    #[verifier::type_invariant]
    closed spec fn shape(self) -> bool {
        self@.well_formed()
    }

    /// An empty predictor that keeps the newest `window` readings; a window
    /// of zero is taken as one.
    pub fn new(window: usize) -> (jepa: Jepa<T>)
        ensures
            jepa@.readings.len() == 0,
            jepa@.weights.len() == 0,
            jepa@.window == (if window >= 1 { window } else { 1 }),
    {
        let window = if window >= 1 { window } else { 1 };
        Jepa { readings: Vec::new(), weights: Vec::new(), window }
    }

    /// Takes the reading `(timestamp, value)` with its weight; where that
    /// makes more readings than the window, the oldest reading and its
    /// weight are dropped.
    pub fn read(&mut self, timestamp: T, value: T, weight: T)
        ensures
            final(self)@ == old(self)@.after_read((timestamp, value), weight),
            final(self)@.window == old(self)@.window,
            old(self)@.readings.len() < old(self)@.window ==> {
                &&& final(self)@.readings == old(self)@.readings.push((timestamp, value))
                &&& final(self)@.weights == old(self)@.weights.push(weight)
            },
            old(self)@.readings.len() == old(self)@.window ==> {
                &&& final(self)@.readings == old(self)@.readings.drop_first().push(
                    (timestamp, value),
                )
                &&& final(self)@.weights == old(self)@.weights.drop_first().push(weight)
            },
    {
        proof {
            use_type_invariant(&*self);
            lemma_read_drops_oldest_when_full(self@, (timestamp, value), weight);
        }
        let mut taken = Jepa { readings: Vec::new(), weights: Vec::new(), window: self.window };
        std::mem::swap(&mut taken, self);
        let Jepa { mut readings, mut weights, window } = taken;
        readings.push((timestamp, value));
        weights.push(weight);
        if readings.len() > window {
            readings.remove(0);
            weights.remove(0);
        }
        *self = Jepa { readings, weights, window };
    }
    /// Sets the weight of the reading at `index`; the readings stay as they are.
    pub fn set_weight(&mut self, index: usize, weight: T)
        requires
            index < old(self)@.weights.len(),
        ensures
            final(self)@.readings == old(self)@.readings,
            final(self)@.weights == old(self)@.weights.update(index as int, weight),
            final(self)@.window == old(self)@.window,
    {
        proof {
            use_type_invariant(&*self);
        }
        let mut taken = Jepa { readings: Vec::new(), weights: Vec::new(), window: self.window };
        std::mem::swap(&mut taken, self);
        let Jepa { readings, mut weights, window } = taken;
        weights.set(index, weight);
        *self = Jepa { readings, weights, window };
    }

    /// The readings, oldest first.
    pub fn readings(&self) -> (readings: &Vec<(T, T)>)
        ensures
            readings@ == self@.readings,
    {
        &self.readings
    }

    /// The weights, one per reading, in the order of the readings.
    pub fn weights(&self) -> (weights: &Vec<T>)
        ensures
            weights@ == self@.weights,
    {
        &self.weights
    }

    /// How many readings the predictor keeps.
    pub fn window(&self) -> (window: usize)
        ensures
            window == self@.window,
            window >= 1,
    {
        proof {
            use_type_invariant(self);
        }
        self.window
    }

    /// How many readings the predictor holds now: as many as it has
    /// weights, and no more than its window.
    pub fn len(&self) -> (len: usize)
        ensures
            len == self@.readings.len(),
            len == self@.weights.len(),
            len <= self@.window,
            self@.window >= 1,
    {
        proof {
            use_type_invariant(self);
        }
        self.readings.len()
    }
}

impl<T: Copy> Jepa<T> {
    /// The value of the newest reading, or `None` where there is none.
    pub fn last_value(&self) -> (value: Option<T>)
        ensures
            value == (if self@.readings.len() == 0 {
                None
            } else {
                Some(self@.readings.last().1)
            }),
    {
        let len = self.readings.len();
        if len == 0 {
            None
        } else {
            Some(self.readings[len - 1].1)
        }
    }
}

impl<T: Clone> Clone for Jepa<T> {
    /// A copy with the same window and, reading by reading, clones of the
    /// readings and weights.
    fn clone(&self) -> (copy: Self)
        ensures
            copy@.window == self@.window,
            copy@.readings.len() == self@.readings.len(),
            copy@.weights.len() == self@.weights.len(),
            forall|i: int|
                0 <= i < self@.readings.len() ==> cloned::<(T, T)>(
                    self@.readings[i],
                    #[trigger] copy@.readings[i],
                ),
            forall|i: int|
                0 <= i < self@.weights.len() ==> cloned::<T>(
                    self@.weights[i],
                    #[trigger] copy@.weights[i],
                ),
    {
        proof {
            use_type_invariant(self);
        }
        Jepa { readings: self.readings.clone(), weights: self.weights.clone(), window: self.window }
    }
}

/// Keeping the last `n` items, then adding one and keeping the last `n`
/// again, is the same as adding the item and keeping the last `n`.
proof fn lemma_keep_last_push<A>(s: Seq<A>, x: A, n: nat)
    requires
        n >= 1,
    ensures
        keep_last(keep_last(s, n).push(x), n) == keep_last(s.push(x), n),
{
    if s.len() >= n {
        assert(keep_last(keep_last(s, n).push(x), n) =~= keep_last(s.push(x), n));
    }
}

/// The readings of a predictor are always the newest `window` of all the
/// readings it was given, oldest first, and so are the weights; every read
/// keeps its shape.
pub proof fn lemma_reads_keep_newest<T>(m: JepaModel<T>, inputs: Seq<((T, T), T)>)
    requires
        m.well_formed(),
    ensures
        m.after_reads(inputs).well_formed(),
        m.after_reads(inputs).window == m.window,
        m.after_reads(inputs).readings == keep_last(
            m.readings + inputs.map_values(|input: ((T, T), T)| input.0),
            m.window,
        ),
        m.after_reads(inputs).weights == keep_last(
            m.weights + inputs.map_values(|input: ((T, T), T)| input.1),
            m.window,
        ),
    decreases inputs.len(),
{
    let fst = |input: ((T, T), T)| input.0;
    let snd = |input: ((T, T), T)| input.1;
    if inputs.len() == 0 {
        assert(m.readings + inputs.map_values(fst) =~= m.readings);
        assert(m.weights + inputs.map_values(snd) =~= m.weights);
    } else {
        let rest = inputs.drop_last();
        let last = inputs.last();
        lemma_reads_keep_newest(m, rest);
        lemma_keep_last_push(m.readings + rest.map_values(fst), last.0, m.window);
        lemma_keep_last_push(m.weights + rest.map_values(snd), last.1, m.window);
        assert((m.readings + rest.map_values(fst)).push(last.0) =~= m.readings
            + inputs.map_values(fst));
        assert((m.weights + rest.map_values(snd)).push(last.1) =~= m.weights
            + inputs.map_values(snd));
    }
}

/// `keep_last(s, n)` is the suffix of `s` of length `min(s.len(), n)`:
/// its `i`-th item is the item that many places from the end of `s`.
pub proof fn lemma_keep_last_is_suffix<A>(s: Seq<A>, n: nat)
    ensures
        keep_last(s, n).len() == (if s.len() <= n { s.len() } else { n }),
        forall|i: int|
            0 <= i < keep_last(s, n).len() ==> #[trigger] keep_last(s, n)[i] == s[s.len()
                - keep_last(s, n).len() + i],
{
}

/// One read puts the new reading and weight last. While the window has
/// room, nothing else changes; once it is full, the oldest reading and
/// weight are dropped and the rest keep their order.
pub proof fn lemma_read_drops_oldest_when_full<T>(m: JepaModel<T>, reading: (T, T), weight: T)
    requires
        m.well_formed(),
    ensures
        m.after_read(reading, weight).readings.last() == reading,
        m.after_read(reading, weight).weights.last() == weight,
        m.after_read(reading, weight).window == m.window,
        m.after_read(reading, weight).well_formed(),
        m.readings.len() < m.window ==> {
            &&& m.after_read(reading, weight).readings == m.readings.push(reading)
            &&& m.after_read(reading, weight).weights == m.weights.push(weight)
        },
        m.readings.len() == m.window ==> {
            &&& m.after_read(reading, weight).readings == m.readings.drop_first().push(reading)
            &&& m.after_read(reading, weight).weights == m.weights.drop_first().push(weight)
        },
{
    let after = m.after_read(reading, weight);
    lemma_keep_last_is_suffix(m.readings.push(reading), m.window);
    lemma_keep_last_is_suffix(m.weights.push(weight), m.window);
    if m.readings.len() == m.window {
        assert(after.readings =~= m.readings.drop_first().push(reading));
        assert(after.weights =~= m.weights.drop_first().push(weight));
    }
}

/// A predictor with a window of one holds only the newest reading.
pub proof fn lemma_window_one_keeps_last<T>(m: JepaModel<T>, reading: (T, T), weight: T)
    requires
        m.well_formed(),
        m.window == 1,
    ensures
        m.after_read(reading, weight).readings == seq![reading],
        m.after_read(reading, weight).weights == seq![weight],
{
    assert(m.after_read(reading, weight).readings =~= seq![reading]);
    assert(m.after_read(reading, weight).weights =~= seq![weight]);
}

} // verus!
