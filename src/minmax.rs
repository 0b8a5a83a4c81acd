use vstd::prelude::*;

verus! {

/// Smallest value of a non-empty sequence of readings.
pub open spec fn seq_min(s: Seq<u32>) -> u32
    decreases s.len(),
{
    if s.len() <= 1 {
        if s.len() == 0 { u32::MAX } else { s[0] }
    } else {
        let m = seq_min(s.drop_last());
        if s.last() < m { s.last() } else { m }
    }
}

/// Largest value of a sequence of readings, `0` for none.
pub open spec fn seq_max(s: Seq<u32>) -> u32
    decreases s.len(),
{
    if s.len() == 0 {
        0
    } else {
        let m = seq_max(s.drop_last());
        if s.last() > m { s.last() } else { m }
    }
}

/// Extremes observed over a stream of readings.
///
/// Before the first reading it holds the sentinel `min == u32::MAX`,
/// `max == 0`; after at least one reading `min <= max`.
#[derive(Debug, Clone, Copy, PartialEq, Eq)]
pub struct MinMaxValues {
    pub min: u32,
    pub max: u32,
}

impl MinMaxValues {
    /// The extremes of exactly the readings in `s`.
    pub open spec fn covers(self, s: Seq<u32>) -> bool {
        self.min == seq_min(s) && self.max == seq_max(s)
    }

    /// The sentinel that has seen no reading.
    pub fn empty() -> (r: MinMaxValues)
        ensures
            r.min == u32::MAX,
            r.max == 0,
            r.covers(Seq::empty()),
    {
        MinMaxValues { min: u32::MAX, max: 0 }
    }

    /// Takes one more reading into account.
    pub fn observe(&mut self, value: u32)
        ensures
            final(self).min == if value < old(self).min { value } else { old(self).min },
            final(self).max == if value > old(self).max { value } else { old(self).max },
            final(self).min <= value <= final(self).max,
    {
        if value < self.min {
            self.min = value;
        }
        if value > self.max {
            self.max = value;
        }
    }

    /// The extremes of a whole sequence of readings.
    pub fn of_values(values: &[u32]) -> (r: MinMaxValues)
        ensures
            r.covers(values@),
            values@.len() > 0 ==> r.min <= r.max,
    {
        let mut acc = MinMaxValues::empty();
        let mut i: usize = 0;
        while i < values.len()
            invariant
                i <= values@.len(),
                acc.covers(values@.subrange(0, i as int)),
                i > 0 ==> acc.min <= acc.max,
            decreases values@.len() - i,
        {
            proof {
                let s = values@.subrange(0, i as int + 1);
                assert(s.drop_last() =~= values@.subrange(0, i as int));
                assert(s.last() == values@[i as int]);
            }
            acc.observe(values[i]);
            i = i + 1;
        }
        assert(values@.subrange(0, values@.len() as int) =~= values@);
        acc
    }
}

} // verus!
