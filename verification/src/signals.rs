//! The named-signal bus that routing results are published on.
//!
//! Each unordered switch pair publishes two boolean signals, one per
//! direction, identified by the ordered pair of external switch
//! identifiers.  The bus is modeled as the log of writes it has received;
//! reading a signal yields the value of its latest write, or `false` for a
//! signal never written, matching a bus whose variables start cleared.

use vstd::prelude::*;

verus! {

/// One boolean write on the bus: "switch `from_id` reaches switch `to_id`".
#[derive(Clone, Copy, PartialEq, Eq, Structural, Debug)]
pub struct Signal {
    pub from_id: u8,
    pub to_id: u8,
    pub value: bool,
}

/// The value an ordered identifier pair carries after the writes in `log`:
/// the latest write to that pair, or `false` if it was never written.
pub open spec fn signal_value(log: Seq<Signal>, from_id: int, to_id: int) -> bool
    decreases log.len(),
{
    if log.len() == 0 {
        false
    } else if log.last().from_id == from_id && log.last().to_id == to_id {
        log.last().value
    } else {
        signal_value(log.drop_last(), from_id, to_id)
    }
}

/// Opposite directions of every identifier pair carry equal values.
pub open spec fn symmetric_signals(log: Seq<Signal>) -> bool {
    forall|x: int, y: int| signal_value(log, x, y) == signal_value(log, y, x)
}

/// Collects the boolean signals published to it and answers reads from the
/// latest write of each signal.
pub struct SignalWriter {
    log: Vec<Signal>,
}

impl SignalWriter {
    /// The full write log, oldest first.
    pub closed spec fn log(&self) -> Seq<Signal> {
        self.log@
    }

    /// A bus with no writes yet: every signal reads `false`.
    pub fn new() -> (w: Self)
        ensures
            w.log() == Seq::<Signal>::empty(),
    {
        SignalWriter { log: Vec::new() }
    }

    /// Publishes one directed reachability signal.
    pub fn write(&mut self, from_id: u8, to_id: u8, value: bool)
        ensures
            final(self).log() == old(self).log().push(Signal { from_id, to_id, value }),
    {
        self.log.push(Signal { from_id, to_id, value });
    }

    /// How many writes the bus has received.
    pub fn write_count(&self) -> (count: usize)
        ensures
            count == self.log().len(),
    {
        self.log.len()
    }

    /// The current value of a directed reachability signal.
    pub fn read(&self, from_id: u8, to_id: u8) -> (value: bool)
        ensures
            value == signal_value(self.log(), from_id as int, to_id as int),
    {
        let mut k: usize = self.log.len();
        proof {
            assert(self.log@.take(k as int) =~= self.log@);
        }
        while k > 0
            invariant
                k <= self.log@.len(),
                signal_value(self.log@, from_id as int, to_id as int) == signal_value(
                    self.log@.take(k as int),
                    from_id as int,
                    to_id as int,
                ),
            decreases k,
        {
            let s = &self.log[k - 1];
            if s.from_id == from_id && s.to_id == to_id {
                proof {
                    assert(self.log@.take(k as int).last() == self.log@[k - 1]);
                }
                return s.value;
            }
            proof {
                assert(self.log@.take(k as int).last() == self.log@[k - 1]);
                assert(self.log@.take(k as int).drop_last() =~= self.log@.take(k - 1));
            }
            k = k - 1;
        }
        proof {
            assert(self.log@.take(0).len() == 0);
        }
        false
    }
}

} // verus!
