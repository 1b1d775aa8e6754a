//! LED state core.
//!
//! An LED owns one GPIO input line opened with both-edge detection.
//! The state is seeded with the level read at construction, so a
//! just-subscribing client always sees a well-defined value; every
//! edge event then sets the state to the edge's direction.

use vstd::prelude::*;

use crate::buttons::{Active, Bias};
use crate::ids::LedId;

verus! {

/// A GPIO edge event direction.
#[derive(Clone, Copy, Debug, PartialEq, Eq, Structural)]
pub enum Edge {
    /// The line went high.
    Rising,
    /// The line went low.
    Falling,
}

/// Configuration of one LED line.
#[derive(Clone, Debug, PartialEq, Eq)]
pub struct LedConfig {
    /// GPIO chip name
    pub chip: String,
    /// GPIO line offset
    pub line: u32,
    /// GPIO line active state
    pub active: Active,
    /// GPIO line bias
    pub bias: Bias,
}

/// Single LED: the level last observed on its line.
#[derive(Clone, Copy, Debug, PartialEq, Eq, Structural)]
pub struct Led {
    state: bool,
}

impl Led {
    /// The level visible to every reader.
    pub closed spec fn state_spec(&self) -> bool {
        self.state
    }

    /// Instantiate an LED, seeded with the level read at
    /// construction.
    pub fn new(initial: bool) -> (r: Led)
        ensures
            r.state_spec() == initial,
    {
        Led { state: initial }
    }

    /// Get current state
    pub fn state(&self) -> (r: bool)
        ensures
            r == self.state_spec(),
    {
        self.state
    }

    /// Apply an edge event: a rising edge lights the LED, a falling
    /// edge clears it.
    pub fn apply_edge(&mut self, edge: Edge) -> (r: bool)
        ensures
            final(self).state_spec() == (edge is Rising),
            r == final(self).state_spec(),
    {
        self.state = match edge {
            Edge::Rising => true,
            Edge::Falling => false,
        };
        self.state
    }
}

/// A collection of LEDs with unique identifiers.
pub struct Leds {
    leds: Vec<(LedId, Led)>,
}

impl Leds {
    /// The identifiers and states, in construction order.
    pub closed spec fn entries(&self) -> Seq<(LedId, Led)> {
        self.leds@
    }

    /// Identifiers are unique.
    pub closed spec fn wf(&self) -> bool {
        forall|i: int, j: int|
            0 <= i < j < self.leds@.len() ==> self.leds@[i].0 != self.leds@[j].0
    }

    /// Create an LED collection from identifiers and the levels read
    /// at construction.  Identifiers come from configuration map
    /// keys, so they are unique.
    pub fn new(entries: &Vec<(LedId, bool)>) -> (r: Leds)
        requires
            forall|i: int, j: int| 0 <= i < j < entries@.len() ==> (#[trigger] entries@[i]).0 != (
            #[trigger] entries@[j]).0,
        ensures
            r.wf(),
            r.entries().len() == entries@.len(),
            forall|i: int| 0 <= i < entries@.len() ==> (#[trigger] r.entries()[i]).0
                == entries@[i].0 && r.entries()[i].1.state_spec() == entries@[i].1,
    {
        let mut leds: Vec<(LedId, Led)> = Vec::new();
        let mut k: usize = 0;
        while k < entries.len()
            invariant
                k <= entries@.len(),
                leds@.len() == k,
                forall|i: int, j: int|
                    0 <= i < j < entries@.len() ==> (#[trigger] entries@[i]).0 != (
                    #[trigger] entries@[j]).0,
                forall|i: int| 0 <= i < k ==> (#[trigger] leds@[i]).0 == entries@[i].0
                    && leds@[i].1.state_spec() == entries@[i].1,
            decreases entries@.len() - k,
        {
            let (id, initial) = entries[k];
            leds.push((id, Led::new(initial)));
            proof {
                assert(leds@[k as int].0 == entries@[k as int].0);
                assert(leds@[k as int].1.state_spec() == entries@[k as int].1);
            }
            k += 1;
        }
        Leds { leds }
    }

    /// Whether an LED with this identifier exists.
    pub open spec fn has(&self, id: LedId) -> bool {
        exists|i: int| 0 <= i < self.entries().len() && (#[trigger] self.entries()[i]).0 == id
    }

    /// Number of LEDs.
    pub fn len(&self) -> (r: usize)
        ensures
            r == self.entries().len(),
    {
        self.leds.len()
    }

    /// The identifier and state at an index.
    pub fn get(&self, i: usize) -> (r: (LedId, bool))
        requires
            i < self.entries().len(),
        ensures
            r.0 == self.entries()[i as int].0,
            r.1 == self.entries()[i as int].1.state_spec(),
    {
        let (id, l) = &self.leds[i];
        (*id, l.state())
    }

    /// Apply an edge event to one LED.  Returns the new level, or
    /// `None` when no such LED exists.
    pub fn apply_edge(&mut self, id: LedId, edge: Edge) -> (r: Option<bool>)
        requires
            old(self).wf(),
        ensures
            final(self).wf(),
            r is Some <==> old(self).has(id),
            r is Some ==> r == Some(edge is Rising),
            final(self).entries().len() == old(self).entries().len(),
            forall|i: int| 0 <= i < final(self).entries().len() ==> (#[trigger] final(self).entries()[i]).0 == old(self).entries()[i].0,
            forall|i: int|
                0 <= i < final(self).entries().len() && old(self).entries()[i].0 != id ==> (
                #[trigger] final(self).entries()[i]).1 == old(self).entries()[i].1,
            forall|i: int|
                0 <= i < final(self).entries().len() && old(self).entries()[i].0 == id ==> (
                #[trigger] final(self).entries()[i]).1.state_spec() == (edge is Rising),
    {
        let mut k: usize = 0;
        while k < self.leds.len()
            invariant
                old(self).wf(),
                k <= self.leds@.len(),
                self.leds@.len() == old(self).leds@.len(),
                forall|i: int| 0 <= i < self.leds@.len() ==> (#[trigger] self.leds@[i]).0 == old(
                    self,
                ).leds@[i].0,
                forall|i: int| 0 <= i < self.leds@.len() ==> (#[trigger] self.leds@[i]).1 == old(
                    self,
                ).leds@[i].1,
                forall|i: int| 0 <= i < k ==> (#[trigger] self.leds@[i]).0 != id,
            decreases self.leds@.len() - k,
        {
            if self.leds[k].0 == id {
                let mut entry = self.leds.remove(k);
                let level = entry.1.apply_edge(edge);
                self.leds.insert(k, entry);
                proof {
                    assert(self.leds@ =~= old(self).leds@.update(
                        k as int,
                        (id, self.leds@[k as int].1),
                    ));
                    assert(old(self).has(id));
                }
                return Some(level);
            }
            k += 1;
        }
        proof {
            assert forall|i: int| 0 <= i < old(self).leds@.len() implies (#[trigger] old(
                self,
            ).leds@[i]).0 != id by {
                assert(self.leds@[i].0 == old(self).leds@[i].0);
                assert(self.leds@[i].0 != id);
            }
            assert(!old(self).has(id));
            assert(self.leds@ =~= old(self).leds@);
        }
        None
    }
}

} // verus!
