//! Button state core.
//!
//! A button owns one GPIO output line.  Requests route through a
//! single serialization point (the owning task); the core here is the
//! state it keeps and the decision whether a request must reach the
//! line.  Consecutive equal requests elide the line write; observable
//! state always equals the last request.

use vstd::prelude::*;

use crate::ids::ButtonId;

verus! {

/// GPIO line active level.
#[derive(Clone, Copy, Debug, PartialEq, Eq, Structural)]
pub enum Active {
    /// Active low.
    Low,
    /// Active high.
    High,
}

/// GPIO line bias.
#[derive(Clone, Copy, Debug, PartialEq, Eq, Structural)]
pub enum Bias {
    /// No bias.
    Disable,
    /// Pull-up resistor.
    PullUp,
    /// Pull-down resistor.
    PullDown,
}

/// GPIO output drive.
#[derive(Clone, Copy, Debug, PartialEq, Eq, Structural)]
pub enum Drive {
    /// Push-pull output.
    PushPull,
    /// Open-drain output.
    OpenDrain,
    /// Open-source output.
    OpenSource,
}

/// Configuration of one button line.
#[derive(Clone, Debug, PartialEq, Eq)]
pub struct ButtonConfig {
    /// GPIO chip name
    pub chip: String,
    /// GPIO line offset
    pub line: u32,
    /// GPIO line active state
    pub active: Active,
    /// GPIO line bias
    pub bias: Bias,
    /// GPIO line drive
    pub drive: Drive,
}

/// Button interface: the authoritative state of one button.
#[derive(Clone, Copy, Debug, PartialEq, Eq, Structural)]
pub struct Button {
    state: bool,
    written: Option<bool>,
}

impl Button {
    /// The state visible to every reader.
    pub closed spec fn state_spec(&self) -> bool {
        self.state
    }

    /// What the owning task last wrote to the line, if anything.
    pub closed spec fn written_spec(&self) -> Option<bool> {
        self.written
    }

    /// Instantiate new button; the state channel is seeded released.
    pub fn new() -> (r: Button)
        ensures
            r.state_spec() == false,
            r.written_spec() is None,
    {
        Button { state: false, written: None }
    }

    /// Get current state
    pub fn state(&self) -> (r: bool)
        ensures
            r == self.state_spec(),
    {
        self.state
    }

    /// Change button state.  Returns whether the request must reach
    /// the GPIO line: a request equal to what the line already
    /// carries is elided.
    pub fn set_state(&mut self, state: bool) -> (write: bool)
        ensures
            final(self).state_spec() == state,
            write == (old(self).written_spec() != Some(state)),
            write ==> final(self).written_spec() == Some(state),
            !write ==> final(self).written_spec() == old(self).written_spec(),
    {
        self.state = state;
        let write = match self.written {
            Some(w) => w != state,
            None => true,
        };
        if write {
            self.written = Some(state);
        }
        write
    }
}

/// The line value after a run of requests: the last one, or the
/// initial line value when there were none.
pub open spec fn line_after(init: Option<bool>, reqs: Seq<bool>) -> Option<bool>
    decreases reqs.len(),
{
    if reqs.len() == 0 {
        init
    } else {
        Some(reqs.last())
    }
}

/// How many requests of a run reach the line when consecutive equal
/// requests are elided.
pub open spec fn line_writes(init: Option<bool>, reqs: Seq<bool>) -> nat
    decreases reqs.len(),
{
    if reqs.len() == 0 {
        0
    } else {
        line_writes(init, reqs.drop_last()) + if line_after(init, reqs.drop_last()) == Some(
            reqs.last(),
        ) {
            0nat
        } else {
            1nat
        }
    }
}

/// Setting the same state any number of times produces at most one
/// line write, exactly one when the line did not already carry it;
/// the observable state afterwards is the requested one.
pub proof fn lemma_set_state_idempotent(init: Option<bool>, reqs: Seq<bool>, v: bool)
    requires
        reqs.len() >= 1,
        forall|i: int| 0 <= i < reqs.len() ==> reqs[i] == v,
    ensures
        line_after(init, reqs) == Some(v),
        line_writes(init, reqs) == if init == Some(v) {
            0nat
        } else {
            1nat
        },
    decreases reqs.len(),
{
    assert(reqs.last() == v) by {
        assert(reqs[reqs.len() - 1] == v);
    }
    assert(line_writes(init, reqs) == line_writes(init, reqs.drop_last()) + if line_after(
        init,
        reqs.drop_last(),
    ) == Some(reqs.last()) {
        0nat
    } else {
        1nat
    });
    if reqs.len() == 1 {
        assert(reqs.drop_last().len() == 0);
        assert(line_after(init, reqs.drop_last()) == init);
    } else {
        assert(forall|i: int|
            0 <= i < reqs.drop_last().len() ==> #[trigger] reqs.drop_last()[i] == reqs[i]);
        lemma_set_state_idempotent(init, reqs.drop_last(), v);
        assert(line_after(init, reqs.drop_last()) == Some(v));
    }
}

/// A collection of buttons with unique identifiers.
pub struct Buttons {
    buttons: Vec<(ButtonId, Button)>,
}

impl Buttons {
    /// The identifiers and states, in construction order.
    pub closed spec fn entries(&self) -> Seq<(ButtonId, Button)> {
        self.buttons@
    }

    /// Identifiers are unique.
    pub closed spec fn wf(&self) -> bool {
        forall|i: int, j: int|
            0 <= i < j < self.buttons@.len() ==> self.buttons@[i].0 != self.buttons@[j].0
    }

    /// Create a button collection for the given identifiers, each
    /// seeded released.  Identifiers come from configuration map
    /// keys, so they are unique.
    pub fn new(ids: &Vec<ButtonId>) -> (r: Buttons)
        requires
            forall|i: int, j: int| 0 <= i < j < ids@.len() ==> ids@[i] != ids@[j],
        ensures
            r.wf(),
            r.entries().len() == ids@.len(),
            forall|i: int| 0 <= i < ids@.len() ==> (#[trigger] r.entries()[i]).0 == ids@[i]
                && r.entries()[i].1.state_spec() == false && r.entries()[i].1.written_spec()
                is None,
    {
        let mut buttons: Vec<(ButtonId, Button)> = Vec::new();
        let mut k: usize = 0;
        while k < ids.len()
            invariant
                k <= ids@.len(),
                buttons@.len() == k,
                forall|i: int, j: int| 0 <= i < j < ids@.len() ==> ids@[i] != ids@[j],
                forall|i: int| 0 <= i < k ==> #[trigger] buttons@[i] == (
                    ids@[i],
                    Button::new_spec(),
                ),
            decreases ids@.len() - k,
        {
            buttons.push((ids[k], Button::new()));
            k += 1;
        }
        Buttons { buttons }
    }

    /// Whether a button with this identifier exists.
    pub open spec fn has(&self, id: ButtonId) -> bool {
        exists|i: int| 0 <= i < self.entries().len() && (#[trigger] self.entries()[i]).0 == id
    }

    /// The state of the button with this identifier.
    pub open spec fn state_of(&self, id: ButtonId) -> Option<Button> {
        if self.has(id) {
            Some(
                self.entries()[choose|i: int|
                    0 <= i < self.entries().len() && (#[trigger] self.entries()[i]).0 == id].1,
            )
        } else {
            None
        }
    }

    /// Number of buttons.
    pub fn len(&self) -> (r: usize)
        ensures
            r == self.entries().len(),
    {
        self.buttons.len()
    }

    /// The identifier and state at an index.
    pub fn get(&self, i: usize) -> (r: (ButtonId, bool))
        requires
            i < self.entries().len(),
        ensures
            r.0 == self.entries()[i as int].0,
            r.1 == self.entries()[i as int].1.state_spec(),
    {
        let (id, b) = &self.buttons[i];
        (*id, b.state())
    }

    /// Change the state of one button.  Returns the line-write
    /// decision, or `None` when no such button exists.
    pub fn set_state(&mut self, id: ButtonId, state: bool) -> (r: Option<bool>)
        requires
            old(self).wf(),
        ensures
            final(self).wf(),
            r is Some <==> old(self).has(id),
            final(self).entries().len() == old(self).entries().len(),
            forall|i: int| 0 <= i < final(self).entries().len() ==> (#[trigger] final(self).entries()[i]).0 == old(self).entries()[i].0,
            forall|i: int|
                0 <= i < final(self).entries().len() && old(self).entries()[i].0 != id ==> (
                #[trigger] final(self).entries()[i]).1 == old(self).entries()[i].1,
            forall|i: int|
                0 <= i < final(self).entries().len() && old(self).entries()[i].0 == id ==> (
                #[trigger] final(self).entries()[i]).1.state_spec() == state,
            !old(self).has(id) ==> final(self).entries() == old(self).entries(),
    {
        let mut k: usize = 0;
        while k < self.buttons.len()
            invariant
                old(self).wf(),
                k <= self.buttons@.len(),
                self.buttons@.len() == old(self).buttons@.len(),
                forall|i: int| 0 <= i < self.buttons@.len() ==> (#[trigger] self.buttons@[i]).0
                    == old(self).buttons@[i].0,
                forall|i: int| k <= i < self.buttons@.len() ==> (#[trigger] self.buttons@[i]).1
                    == old(self).buttons@[i].1,
                forall|i: int| 0 <= i < k ==> (#[trigger] self.buttons@[i]).1 == old(
                    self,
                ).buttons@[i].1,
                forall|i: int| 0 <= i < k ==> (#[trigger] self.buttons@[i]).0 != id,
            decreases self.buttons@.len() - k,
        {
            if self.buttons[k].0 == id {
                let mut entry = self.buttons.remove(k);
                let write = entry.1.set_state(state);
                self.buttons.insert(k, entry);
                proof {
                    assert(self.buttons@ =~= old(self).buttons@.update(
                        k as int,
                        (id, self.buttons@[k as int].1),
                    ));
                    assert(old(self).has(id));
                }
                return Some(write);
            }
            k += 1;
        }
        proof {
            assert forall|i: int| 0 <= i < old(self).buttons@.len() implies (#[trigger] old(
                self,
            ).buttons@[i]).0 != id by {
                assert(self.buttons@[i].0 == old(self).buttons@[i].0);
                assert(self.buttons@[i].0 != id);
            }
            assert(!old(self).has(id));
            assert(self.buttons@ =~= old(self).buttons@);
        }
        None
    }
}

impl Button {
    /// The value `new` constructs.
    pub closed spec fn new_spec() -> Button {
        Button { state: false, written: None }
    }
}

} // verus!
