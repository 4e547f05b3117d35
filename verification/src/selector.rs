//! The selection state machine: one cursor over a fixed collection,
//! moved by key events, wrapping at both ends.

use vstd::prelude::*;

verus! {

/// One keyboard event, as the loop classifies it.
pub enum InputEvent {
    /// The quit key: leave the loop.
    Quit,
    /// The down key: move the cursor to the next list, wrapping to the first.
    Down,
    /// The up key: move the cursor to the previous list, wrapping to the last.
    Up,
    /// Any other key: no effect.
    Other,
}

/// Whether the loop keeps going after an event.
#[derive(PartialEq, Eq, Structural)]
pub enum Status {
    Running,
    Terminated,
}

/// The cursor over a collection of `count` lists.
///
/// When the collection is empty, navigation is disabled and the index
/// stays at zero; otherwise the index is always a valid position.
pub struct Selector {
    pub count: usize,
    pub index: usize,
}

/// The index after one event, as a function on the mathematical state.
pub open spec fn step_index(count: nat, index: nat, ev: InputEvent) -> nat {
    if count == 0 {
        index
    } else {
        match ev {
            InputEvent::Down => (((index as int) + 1) % (count as int)) as nat,
            InputEvent::Up => if index == 0 { (count - 1) as nat } else { (index - 1) as nat },
            _ => index,
        }
    }
}

/// The index after a whole sequence of events, applied left to right.
pub open spec fn run_events(count: nat, index: nat, evs: Seq<InputEvent>) -> nat
    decreases evs.len(),
{
    if evs.len() == 0 {
        index
    } else {
        run_events(count, step_index(count, index, evs[0]), evs.skip(1))
    }
}

impl Selector {
    /// The invariant the loop keeps: the cursor is in bounds, or pinned
    /// at zero over an empty collection.
    pub open spec fn wf(&self) -> bool {
        if self.count > 0 {
            self.index < self.count
        } else {
            self.index == 0
        }
    }

    /// A fresh cursor at position zero over `count` lists.
    pub fn new(count: usize) -> (r: Selector)
        ensures
            r.wf(),
            r.count == count,
            r.index == 0,
    {
        Selector { count, index: 0 }
    }

    /// One iteration's state change: quit terminates, down and up move the
    /// cursor with wraparound, anything else changes nothing.
    pub fn handle(&mut self, ev: &InputEvent) -> (s: Status)
        requires
            old(self).wf(),
        ensures
            final(self).wf(),
            final(self).count == old(self).count,
            final(self).index == step_index(old(self).count as nat, old(self).index as nat, *ev),
            s == (if ev is Quit { Status::Terminated } else { Status::Running }),
    {
        match ev {
            InputEvent::Quit => Status::Terminated,
            InputEvent::Down => {
                if self.count > 0 {
                    proof {
                        let c = old(self).count as int;
                        let i = old(self).index as int;
                        if i + 1 < c {
                            vstd::arithmetic::div_mod::lemma_small_mod((i + 1) as nat, c as nat);
                        } else {
                            vstd::arithmetic::div_mod::lemma_mod_self_0(c);
                        }
                    }
                    self.index = self.index + 1;
                    if self.index >= self.count {
                        self.index = 0;
                    }
                }
                Status::Running
            },
            InputEvent::Up => {
                if self.count > 0 {
                    if self.index == 0 {
                        self.index = self.count - 1;
                    } else {
                        self.index = self.index - 1;
                    }
                }
                Status::Running
            },
            InputEvent::Other => Status::Running,
        }
    }
}

/// Law: over a non-empty collection, `k` presses of the down key starting
/// from index zero leave the cursor at `k mod count`.
pub proof fn lemma_down_presses(count: nat, index: nat, evs: Seq<InputEvent>)
    requires
        count >= 1,
        index < count,
        forall|i: int| 0 <= i < evs.len() ==> evs[i] is Down,
    ensures
        run_events(count, index, evs) == ((index + evs.len()) as int) % (count as int),
    decreases evs.len(),
{
    let c = count as int;
    if evs.len() == 0 {
        assert((index as int) % c == index) by {
            vstd::arithmetic::div_mod::lemma_small_mod(index, count);
        }
    } else {
        let next = step_index(count, index, evs[0]);
        assert(next == ((index as int) + 1) % c);
        lemma_down_presses(count, next, evs.skip(1));
        assert(run_events(count, index, evs) == run_events(count, next, evs.skip(1)));
        assert(((next + evs.skip(1).len()) as int) % c == ((index + evs.len()) as int) % c) by {
            broadcast use vstd::arithmetic::div_mod::lemma_mod_twice;

            vstd::arithmetic::div_mod::lemma_add_mod_noop((index as int) + 1, evs.len() - 1, c);
            vstd::arithmetic::div_mod::lemma_add_mod_noop(
                ((index as int) + 1) % c,
                evs.len() - 1,
                c,
            );
        }
    }
}

/// Law: over a non-empty collection, one press of the up key from index
/// zero lands on the last list, and a press from any other index moves
/// one step down.
pub proof fn lemma_up_press(count: nat, index: nat)
    requires
        count >= 1,
        index < count,
    ensures
        index == 0 ==> step_index(count, index, InputEvent::Up) == count - 1,
        index > 0 ==> step_index(count, index, InputEvent::Up) == index - 1,
{
}

/// Law: over a non-empty collection, `k` presses of the up key move the
/// cursor to `(index - k) mod count`: the first press from index zero
/// lands on the last list, and each press decrements with wraparound.
pub proof fn lemma_up_presses(count: nat, index: nat, evs: Seq<InputEvent>)
    requires
        count >= 1,
        index < count,
        forall|i: int| 0 <= i < evs.len() ==> evs[i] is Up,
    ensures
        run_events(count, index, evs) == ((index - evs.len()) % (count as int)) as nat,
    decreases evs.len(),
{
    let c = count as int;
    if evs.len() == 0 {
        assert((index as int) % c == index) by {
            vstd::arithmetic::div_mod::lemma_small_mod(index, count);
        }
    } else {
        let next = step_index(count, index, evs[0]);
        assert(next == ((index as int) - 1) % c) by {
            if index == 0 {
                vstd::arithmetic::div_mod::lemma_add_mod_noop(-1, c, c);
                vstd::arithmetic::div_mod::lemma_mod_self_0(c);
                vstd::arithmetic::div_mod::lemma_small_mod((c - 1) as nat, count);
                assert((-1 + c) % c == c - 1);
                assert((-1) % c == ((-1) % c + 0) % c) by {
                    vstd::arithmetic::div_mod::lemma_mod_twice(-1, c);
                }
            } else {
                vstd::arithmetic::div_mod::lemma_small_mod((index - 1) as nat, count);
            }
        }
        lemma_up_presses(count, next, evs.skip(1));
        assert(run_events(count, index, evs) == run_events(count, next, evs.skip(1)));
        assert((next - evs.skip(1).len()) % c == ((index as int) - evs.len()) % c) by {
            broadcast use vstd::arithmetic::div_mod::lemma_mod_twice;

            vstd::arithmetic::div_mod::lemma_sub_mod_noop((index as int) - 1, evs.len() - 1, c);
            vstd::arithmetic::div_mod::lemma_sub_mod_noop(
                ((index as int) - 1) % c,
                evs.len() - 1,
                c,
            );
        }
    }
}

/// Law: over a collection of exactly one list, the up and down keys leave
/// the cursor at zero.
pub proof fn lemma_single_entry(index: nat, ev: InputEvent)
    requires
        index == 0,
    ensures
        step_index(1, index, ev) == 0,
{
}

} // verus!
