//! The two ends of a channel at work at the same time.
//!
//! A send decides on a slot, fills it, and then moves the send index on; a receive decides on a
//! slot, empties it, and then moves the receive index on. Each end does its own steps in order,
//! but the steps of the two ends may follow each other in any way, as they do when one end is
//! used in an interrupt handler. The laws of this module hold after every step.
use core::convert::Infallible;
use vstd::arithmetic::div_mod::{
    lemma_add_mod_noop, lemma_mod_bound, lemma_mod_twice, lemma_small_mod,
};
use vstd::prelude::*;

use crate::fifo::laws::{Step, accepted, delivered, pending_after, step_pending};
use crate::fifo::ring::{
    after_recv, after_send, head_after_recv, is_full, law_ring_slot_is_a_remainder, layout,
    recv_result, ring_distance, ring_slot, send_result, slot_to_recv, slot_to_send,
};

verus! {

/// How far a send has come.
pub enum Sending<T> {
    Idle,
    /// This slot was decided on, for this value.
    Chosen(int, T),
    /// This slot holds the value, but the send index has not moved yet.
    Filled(int),
}

/// How far a receive has come.
pub enum Receiving {
    Idle,
    /// This slot was decided on.
    Chosen(int),
    /// This slot is empty again, but the receive index has not moved yet.
    Emptied(int),
}

/// A channel, how far its two ends have come, and what went through it.
pub struct Shared<T> {
    pub slots: Seq<Option<T>>,
    pub send_index: int,
    pub recv_index: int,
    pub sending: Sending<T>,
    pub receiving: Receiving,
    /// The values that were put into a slot, in order.
    pub sent: Seq<T>,
    /// The values that were taken out of a slot, in order.
    pub received: Seq<T>,
}

/// One step of either end.
pub enum EndStep<T> {
    SendChoose(T),
    SendFill,
    SendAdvance,
    RecvChoose,
    RecvEmpty,
    RecvAdvance,
}

/// A new channel with `len` slots.
pub open spec fn fresh<T>(len: nat) -> Shared<T> {
    Shared {
        slots: Seq::new(len, |i: int| None),
        send_index: 0,
        recv_index: 0,
        sending: Sending::Idle,
        receiving: Receiving::Idle,
        sent: Seq::empty(),
        received: Seq::empty(),
    }
}

impl<T> Shared<T> {
    pub open spec fn len(self) -> int {
        self.slots.len() as int
    }

    /// The state after one step. A step that is not the next one of its end changes nothing.
    pub open spec fn step(self, step: EndStep<T>) -> Self {
        match step {
            EndStep::SendChoose(value) => match (
                self.sending,
                slot_to_send(self.send_index, self.recv_index, self.len()),
            ) {
                (Sending::Idle, Some(slot)) => Shared {
                    sending: Sending::Chosen(slot, value),
                    ..self
                },
                _ => self,
            },
            EndStep::SendFill => match self.sending {
                Sending::Chosen(slot, value) => Shared {
                    slots: self.slots.update(slot, Some(value)),
                    sending: Sending::Filled(slot),
                    sent: self.sent.push(value),
                    ..self
                },
                _ => self,
            },
            EndStep::SendAdvance => match self.sending {
                Sending::Filled(slot) => Shared {
                    send_index: ring_slot(slot, 1, self.len()),
                    sending: Sending::Idle,
                    ..self
                },
                _ => self,
            },
            EndStep::RecvChoose => match (
                self.receiving,
                slot_to_recv(self.send_index, self.recv_index),
            ) {
                (Receiving::Idle, Some(slot)) => Shared {
                    receiving: Receiving::Chosen(slot),
                    ..self
                },
                _ => self,
            },
            EndStep::RecvEmpty => match self.receiving {
                Receiving::Chosen(slot) => Shared {
                    slots: self.slots.update(slot, None),
                    receiving: Receiving::Emptied(slot),
                    received: self.received.push(self.slots[slot]->0),
                    ..self
                },
                _ => self,
            },
            EndStep::RecvAdvance => match self.receiving {
                Receiving::Emptied(slot) => Shared {
                    recv_index: ring_slot(slot, 1, self.len()),
                    receiving: Receiving::Idle,
                    ..self
                },
                _ => self,
            },
        }
    }

    /// The slot that the send under way has decided on.
    pub open spec fn sending_slot(self) -> int
        recommends
            !(self.sending is Idle),
    {
        match self.sending {
            Sending::Chosen(slot, _) => slot,
            Sending::Filled(slot) => slot,
            Sending::Idle => arbitrary(),
        }
    }

    /// The slot that the receive under way has decided on.
    pub open spec fn receiving_slot(self) -> int
        recommends
            !(self.receiving is Idle),
    {
        match self.receiving {
            Receiving::Chosen(slot) => slot,
            Receiving::Emptied(slot) => slot,
            Receiving::Idle => arbitrary(),
        }
    }

    /// The state after `steps`, one after the other.
    pub open spec fn after(self, steps: Seq<EndStep<T>>) -> Self
        decreases steps.len(),
    {
        if steps.len() == 0 {
            self
        } else {
            self.after(steps.drop_last()).step(steps.last())
        }
    }

    /// How many of the values put into a slot the send index has moved past.
    pub open spec fn announced(self) -> int {
        self.sent.len() - if self.sending is Filled {
            1int
        } else {
            0
        }
    }

    /// How many of the values taken out of a slot the receive index has moved past.
    pub open spec fn retired(self) -> int {
        self.received.len() - if self.receiving is Emptied {
            1int
        } else {
            0
        }
    }

    /// The pending values, oldest first, as the two indices tell it: a send adds its value when
    /// the send index moves, and a receive removes it when the receive index moves.
    pub open spec fn pending(self) -> Seq<T> {
        self.sent.subrange(self.retired(), self.announced())
    }

    /// The whole call that takes effect with `step`, if one does: a call that is refused takes
    /// effect when it chooses no slot, and any other with its last step.
    pub open spec fn effect(self, step: EndStep<T>) -> Option<Step<T>> {
        match step {
            EndStep::SendChoose(value) => if self.sending is Idle && slot_to_send(
                self.send_index,
                self.recv_index,
                self.len(),
            ) is None {
                Some(Step::Send(value))
            } else {
                None
            },
            EndStep::SendAdvance => if self.sending is Filled {
                Some(Step::Send(self.sent.last()))
            } else {
                None
            },
            EndStep::RecvChoose => if self.receiving is Idle && slot_to_recv(
                self.send_index,
                self.recv_index,
            ) is None {
                Some(Step::Recv)
            } else {
                None
            },
            EndStep::RecvAdvance => if self.receiving is Emptied {
                Some(Step::Recv)
            } else {
                None
            },
            _ => None,
        }
    }

    /// Whether `step` does to the pending values what the whole call that takes effect with it
    /// does, if there is one, and nothing otherwise.
    pub open spec fn has_effect(self, len: nat, step: EndStep<T>) -> bool {
        match self.effect(step) {
            None => self.step(step).pending() == self.pending(),
            Some(call) => {
                &&& self.step(step).pending() == step_pending(self.pending(), len, call)
                &&& call is Send ==> (send_result(self.pending(), len) is Ok
                    <==> step is SendAdvance)
                &&& call is Recv ==> (recv_result(self.pending()) is Ok <==> step is RecvAdvance)
                &&& step is RecvAdvance ==> recv_result(self.pending()) == Ok::<
                    T,
                    nb::Error<Infallible>,
                >(self.received.last())
            },
        }
    }

    /// The number of slots from the receive index up to the send index.
    spec fn span(self) -> int {
        ring_distance(self.recv_index, self.send_index, self.len())
    }

    /// The first of those slots that still holds a value.
    spec fn skipped(self) -> int {
        if self.receiving is Emptied {
            1
        } else {
            0
        }
    }

    /// One more than the last of the slots that hold a value.
    spec fn reach(self) -> int {
        self.span() + if self.sending is Filled {
            1int
        } else {
            0
        }
    }

    /// What ties the slots, the indices and the progress of the two ends together.
    pub closed spec fn inv(self) -> bool {
        &&& 0 <= self.send_index < self.len()
        &&& 0 <= self.recv_index < self.len()
        &&& match self.sending {
            Sending::Idle => true,
            Sending::Chosen(slot, _) => slot == self.send_index,
            Sending::Filled(slot) => slot == self.send_index,
        }
        &&& match self.receiving {
            Receiving::Idle => true,
            Receiving::Chosen(slot) => slot == self.recv_index,
            Receiving::Emptied(slot) => slot == self.recv_index,
        }
        &&& !(self.receiving is Idle) ==> self.span() > 0
        &&& self.receiving is Emptied ==> self.received.len() > 0
        &&& !(self.sending is Idle) ==> self.span() + 1 < self.len()
        &&& self.sent.len() == self.received.len() + self.reach() - self.skipped()
        &&& forall|i: int|
            0 <= i < self.received.len() ==> #[trigger] self.received[i] == self.sent[i]
        &&& forall|k: int|
            0 <= k < self.len() ==> #[trigger] self.slots[k] == self.content(
                ring_distance(self.recv_index, k, self.len()),
            )
    }

    /// What the slot that lies `place` places after the receive index holds.
    spec fn content(self, place: int) -> Option<T> {
        if self.skipped() <= place < self.reach() {
            Some(self.sent[self.received.len() + place - self.skipped()])
        } else {
            None
        }
    }
}

/// The state of a new channel with `len` slots after `steps`.
pub open spec fn shared_after<T>(len: nat, steps: Seq<EndStep<T>>) -> Shared<T> {
    fresh(len).after(steps)
}

proof fn lemma_step_keeps_inv<T>(state: Shared<T>, step: EndStep<T>)
    requires
        state.inv(),
    ensures
        state.step(step).inv(),
        state.step(step).len() == state.len(),
{
}

proof fn lemma_inv_holds<T>(len: nat, steps: Seq<EndStep<T>>)
    requires
        len > 0,
    ensures
        shared_after(len, steps).inv(),
        shared_after(len, steps).len() == len,
    decreases steps.len(),
{
    if steps.len() > 0 {
        lemma_inv_holds(len, steps.drop_last());
        lemma_step_keeps_inv(shared_after(len, steps.drop_last()), steps.last());
    }
}

/// First in, first out, however the two ends interleave: what was received is what was sent
/// first, in order, and the channel never holds more values than it has room for.
pub proof fn law_interleaved_ends_keep_the_order<T>(len: nat, steps: Seq<EndStep<T>>)
    requires
        len > 0,
    ensures
        ({
            let state = shared_after(len, steps);
            &&& state.received.len() <= state.sent.len() < state.received.len() + len
            &&& state.received == state.sent.take(state.received.len() as int)
        }),
{
    lemma_inv_holds(len, steps);
    let state = shared_after(len, steps);
    assert(state.received =~= state.sent.take(state.received.len() as int));
}

/// The ends never touch the same slot: a send that has chosen its slot finds it empty, and a
/// receive that has chosen its slot finds the next value in it, whatever the other end did since.
pub proof fn law_interleaved_ends_stay_apart<T>(len: nat, steps: Seq<EndStep<T>>)
    requires
        len > 0,
    ensures
        ({
            let state = shared_after(len, steps);
            &&& state.sending matches Sending::Chosen(slot, _) ==> {
                &&& 0 <= slot < len
                &&& state.slots[slot] is None
            }
            &&& state.receiving matches Receiving::Chosen(slot) ==> {
                &&& 0 <= slot < len
                &&& state.received.len() < state.sent.len()
                &&& state.slots[slot] == Some(state.sent[state.received.len() as int])
            }
            &&& !(state.sending is Idle) && !(state.receiving is Idle) ==> state.sending_slot()
                != state.receiving_slot()
        }),
{
    lemma_inv_holds(len, steps);
}

/// When both ends are at rest, the channel is one that a sequence of whole sends and receives
/// leaves: the values sent and not yet received lie in consecutive slots, from the receive index
/// up to the send index, and every other slot is empty.
pub proof fn law_interleaved_ends_leave_a_channel<T>(len: nat, steps: Seq<EndStep<T>>)
    requires
        len > 0,
        shared_after(len, steps).sending is Idle,
        shared_after(len, steps).receiving is Idle,
    ensures
        ({
            let state = shared_after(len, steps);
            let pending = state.sent.skip(state.received.len() as int);
            &&& 0 <= state.recv_index < len
            &&& state.slots == layout(pending, state.recv_index, len)
            &&& state.send_index == ring_slot(state.recv_index, pending.len() as int, len as int)
        }),
{
    lemma_inv_holds(len, steps);
    let state = shared_after(len, steps);
    assert(state.slots =~= layout(
        state.sent.skip(state.received.len() as int),
        state.recv_index,
        len,
    ));
}

/// A receive is refused exactly if nothing is pending, and a send exactly if there is no room,
/// also while the other end is in the middle of a call.
pub proof fn law_interleaved_refusals<T>(len: nat, steps: Seq<EndStep<T>>)
    requires
        len > 0,
    ensures
        ({
            let state = shared_after(len, steps);
            &&& 0 <= state.retired() <= state.announced() <= state.sent.len()
            &&& slot_to_recv(state.send_index, state.recv_index) is None <==> state.announced()
                == state.retired()
            &&& slot_to_recv(state.send_index, state.recv_index) is None
                <==> state.pending().len() == 0
            &&& state.sending is Idle ==> (slot_to_send(
                state.send_index,
                state.recv_index,
                len as int,
            ) is None <==> state.announced() - state.retired() == len - 1)
            &&& state.sending is Idle ==> (slot_to_send(
                state.send_index,
                state.recv_index,
                len as int,
            ) is None <==> is_full(state.pending(), len))
        }),
{
    lemma_inv_holds(len, steps);
}

proof fn lemma_step_effect<T>(state: Shared<T>, len: nat, step: EndStep<T>)
    requires
        state.inv(),
        state.len() == len,
    ensures
        state.has_effect(len, step),
{
    let next = state.step(step);
    lemma_step_keeps_inv(state, step);
    match state.effect(step) {
        None => {
            assert(next.pending() =~= state.pending());
        },
        Some(call) => {
            assert(next.pending() =~= step_pending(state.pending(), len, call));
        },
    }
}

/// Every step of either end is, to the pending values, either nothing or one whole call, and the
/// call answers what it answers where calls do not overlap: it is refused exactly where its choice
/// was, and a receive that is not returns the value it took.
pub proof fn law_step_is_a_whole_call_or_nothing<T>(
    len: nat,
    steps: Seq<EndStep<T>>,
    step: EndStep<T>,
)
    requires
        len > 0,
    ensures
        shared_after(len, steps).has_effect(len, step),
{
    lemma_inv_holds(len, steps);
    lemma_step_effect(shared_after(len, steps), len, step);
}

/// The whole calls that take effect in the course of `steps`, in the order in which they do.
pub open spec fn whole_calls<T>(len: nat, steps: Seq<EndStep<T>>) -> Seq<Step<T>>
    decreases steps.len(),
{
    if steps.len() == 0 {
        Seq::empty()
    } else {
        let rest = whole_calls(len, steps.drop_last());
        match shared_after(len, steps.drop_last()).effect(steps.last()) {
            Some(call) => rest.push(call),
            None => rest,
        }
    }
}

/// Calls that overlap have the outcome of calls one after the other: the calls of the two ends,
/// each taken at one step of its own, form a sequence that sends the same values, receives the
/// same values and leaves the same values pending.
pub proof fn law_overlapping_calls_are_some_sequence<T>(len: nat, steps: Seq<EndStep<T>>)
    requires
        len > 0,
    ensures
        ({
            let state = shared_after(len, steps);
            let calls = whole_calls(len, steps);
            let empty = Seq::<T>::empty();
            &&& state.pending() == pending_after(empty, len, calls)
            &&& state.sent.take(state.announced()) == accepted(empty, len, calls)
            &&& state.received.take(state.retired()) == delivered(empty, len, calls)
        }),
    decreases steps.len(),
{
    let state = shared_after(len, steps);
    let calls = whole_calls(len, steps);
    let empty = Seq::<T>::empty();
    lemma_inv_holds(len, steps);
    if steps.len() == 0 {
        assert(state.pending() =~= empty);
        assert(state.sent.take(state.announced()) =~= empty);
        assert(state.received.take(state.retired()) =~= empty);
    } else {
        let fewer = steps.drop_last();
        let before = shared_after(len, fewer);
        law_overlapping_calls_are_some_sequence(len, fewer);
        law_step_is_a_whole_call_or_nothing(len, fewer, steps.last());
        lemma_inv_holds(len, fewer);
        match before.effect(steps.last()) {
            Some(call) => {
                assert(calls.drop_last() =~= whole_calls(len, fewer));
                if steps.last() is SendAdvance {
                    assert(state.sent.take(state.announced()) =~= before.sent.take(
                        before.announced(),
                    ).push(before.sent.last()));
                    assert(state.received.take(state.retired()) =~= before.received.take(
                        before.retired(),
                    ));
                } else if steps.last() is RecvAdvance {
                    assert(state.received.take(state.retired()) =~= before.received.take(
                        before.retired(),
                    ).push(before.received.last()));
                    assert(state.sent.take(state.announced()) =~= before.sent.take(
                        before.announced(),
                    ));
                }
            },
            None => {
                assert(state.sent.take(state.announced()) =~= before.sent.take(
                    before.announced(),
                ));
                assert(state.received.take(state.retired()) =~= before.received.take(
                    before.retired(),
                ));
            },
        }
    }
}

/// A send whose steps follow each other directly does what a send on a channel does, wherever the
/// receiving end stands.
pub proof fn law_undivided_send_is_a_send<T>(len: nat, steps: Seq<EndStep<T>>, value: T)
    requires
        len > 0,
        shared_after(len, steps).sending is Idle,
    ensures
        ({
            let state = shared_after(len, steps);
            let done = state.step(EndStep::SendChoose(value)).step(EndStep::SendFill).step(
                EndStep::SendAdvance,
            );
            &&& done.sending is Idle
            &&& done.pending() == after_send(state.pending(), len, value)
            &&& done.sent == if is_full(state.pending(), len) {
                state.sent
            } else {
                state.sent.push(value)
            }
            &&& done.received == state.received
            &&& done.recv_index == state.recv_index
            &&& state.receiving is Idle ==> done.slots == layout(
                after_send(state.pending(), len, value),
                done.recv_index,
                len,
            )
        }),
{
    lemma_inv_holds(len, steps);
    let state = shared_after(len, steps);
    let chosen = state.step(EndStep::SendChoose(value));
    let filled = chosen.step(EndStep::SendFill);
    let done = filled.step(EndStep::SendAdvance);
    lemma_step_keeps_inv(state, EndStep::SendChoose(value));
    lemma_step_keeps_inv(chosen, EndStep::SendFill);
    lemma_step_keeps_inv(filled, EndStep::SendAdvance);
    assert(done.pending() =~= after_send(state.pending(), len, value));
    if state.receiving is Idle {
        assert(done.slots =~= layout(done.pending(), done.recv_index, len));
    }
}

/// A receive whose steps follow each other directly does what a receive on a channel does,
/// wherever the sending end stands.
pub proof fn law_undivided_receive_is_a_receive<T>(len: nat, steps: Seq<EndStep<T>>)
    requires
        len > 0,
        shared_after(len, steps).receiving is Idle,
    ensures
        ({
            let state = shared_after(len, steps);
            let done = state.step(EndStep::RecvChoose).step(EndStep::RecvEmpty).step(
                EndStep::RecvAdvance,
            );
            &&& done.receiving is Idle
            &&& done.pending() == after_recv(state.pending())
            &&& done.received == match recv_result(state.pending()) {
                Ok(value) => state.received.push(value),
                Err(_) => state.received,
            }
            &&& done.sent == state.sent
            &&& done.recv_index == head_after_recv(state.pending(), state.recv_index, len)
            &&& state.sending is Idle ==> done.slots == layout(
                after_recv(state.pending()),
                done.recv_index,
                len,
            )
        }),
{
    lemma_inv_holds(len, steps);
    let state = shared_after(len, steps);
    let chosen = state.step(EndStep::RecvChoose);
    let emptied = chosen.step(EndStep::RecvEmpty);
    let done = emptied.step(EndStep::RecvAdvance);
    lemma_step_keeps_inv(state, EndStep::RecvChoose);
    lemma_step_keeps_inv(chosen, EndStep::RecvEmpty);
    lemma_step_keeps_inv(emptied, EndStep::RecvAdvance);
    assert(done.pending() =~= after_recv(state.pending()));
    if state.sending is Idle {
        assert(done.slots =~= layout(done.pending(), done.recv_index, len));
    }
}

impl<T> EndStep<T> {
    /// Whether this is a step of the sending end.
    pub open spec fn of_sender(self) -> bool {
        self is SendChoose || self is SendFill || self is SendAdvance
    }
}

proof fn lemma_sender_steps<T>(state: Shared<T>, steps: Seq<EndStep<T>>)
    requires
        state.inv(),
        forall|i: int| 0 <= i < steps.len() ==> (#[trigger] steps[i]).of_sender(),
    ensures
        state.after(steps).inv(),
        state.after(steps).len() == state.len(),
        state.after(steps).receiving == state.receiving,
        state.after(steps).received == state.received,
        state.after(steps).recv_index == state.recv_index,
        state.after(steps).announced() >= state.announced(),
        state.sent.is_prefix_of(state.after(steps).sent),
    decreases steps.len(),
{
    if steps.len() > 0 {
        lemma_sender_steps(state, steps.drop_last());
        lemma_step_keeps_inv(state.after(steps.drop_last()), steps.last());
        assert(steps.last().of_sender());
    }
}

proof fn lemma_receiver_steps<T>(state: Shared<T>, steps: Seq<EndStep<T>>)
    requires
        state.inv(),
        forall|i: int| 0 <= i < steps.len() ==> !(#[trigger] steps[i]).of_sender(),
    ensures
        state.after(steps).inv(),
        state.after(steps).len() == state.len(),
        state.after(steps).sending == state.sending,
        state.after(steps).sent == state.sent,
        state.after(steps).send_index == state.send_index,
        state.after(steps).retired() >= state.retired(),
    decreases steps.len(),
{
    if steps.len() > 0 {
        lemma_receiver_steps(state, steps.drop_last());
        lemma_step_keeps_inv(state.after(steps.drop_last()), steps.last());
        assert(!steps.last().of_sender());
    }
}

/// A receive that starts with a value pending succeeds and returns the oldest of them, whatever
/// the sending end does before, between and after its steps.
pub proof fn law_receive_succeeds_while_sending<T>(
    len: nat,
    steps: Seq<EndStep<T>>,
    first: Seq<EndStep<T>>,
    second: Seq<EndStep<T>>,
    third: Seq<EndStep<T>>,
)
    requires
        len > 0,
        shared_after(len, steps).receiving is Idle,
        shared_after(len, steps).pending().len() > 0,
        forall|i: int| 0 <= i < first.len() ==> (#[trigger] first[i]).of_sender(),
        forall|i: int| 0 <= i < second.len() ==> (#[trigger] second[i]).of_sender(),
        forall|i: int| 0 <= i < third.len() ==> (#[trigger] third[i]).of_sender(),
    ensures
        ({
            let state = shared_after(len, steps);
            let done = state.after(first).step(EndStep::RecvChoose).after(second).step(
                EndStep::RecvEmpty,
            ).after(third).step(EndStep::RecvAdvance);
            &&& done.receiving is Idle
            &&& done.received == state.received.push(state.pending().first())
            &&& state.sent.is_prefix_of(done.sent)
        }),
{
    lemma_inv_holds(len, steps);
    let state = shared_after(len, steps);
    let started = state.after(first);
    lemma_sender_steps(state, first);
    let chosen = started.step(EndStep::RecvChoose);
    lemma_step_keeps_inv(started, EndStep::RecvChoose);
    let ready = chosen.after(second);
    lemma_sender_steps(chosen, second);
    let emptied = ready.step(EndStep::RecvEmpty);
    lemma_step_keeps_inv(ready, EndStep::RecvEmpty);
    lemma_sender_steps(emptied, third);
    assert(ready.slots[ready.recv_index] == Some(ready.sent[ready.received.len() as int]));
    assert(ready.sent[ready.received.len() as int] == state.pending().first());
}

/// A send that starts with room left succeeds, whatever the receiving end does before, between and
/// after its steps.
pub proof fn law_send_succeeds_while_receiving<T>(
    len: nat,
    steps: Seq<EndStep<T>>,
    value: T,
    first: Seq<EndStep<T>>,
    second: Seq<EndStep<T>>,
    third: Seq<EndStep<T>>,
)
    requires
        len > 0,
        shared_after(len, steps).sending is Idle,
        !is_full(shared_after(len, steps).pending(), len),
        forall|i: int| 0 <= i < first.len() ==> !(#[trigger] first[i]).of_sender(),
        forall|i: int| 0 <= i < second.len() ==> !(#[trigger] second[i]).of_sender(),
        forall|i: int| 0 <= i < third.len() ==> !(#[trigger] third[i]).of_sender(),
    ensures
        ({
            let state = shared_after(len, steps);
            let done = state.after(first).step(EndStep::SendChoose(value)).after(second).step(
                EndStep::SendFill,
            ).after(third).step(EndStep::SendAdvance);
            &&& done.sending is Idle
            &&& done.sent == state.sent.push(value)
        }),
{
    lemma_inv_holds(len, steps);
    let state = shared_after(len, steps);
    let started = state.after(first);
    lemma_receiver_steps(state, first);
    let chosen = started.step(EndStep::SendChoose(value));
    lemma_step_keeps_inv(started, EndStep::SendChoose(value));
    let ready = chosen.after(second);
    lemma_receiver_steps(chosen, second);
    let filled = ready.step(EndStep::SendFill);
    lemma_step_keeps_inv(ready, EndStep::SendFill);
    lemma_receiver_steps(filled, third);
}

proof fn lemma_next_remainder(n: int, len: int)
    requires
        0 <= n,
        0 < len,
    ensures
        ring_slot(n % len, 1, len) == (n + 1) % len,
        0 <= n % len < len,
{
    lemma_mod_bound(n, len);
    law_ring_slot_is_a_remainder(n % len, 1, len);
    lemma_add_mod_noop(n, 1, len);
    lemma_add_mod_noop(n % len, 1, len);
    lemma_mod_twice(n, len);
}

/// The values go round the slots in turn: the send index has moved on once for every value that
/// was sent, and the receive index once for every value that was received, each from slot to next
/// slot and from the last slot to the first.
pub proof fn law_indices_count_the_values<T>(len: nat, steps: Seq<EndStep<T>>)
    requires
        len > 0,
    ensures
        ({
            let state = shared_after(len, steps);
            &&& state.send_index == state.announced() % (len as int)
            &&& state.recv_index == state.retired() % (len as int)
        }),
    decreases steps.len(),
{
    if steps.len() == 0 {
        lemma_small_mod(0, len);
    } else {
        let fewer = steps.drop_last();
        law_indices_count_the_values(len, fewer);
        lemma_inv_holds(len, fewer);
        let before = shared_after(len, fewer);
        lemma_next_remainder(before.announced(), len as int);
        lemma_next_remainder(before.retired(), len as int);
    }
}

/// An end that decides on a slot decides on the right one: a receive on the slot that holds the
/// oldest value that was sent and not received, which lies where the count of values received
/// says, and a send on an empty slot, which lies where the count of values sent says.
pub proof fn law_ends_decide_on_the_right_slot<T>(len: nat, steps: Seq<EndStep<T>>)
    requires
        len > 0,
    ensures
        ({
            let state = shared_after(len, steps);
            &&& slot_to_recv(state.send_index, state.recv_index) matches Some(slot) ==> {
                &&& slot == state.retired() % (len as int)
                &&& state.receiving is Idle ==> {
                    &&& state.received.len() < state.sent.len()
                    &&& state.slots[slot] == Some(state.sent[state.received.len() as int])
                }
            }
            &&& slot_to_send(state.send_index, state.recv_index, len as int) matches Some(slot)
                ==> {
                &&& slot == state.announced() % (len as int)
                &&& state.sending is Idle ==> state.slots[slot] is None
            }
        }),
{
    lemma_inv_holds(len, steps);
    law_indices_count_the_values(len, steps);
}

} // verus!
