//! What holds of a channel over any number of calls.
use core::convert::Infallible;
use vstd::arithmetic::div_mod::{lemma_add_mod_noop, lemma_mod_twice, lemma_small_mod};
use vstd::prelude::*;

use crate::fifo::Channel;
use crate::fifo::ring::{
    after_poll, after_recv, after_send, is_full, law_ring_slot_is_a_remainder, layout,
    poll_result, recv_result, ring_slot, send_result, unsent, value_after_poll,
};

verus! {

/// One call on a channel.
pub enum Step<T> {
    Send(T),
    Recv,
}

/// What a queue that holds `pending` holds after `step`.
pub open spec fn step_pending<T>(pending: Seq<T>, len: nat, step: Step<T>) -> Seq<T> {
    match step {
        Step::Send(value) => after_send(pending, len, value),
        Step::Recv => after_recv(pending),
    }
}

/// What a queue that holds `pending` holds after `steps`, one after the other.
pub open spec fn pending_after<T>(pending: Seq<T>, len: nat, steps: Seq<Step<T>>) -> Seq<T>
    decreases steps.len(),
{
    if steps.len() == 0 {
        pending
    } else {
        step_pending(pending_after(pending, len, steps.drop_last()), len, steps.last())
    }
}

/// The values of those sends among `steps` that succeed, in order.
pub open spec fn accepted<T>(pending: Seq<T>, len: nat, steps: Seq<Step<T>>) -> Seq<T>
    decreases steps.len(),
{
    if steps.len() == 0 {
        Seq::empty()
    } else {
        let before = pending_after(pending, len, steps.drop_last());
        let rest = accepted(pending, len, steps.drop_last());
        match steps.last() {
            Step::Send(value) => if send_result(before, len) is Ok {
                rest.push(value)
            } else {
                rest
            },
            Step::Recv => rest,
        }
    }
}

/// The values that the receives among `steps` return, in order.
pub open spec fn delivered<T>(pending: Seq<T>, len: nat, steps: Seq<Step<T>>) -> Seq<T>
    decreases steps.len(),
{
    if steps.len() == 0 {
        Seq::empty()
    } else {
        let before = pending_after(pending, len, steps.drop_last());
        let rest = delivered(pending, len, steps.drop_last());
        match steps.last() {
            Step::Send(_) => rest,
            Step::Recv => match recv_result(before) {
                Ok(value) => rest.push(value),
                Err(_) => rest,
            },
        }
    }
}

/// First in, first out: whatever calls are made, in whatever order, the values that come out,
/// followed by those still pending, are those that were pending at first, followed by those that
/// were accepted. Nothing is lost, repeated or reordered.
pub proof fn law_first_in_first_out<T>(pending: Seq<T>, len: nat, steps: Seq<Step<T>>)
    ensures
        delivered(pending, len, steps) + pending_after(pending, len, steps) == pending + accepted(
            pending,
            len,
            steps,
        ),
    decreases steps.len(),
{
    if steps.len() > 0 {
        let rest = steps.drop_last();
        law_first_in_first_out(pending, len, rest);
        let before = pending_after(pending, len, rest);
        match steps.last() {
            Step::Send(value) => {
                if !is_full(before, len) {
                    assert(delivered(pending, len, rest) + before.push(value) =~= (delivered(
                        pending,
                        len,
                        rest,
                    ) + before).push(value));
                    assert(pending + accepted(pending, len, rest).push(value) =~= (pending
                        + accepted(pending, len, rest)).push(value));
                }
            },
            Step::Recv => {
                if before.len() > 0 {
                    assert(delivered(pending, len, rest).push(before.first()) + before.drop_first()
                        =~= delivered(pending, len, rest) + before);
                }
            },
        }
    } else {
        assert(delivered(pending, len, steps) + pending =~= pending + accepted(
            pending,
            len,
            steps,
        ));
    }
}

/// However a channel is used, it never has more than one less than `len` values pending.
pub proof fn law_room_is_never_exceeded<T>(pending: Seq<T>, len: nat, steps: Seq<Step<T>>)
    requires
        pending.len() < len,
    ensures
        pending_after(pending, len, steps).len() < len,
    decreases steps.len(),
{
    if steps.len() > 0 {
        law_room_is_never_exceeded(pending, len, steps.drop_last());
    }
}

/// The steps that send `values`, one after the other.
pub open spec fn sends<T>(values: Seq<T>) -> Seq<Step<T>> {
    Seq::new(values.len(), |i: int| Step::Send(values[i]))
}

/// As many receives as `n` says.
pub open spec fn receives<T>(n: nat) -> Seq<Step<T>> {
    Seq::new(n, |i: int| Step::Recv)
}

/// An empty channel takes any sequence of values that is shorter than its buffer, all of it.
pub proof fn law_empty_channel_takes_one_less_than_its_length<T>(values: Seq<T>, len: nat)
    requires
        values.len() < len,
    ensures
        accepted(Seq::<T>::empty(), len, sends(values)) == values,
        pending_after(Seq::<T>::empty(), len, sends(values)) == values,
    decreases values.len(),
{
    if values.len() > 0 {
        law_empty_channel_takes_one_less_than_its_length(values.drop_last(), len);
        assert(sends(values).drop_last() =~= sends(values.drop_last()));
        assert(values.drop_last().push(values.last()) =~= values);
    }
}

proof fn lemma_receives<T>(pending: Seq<T>, len: nat, steps: Seq<Step<T>>, n: nat)
    requires
        n <= pending_after(pending, len, steps).len(),
    ensures
        pending_after(pending, len, steps + receives(n)) == pending_after(
            pending,
            len,
            steps,
        ).skip(n as int),
        delivered(pending, len, steps + receives(n)) == delivered(pending, len, steps)
            + pending_after(pending, len, steps).take(n as int),
    decreases n,
{
    let all = steps + receives(n);
    let queue = pending_after(pending, len, steps);
    if n == 0 {
        assert(all =~= steps);
        assert(queue.skip(0) =~= queue);
        assert(delivered(pending, len, steps) + queue.take(0) =~= delivered(pending, len, steps));
    } else {
        let fewer = (n - 1) as nat;
        lemma_receives(pending, len, steps, fewer);
        assert(all.drop_last() =~= steps + receives(fewer));
        assert(queue.skip(fewer as int).drop_first() =~= queue.skip(n as int));
        assert((delivered(pending, len, steps) + queue.take(fewer as int)).push(
            queue[fewer as int],
        ) =~= delivered(pending, len, steps) + queue.take(n as int));
    }
}

/// What was sent to an empty channel that had room for it comes out again, in the same order, and
/// leaves the channel empty.
pub proof fn law_sent_values_are_received<T>(values: Seq<T>, len: nat)
    requires
        values.len() < len,
    ensures
        delivered(Seq::<T>::empty(), len, sends(values) + receives(values.len())) == values,
        pending_after(Seq::<T>::empty(), len, sends(values) + receives(values.len())) == Seq::<
            T,
        >::empty(),
    decreases values.len(),
{
    let empty = Seq::<T>::empty();
    law_empty_channel_takes_one_less_than_its_length(values, len);
    lemma_receives(empty, len, sends(values), values.len());
    lemma_sends_deliver_nothing(empty, len, values);
    assert(empty + values.take(values.len() as int) =~= values);
    assert(values.skip(values.len() as int) =~= empty);
}

proof fn lemma_sends_deliver_nothing<T>(pending: Seq<T>, len: nat, values: Seq<T>)
    ensures
        delivered(pending, len, sends(values)) == Seq::<T>::empty(),
    decreases values.len(),
{
    if values.len() > 0 {
        assert(sends(values).drop_last() =~= sends(values.drop_last()));
        lemma_sends_deliver_nothing(pending, len, values.drop_last());
    }
}

/// A channel takes values one after the other as long as it has room, and refuses the rest.
pub proof fn law_channel_takes_what_it_has_room_for<T>(pending: Seq<T>, len: nat, values: Seq<T>)
    requires
        pending.len() < len,
    ensures
        ({
            let room = len - 1 - pending.len();
            let taken = values.take(
                if values.len() < room {
                    values.len() as int
                } else {
                    room
                },
            );
            &&& accepted(pending, len, sends(values)) == taken
            &&& pending_after(pending, len, sends(values)) == pending + taken
        }),
    decreases values.len(),
{
    let room = len - 1 - pending.len();
    if values.len() == 0 {
        assert(pending + values.take(0) =~= pending);
    } else {
        let fewer = values.drop_last();
        law_channel_takes_what_it_has_room_for(pending, len, fewer);
        assert(sends(values).drop_last() =~= sends(fewer));
        if values.len() <= room {
            assert(fewer.take(fewer.len() as int).push(values.last()) =~= values.take(
                values.len() as int,
            ));
            assert((pending + fewer.take(fewer.len() as int)).push(values.last()) =~= pending
                + values.take(values.len() as int));
        } else {
            assert(fewer.take(room) =~= values.take(room));
        }
    }
}

/// A full channel refuses every send and is left as it was.
pub proof fn law_full_channel_refuses_sends<T>(pending: Seq<T>, len: nat, values: Seq<T>)
    requires
        is_full(pending, len),
    ensures
        accepted(pending, len, sends(values)) == Seq::<T>::empty(),
        pending_after(pending, len, sends(values)) == pending,
    decreases values.len(),
{
    if values.len() > 0 {
        assert(sends(values).drop_last() =~= sends(values.drop_last()));
        law_full_channel_refuses_sends(pending, len, values.drop_last());
    }
}

/// An empty channel refuses every receive and stays empty.
pub proof fn law_empty_channel_refuses_receives<T>(len: nat, n: nat)
    ensures
        delivered(Seq::<T>::empty(), len, receives(n)) == Seq::<T>::empty(),
        pending_after(Seq::<T>::empty(), len, receives(n)) == Seq::<T>::empty(),
    decreases n,
{
    if n > 0 {
        let fewer = (n - 1) as nat;
        assert(receives::<T>(n).drop_last() =~= receives(fewer));
        law_empty_channel_refuses_receives::<T>(len, fewer);
    }
}

/// A full channel takes one more value as soon as one has been received.
pub proof fn law_receive_makes_room<T>(pending: Seq<T>, len: nat)
    requires
        0 < pending.len() < len,
    ensures
        send_result(after_recv(pending), len) is Ok,
{
}

/// A channel has at most one less value pending than its buffer has slots.
pub proof fn law_pending_fits_the_buffer<T>(channel: Channel<'_, T>)
    requires
        channel.wf(),
    ensures
        channel.slots().len() == 0 ==> channel@.len() == 0,
        channel.slots().len() > 0 ==> channel@.len() < channel.slots().len(),
{
}

/// The pending values lie in consecutive slots of the buffer, from the head on, and every other
/// slot is empty: a received value leaves nothing behind.
pub proof fn law_slots_hold_the_pending_values<T>(channel: Channel<'_, T>)
    requires
        channel.wf(),
    ensures
        channel.slots() == layout(channel@, channel.head(), channel.slots().len()),
        channel.slots().len() == 0 ==> channel.head() == 0,
        channel.slots().len() > 0 ==> 0 <= channel.head() < channel.slots().len(),
{
}

/// One call on a completion or on the receiving end of its channel.
pub enum CompletionStep {
    Poll,
    Recv,
}

/// What a completion and the queue of its channel hold, and what was received.
pub struct CompletionState<T> {
    pub value: Option<T>,
    pub pending: Seq<T>,
    pub delivered: Seq<T>,
}

/// The state after `steps`, one after the other.
pub open spec fn completion_after<T>(
    start: CompletionState<T>,
    len: nat,
    steps: Seq<CompletionStep>,
) -> CompletionState<T>
    decreases steps.len(),
{
    if steps.len() == 0 {
        start
    } else {
        let before = completion_after(start, len, steps.drop_last());
        match steps.last() {
            CompletionStep::Poll => CompletionState {
                value: value_after_poll(before.value, before.pending, len),
                pending: after_poll(before.value, before.pending, len),
                delivered: before.delivered,
            },
            CompletionStep::Recv => CompletionState {
                value: before.value,
                pending: after_recv(before.pending),
                delivered: match recv_result(before.pending) {
                    Ok(value) => before.delivered.push(value),
                    Err(_) => before.delivered,
                },
            },
        }
    }
}

/// A completion sends its value at most once: whatever is polled and received in between, it
/// either still holds the value, and nothing was added to the channel, or it holds nothing, and
/// the value was added behind those that were pending, once.
pub proof fn law_completion_sends_once<T>(
    value: T,
    pending: Seq<T>,
    len: nat,
    steps: Seq<CompletionStep>,
)
    ensures
        ({
            let start = CompletionState {
                value: Some(value),
                pending,
                delivered: Seq::<T>::empty(),
            };
            let end = completion_after(start, len, steps);
            match end.value {
                Some(held) => held == value && end.delivered + end.pending == pending,
                None => end.delivered + end.pending == pending.push(value),
            }
        }),
    decreases steps.len(),
{
    let start = CompletionState { value: Some(value), pending, delivered: Seq::<T>::empty() };
    if steps.len() == 0 {
        assert(start.delivered + start.pending =~= pending);
    } else {
        law_completion_sends_once(value, pending, len, steps.drop_last());
        let before = completion_after(start, len, steps.drop_last());
        match steps.last() {
            CompletionStep::Poll => {
                assert(before.delivered + before.pending.push(value) =~= (before.delivered
                    + before.pending).push(value));
            },
            CompletionStep::Recv => {
                if before.pending.len() > 0 {
                    assert(before.delivered.push(before.pending.first())
                        + before.pending.drop_first() =~= before.delivered + before.pending);
                }
            },
        }
    }
}

/// Once a completion has sent its value, further polls succeed and leave the channel alone.
pub proof fn law_sent_completion_stays_done<T>(pending: Seq<T>, len: nat)
    ensures
        poll_result(None::<T>, pending, len) is Ok,
        value_after_poll(None::<T>, pending, len) is None,
        after_poll(None::<T>, pending, len) == pending,
{
}

/// A send is refused exactly if one less value is pending than the ring has slots, and there is
/// only one reason to refuse.
pub proof fn law_send_is_refused_for_want_of_room<T>(pending: Seq<T>, len: nat)
    ensures
        send_result(pending, len) is Ok <==> pending.len() + 1 < len,
        send_result(pending, len) matches Err(e) ==> e == nb::Error::<Infallible>::WouldBlock,
{
}

/// A send puts its value in exactly one place: if it succeeds, the value is the last one pending
/// and is not handed back, and if it is refused, the value is handed back and nothing has changed.
pub proof fn law_sent_value_is_in_one_place<T>(pending: Seq<T>, len: nat, value: T)
    ensures
        send_result(pending, len) is Ok ==> {
            &&& unsent(pending, len, value) is None
            &&& after_send(pending, len, value) == pending.push(value)
        },
        send_result(pending, len) is Err ==> {
            &&& unsent(pending, len, value) == Some(value)
            &&& after_send(pending, len, value) == pending
        },
{
}

/// A receive takes out the value it returns, from the front, and no other. It is refused exactly
/// if nothing is pending, and then changes nothing.
pub proof fn law_received_value_was_the_first<T>(pending: Seq<T>)
    ensures
        recv_result(pending) is Ok <==> pending.len() > 0,
        recv_result(pending) matches Ok(value) ==> pending == seq![value] + after_recv(pending),
        recv_result(pending) matches Err(e) ==> {
            &&& e == nb::Error::<Infallible>::WouldBlock
            &&& after_recv(pending) == pending
        },
{
    if pending.len() > 0 {
        assert(pending =~= seq![pending.first()] + pending.drop_first());
    }
}

/// A poll answers `Ok` exactly if the completion holds nothing afterwards, and whatever value it
/// held has then gone behind the pending ones. Otherwise the completion still holds its value and
/// nothing has changed, which happens exactly if there is no room for it.
pub proof fn law_poll_succeeds_when_nothing_is_held<T>(
    value: Option<T>,
    pending: Seq<T>,
    len: nat,
)
    ensures
        poll_result(value, pending, len) is Ok <==> value_after_poll(value, pending, len) is None,
        poll_result(value, pending, len) is Err <==> value is Some && pending.len() + 1 >= len,
        poll_result(value, pending, len) matches Err(e) ==> {
            &&& e == nb::Error::<Infallible>::WouldBlock
            &&& value_after_poll(value, pending, len) == value
            &&& after_poll(value, pending, len) == pending
        },
        poll_result(value, pending, len) is Ok ==> after_poll(value, pending, len) == match value {
            Some(value) => pending.push(value),
            None => pending,
        },
{
}

/// A poll of a completion that holds a value is a send of that value that keeps what is handed
/// back.
pub proof fn law_poll_is_a_lossless_send<T>(value: T, pending: Seq<T>, len: nat)
    ensures
        poll_result(Some(value), pending, len) == send_result(pending, len),
        value_after_poll(Some(value), pending, len) == unsent(pending, len, value),
        after_poll(Some(value), pending, len) == after_send(pending, len, value),
{
}

/// A call of `recv` leaves a channel from which exactly the oldest pending value is gone, and its
/// slot empty, if there was one. The others are pending as before.
pub proof fn law_recv_leaves_the_rest<T>(before: Channel<'_, T>, after: Channel<'_, T>)
    requires
        before.wf(),
        after.is_after_recv(before),
    ensures
        after.wf(),
        before@.len() == 0 ==> after@.len() == 0 && after.slots() == before.slots(),
        before@.len() > 0 ==> {
            &&& before@ == seq![before@[0]] + after@
            &&& before.slots()[before.head()] == Some(before@[0])
            &&& after.slots() == before.slots().update(before.head(), None)
            &&& after.head() == (before.head() + 1) % (before.slots().len() as int)
        },
{
    if before@.len() > 0 {
        assert(before@ =~= seq![before@[0]] + after@);
        law_ring_slot_is_a_remainder(before.head(), 1, before.slots().len() as int);
        assert(after.slots() =~= before.slots().update(before.head(), None));
    } else {
        assert(after.slots() =~= before.slots());
    }
}

/// A call of `send` or `send_lossless` that has room for it leaves a channel whose last pending
/// value is the one that was sent, in the slot behind the others, which are pending as before. One
/// that has not leaves the channel alone.
pub proof fn law_send_adds_its_value<T>(before: Channel<'_, T>, after: Channel<'_, T>, value: T)
    requires
        before.wf(),
        before.slots().len() > 0,
        after.is_after_send(before, value),
    ensures
        after.wf(),
        after.head() == before.head(),
        before@.len() + 1 < before.slots().len() ==> {
            let tail = (before.head() + before@.len()) % (before.slots().len() as int);
            &&& after@ == before@.push(value)
            &&& before.slots()[tail] is None
            &&& after.slots() == before.slots().update(tail, Some(value))
        },
        before@.len() + 1 >= before.slots().len() ==> {
            &&& after@ == before@
            &&& after.slots() == before.slots()
        },
{
    law_pending_fits_the_buffer(before);
    law_ring_slot_is_a_remainder(
        before.head(),
        before@.len() as int,
        before.slots().len() as int,
    );
    if before@.len() + 1 < before.slots().len() {
        let tail = ring_slot(before.head(), before@.len() as int, before.slots().len() as int);
        assert(after.slots() =~= before.slots().update(tail, Some(value)));
    } else {
        assert(after.slots() =~= before.slots());
    }
}

/// Whether `after` is the channel `before`, after one call.
pub open spec fn is_after_step<T>(
    after: Channel<'_, T>,
    before: Channel<'_, T>,
    step: Step<T>,
) -> bool {
    match step {
        Step::Send(value) => after.is_after_send(before, value),
        Step::Recv => after.is_after_recv(before),
    }
}

/// The channels that the calls of `steps` leave one after the other go through what the laws on
/// pending values say of `steps`, and the oldest pending value has moved on by one slot for every
/// value that was received.
pub proof fn law_calls_on_a_channel<T>(channels: Seq<Channel<'_, T>>, steps: Seq<Step<T>>)
    requires
        channels.len() == steps.len() + 1,
        channels.first().wf(),
        channels.first().slots().len() > 0,
        forall|i: int|
            0 <= i < steps.len() ==> is_after_step(
                channels[i + 1],
                channels[i],
                #[trigger] steps[i],
            ),
    ensures
        ({
            let first = channels.first();
            let last = channels.last();
            let len = first.slots().len();
            &&& last.wf()
            &&& last.slots().len() == len
            &&& last@ == pending_after(first@, len, steps)
            &&& delivered(first@, len, steps) + last@ == first@ + accepted(first@, len, steps)
            &&& last.head() == (first.head() + delivered(first@, len, steps).len()) % (len as int)
        }),
    decreases steps.len(),
{
    let first = channels.first();
    let last = channels.last();
    let len = first.slots().len();
    law_first_in_first_out(first@, len, steps);
    law_slots_hold_the_pending_values(first);
    if steps.len() == 0 {
        lemma_small_mod(first.head() as nat, len);
    } else {
        let earlier = channels.drop_last();
        let fewer = steps.drop_last();
        let before = earlier.last();
        assert forall|i: int| 0 <= i < fewer.len() implies is_after_step(
            earlier[i + 1],
            earlier[i],
            #[trigger] fewer[i],
        ) by {
            assert(is_after_step(channels[i + 1], channels[i], steps[i]));
        }
        law_calls_on_a_channel(earlier, fewer);
        assert(is_after_step(last, before, steps.last()));
        let count = delivered(first@, len, fewer).len() as int;
        law_slots_hold_the_pending_values(before);
        law_ring_slot_is_a_remainder(before.head(), 1, len as int);
        lemma_add_mod_noop(first.head() + count, 1, len as int);
        lemma_add_mod_noop((first.head() + count) % (len as int), 1, len as int);
        lemma_mod_twice(first.head() + count, len as int);
    }
}

} // verus!
