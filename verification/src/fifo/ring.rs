//! Positions in a ring of slots, and the contents of a ring that serves as a queue.
use core::convert::Infallible;
use vstd::arithmetic::div_mod::{
    lemma_fundamental_div_mod_converse, lemma_mod_self_0, lemma_small_mod,
};
use vstd::prelude::*;

use crate::external::would_block;

verus! {

/// The slot that lies `steps` places after slot `from` in a ring of `len` slots.
pub open spec fn ring_slot(from: int, steps: int, len: int) -> int
    recommends
        0 <= from < len,
        0 <= steps <= len,
{
    if from + steps < len {
        from + steps
    } else {
        from + steps - len
    }
}

/// How many places slot `slot` lies after slot `from` in a ring of `len` slots.
pub open spec fn ring_distance(from: int, slot: int, len: int) -> int
    recommends
        0 <= from < len,
        0 <= slot < len,
{
    if from <= slot {
        slot - from
    } else {
        slot - from + len
    }
}

/// The slots of a ring whose queue holds `pending`, oldest value first, starting at slot `head`:
/// the values lie in consecutive slots and every other slot is empty.
pub open spec fn layout<T>(pending: Seq<T>, head: int, len: nat) -> Seq<Option<T>> {
    Seq::new(
        len,
        |slot: int|
            {
                let place = ring_distance(head, slot, len as int);
                if place < pending.len() {
                    Some(pending[place])
                } else {
                    None
                }
            },
    )
}

/// Whether a ring of `len` slots has no room for a value beside `pending`. One slot always stays
/// empty.
pub open spec fn is_full<T>(pending: Seq<T>, len: nat) -> bool {
    pending.len() + 1 >= len
}

/// What a send to a queue that holds `pending` answers.
pub open spec fn send_result<T>(pending: Seq<T>, len: nat) -> nb::Result<(), Infallible> {
    if is_full(pending, len) {
        would_block()
    } else {
        Ok(())
    }
}

/// What a send hands back of the value it was given.
pub open spec fn unsent<T>(pending: Seq<T>, len: nat, value: T) -> Option<T> {
    if is_full(pending, len) {
        Some(value)
    } else {
        None
    }
}

/// What a queue holds after a send of `value`.
pub open spec fn after_send<T>(pending: Seq<T>, len: nat, value: T) -> Seq<T> {
    if is_full(pending, len) {
        pending
    } else {
        pending.push(value)
    }
}

/// What a receive from a queue that holds `pending` answers.
pub open spec fn recv_result<T>(pending: Seq<T>) -> nb::Result<T, Infallible> {
    if pending.len() == 0 {
        would_block()
    } else {
        Ok(pending.first())
    }
}

/// What a queue holds after a receive.
pub open spec fn after_recv<T>(pending: Seq<T>) -> Seq<T> {
    if pending.len() == 0 {
        pending
    } else {
        pending.drop_first()
    }
}

/// Where the queue of a ring starts after a receive.
pub open spec fn head_after_recv<T>(pending: Seq<T>, head: int, len: nat) -> int {
    if pending.len() == 0 {
        head
    } else {
        ring_slot(head, 1, len as int)
    }
}

/// What a poll of a completion answers that holds `value`, if it has not been sent yet.
pub open spec fn poll_result<T>(value: Option<T>, pending: Seq<T>, len: nat) -> nb::Result<
    (),
    Infallible,
> {
    match value {
        Some(_) => send_result(pending, len),
        None => Ok(()),
    }
}

/// What a completion that holds `value` holds after a poll.
pub open spec fn value_after_poll<T>(value: Option<T>, pending: Seq<T>, len: nat) -> Option<T> {
    match value {
        Some(value) => unsent(pending, len, value),
        None => None,
    }
}

/// What a queue holds after a poll of a completion that holds `value`.
pub open spec fn after_poll<T>(value: Option<T>, pending: Seq<T>, len: nat) -> Seq<T> {
    match value {
        Some(value) => after_send(pending, len, value),
        None => pending,
    }
}

/// The index of the slot after `index` in a ring of `len` slots.
pub fn next_index(index: usize, len: usize) -> (next: usize)
    requires
        index < len,
    ensures
        next == ring_slot(index as int, 1, len as int),
        index + 1 < len ==> next == index + 1,
        index + 1 == len ==> next == 0,
{
    proof {
        if index + 1 < len {
            lemma_small_mod((index + 1) as nat, len as nat);
        } else {
            lemma_mod_self_0(len as int);
        }
    }
    (index + 1) % len
}

/// The slot that a receive takes its value from, or `None` if the queue is empty, which is when
/// the next slot to write is also the next slot to read.
pub open spec fn slot_to_recv(send_index: int, recv_index: int) -> Option<int> {
    if send_index == recv_index {
        None
    } else {
        Some(recv_index)
    }
}

/// The slot that a send puts its value into, or `None` if the queue is full, which is when the
/// slot after the next slot to write is the next slot to read.
pub open spec fn slot_to_send(send_index: int, recv_index: int, len: int) -> Option<int> {
    if ring_slot(send_index, 1, len) == recv_index {
        None
    } else {
        Some(send_index)
    }
}

/// Walking round the ring is counting modulo its length.
pub proof fn law_ring_slot_is_a_remainder(from: int, steps: int, len: int)
    requires
        0 <= from < len,
        0 <= steps <= len,
    ensures
        ring_slot(from, steps, len) == (from + steps) % len,
{
    if from + steps < len {
        lemma_small_mod((from + steps) as nat, len as nat);
    } else {
        lemma_fundamental_div_mod_converse(from + steps, len, 1, from + steps - len);
    }
}

/// The distance from one slot to another is the number of steps that lead from the one to the
/// other.
pub proof fn law_ring_distance_leads_there(from: int, slot: int, len: int)
    requires
        0 <= from < len,
        0 <= slot < len,
    ensures
        0 <= ring_distance(from, slot, len) < len,
        (from + ring_distance(from, slot, len)) % len == slot,
{
    law_ring_slot_is_a_remainder(from, ring_distance(from, slot, len), len);
}

/// Decides which slot a receive takes its value from, if any.
pub fn recv_slot(send_index: usize, recv_index: usize) -> (slot: Option<usize>)
    ensures
        slot is Some <==> slot_to_recv(send_index as int, recv_index as int) is Some,
        slot matches Some(index) ==> slot_to_recv(send_index as int, recv_index as int) == Some(
            index as int,
        ),
        slot is None <==> send_index == recv_index,
        slot matches Some(index) ==> index == recv_index,
{
    if send_index == recv_index {
        None
    } else {
        Some(recv_index)
    }
}

/// Decides which slot a send puts its value into, if any.
pub fn send_slot(send_index: usize, recv_index: usize, len: usize) -> (slot: Option<usize>)
    requires
        send_index < len,
    ensures
        slot is Some <==> slot_to_send(send_index as int, recv_index as int, len as int) is Some,
        slot matches Some(index) ==> slot_to_send(
            send_index as int,
            recv_index as int,
            len as int,
        ) == Some(index as int),
        slot is None <==> (send_index + 1 < len && send_index + 1 == recv_index) || (send_index + 1
            == len && recv_index == 0),
        slot matches Some(index) ==> index == send_index,
{
    if next_index(send_index, len) == recv_index {
        None
    } else {
        Some(send_index)
    }
}

} // verus!
