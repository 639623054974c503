//! FIFO implemented using the `nb` non-blocking I/O API.
//!
//! There are no heap allocations: the slots of a [`Channel`] belong to the caller, who lends them
//! to it.
//!
//! A channel is worked on through an exclusive borrow, so that a contract can say what every call
//! finds and leaves. The borrow that a [`Receiver`] holds is the one that both ends of a split
//! channel work through: a [`Sender`] is handed the receiver for the time of a call.
//!
//! The decisions that the calls rest on stand in [`ring`] as functions of the two indices alone.
//! [`laws`] states what follows for whole sequences of calls, and [`interleaving`] what holds
//! where the two ends take their decisions and touch their slots at the same time.
use core::convert::Infallible;
use core::mem::swap;
use vstd::prelude::*;

use crate::fifo::ring::{
    after_poll, after_recv, after_send, head_after_recv, law_ring_slot_is_a_remainder, layout,
    next_index, poll_result,
    recv_result, recv_slot, ring_distance, ring_slot, send_result, send_slot, unsent,
    value_after_poll,
};

pub mod interleaving;
pub mod laws;
pub mod ring;

verus! {

/// Marker trait implemented on objects that represent a non-reentrant context for the function
/// being called.
///
/// An implementation promises that, as long as a value of the type exists, no function that it
/// was handed to is called again before it has returned.
pub trait NonReentrant {

}

impl NonReentrant for bare_metal::CriticalSection {

}

/// Token created for situations where the type has statically ensured non-reentrancy
struct NonReentrantToken {
    _0: (),
}

impl NonReentrantToken {
    /// Creates a new non-reentrant token
    fn new() -> (token: Self)
        ensures
            token == (NonReentrantToken { _0: () }),
    {
        NonReentrantToken { _0: () }
    }
}

impl NonReentrant for NonReentrantToken {

}

/// Non-blocking FIFO
///
/// Alone, calling the `recv` and `send` methods on the channel requires that the caller guarantee
/// that those functions won't be called reentrantly. In order to remove this restriction, the
/// `split` function can be called to split out the channel into a separate `Sender` and `Receiver`
/// who use `&mut self` to guarantee non-reentrancy.
///
/// The view of a channel is the sequence of the values that were sent and not yet received, oldest
/// first. Together with [`Channel::head`] and the number of slots it determines all of the state.
#[derive(Debug)]
pub struct Channel<'a, T> {
    buffer: &'a mut [Option<T>],
    send_index: usize,
    recv_index: usize,
}

impl<'a, T> View for Channel<'a, T> {
    type V = Seq<T>;

    /// The values that were sent and not yet received, oldest first.
    closed spec fn view(&self) -> Seq<T> {
        Seq::new(
            self.pending_len() as nat,
            |i: int|
                self.buffer@[ring_slot(self.recv_index as int, i, self.buffer@.len() as int)]->0,
        )
    }
}

impl<'a, T> Channel<'a, T> {
    /// The storage that the channel borrows. What it holds when the channel is gone is
    /// `final(channel.storage())@`; no call but the last one settles that.
    pub closed spec fn storage(&self) -> &'a mut [Option<T>] {
        self.buffer
    }

    /// The slots of the storage, as they are now.
    pub open spec fn slots(&self) -> Seq<Option<T>> {
        self.storage()@
    }

    /// The slot that holds the oldest pending value, if there is one.
    pub closed spec fn head(&self) -> int {
        self.recv_index as int
    }

    spec fn pending_len(&self) -> int {
        ring_distance(self.recv_index as int, self.send_index as int, self.buffer@.len() as int)
    }

    /// Both indices name a slot (or are zero where there is none), and the slots that are in use
    /// are those from the next one to read up to the next one to write.
    pub closed spec fn wf(&self) -> bool {
        &&& if self.buffer@.len() == 0 {
            self.send_index == 0 && self.recv_index == 0
        } else {
            self.send_index < self.buffer@.len() && self.recv_index < self.buffer@.len()
        }
        &&& self.buffer@ == layout(self@, self.head(), self.buffer@.len())
    }

    /// Whether this is the channel `before`, after a receive.
    pub open spec fn is_after_recv(&self, before: Self) -> bool {
        &&& self.wf()
        &&& self@ == after_recv(before@)
        &&& self.head() == head_after_recv(before@, before.head(), before.slots().len())
        &&& self.slots().len() == before.slots().len()
    }

    /// Whether this is the channel `before`, after a send of `value`.
    pub open spec fn is_after_send(&self, before: Self, value: T) -> bool {
        &&& self.wf()
        &&& self@ == after_send(before@, before.slots().len(), value)
        &&& self.head() == before.head()
        &&& self.slots().len() == before.slots().len()
    }

    /// Creates a new channel
    ///
    /// The passed buffer will be borrowed for the lifetime of this channel and will serve as the
    /// shared storage between the sender and receiver. Whatever it held is dropped.
    ///
    /// To aid in optimization, the length of the slice should be a power of 2. But it doesn't have
    /// to be. A channel over an empty slice never has anything to receive and cannot send.
    pub fn new(buffer: &'a mut [Option<T>]) -> (channel: Self)
        ensures
            channel.wf(),
            channel@ == Seq::<T>::empty(),
            channel.head() == 0,
            channel.slots().len() == old(buffer)@.len(),
            forall|i: int| 0 <= i < channel.slots().len() ==> channel.slots()[i] is None,
            final(channel.storage())@ == final(buffer)@,
    {
        let mut i: usize = 0;
        while i < buffer.len()
            invariant
                i <= buffer@.len(),
                buffer@.len() == old(buffer)@.len(),
                forall|j: int| 0 <= j < i ==> buffer@[j] is None,
                final(buffer)@ == final(old(buffer))@,
            decreases buffer@.len() - i,
        {
            buffer[i] = None;
            i = i + 1;
        }
        let channel = Channel { buffer: buffer, send_index: 0, recv_index: 0 };
        assert(channel.slots() =~= layout(channel@, 0, channel.slots().len()));
        channel
    }

    /// Returns the length of the channel buffer
    ///
    /// Note that the actual number of items that can be pending in the channel is 1 less than this
    /// value.
    pub fn len(&self) -> (len: usize)
        ensures
            len == self.slots().len(),
    {
        self.buffer.len()
    }

    /// Receives from the channel
    ///
    /// This returns the oldest pending value if there is one, otherwise it returns a `WouldBlock`
    /// and leaves the channel as it was. It is only unsuccessful if the Channel is empty.
    ///
    /// This requires a guarantee by the caller that this function will not be called reentrantly.
    pub fn recv(&mut self, _nr: &dyn NonReentrant) -> (result: nb::Result<T, Infallible>)
        requires
            old(self).wf(),
        ensures
            result == recv_result(old(self)@),
            final(self).is_after_recv(*old(self)),
            result is Ok <==> old(self)@.len() > 0,
            result matches Err(e) ==> e == nb::Error::<Infallible>::WouldBlock,
            result matches Ok(value) ==> {
                &&& old(self)@ == seq![value] + final(self)@
                &&& final(self).slots() == old(self).slots().update(old(self).head(), None)
            },
            result is Err ==> *final(self) == *old(self),
            final(final(self).storage())@ == final(old(self).storage())@,
    {
        match recv_slot(self.send_index, self.recv_index) {
            None => Err(nb::Error::WouldBlock),
            Some(index) => {
                let mut val: Option<T> = None;
                swap(&mut val, &mut self.buffer[index]);
                self.recv_index = next_index(index, self.len());
                assert(self@ =~= old(self)@.drop_first());
                assert(old(self)@ =~= seq![old(self)@.first()] + self@);
                assert(self.slots() =~= layout(self@, self.head(), self.slots().len()));
                match val {
                    None => Err(nb::Error::WouldBlock),
                    Some(v) => Ok(v),
                }
            },
        }
    }

    /// Sends a value to the channel
    ///
    /// This returns a `Ok(())` if successful, otherwise it drops the value, leaves the channel as
    /// it was and returns a `WouldBlock`. It is only unsuccessful if the Channel is full.
    ///
    /// This requires a guarantee by the caller that this function will not be called reentrantly.
    pub fn send(&mut self, value: T, nr: &dyn NonReentrant) -> (result: nb::Result<(), Infallible>)
        requires
            old(self).wf(),
            old(self).slots().len() > 0,
        ensures
            result == send_result(old(self)@, old(self).slots().len()),
            final(self).is_after_send(*old(self), value),
            result is Ok <==> old(self)@.len() + 1 < old(self).slots().len(),
            result matches Err(e) ==> e == nb::Error::<Infallible>::WouldBlock,
            result is Ok ==> {
                let tail = (old(self).head() + old(self)@.len()) % (old(self).slots().len() as int);
                &&& final(self)@ == old(self)@.push(value)
                &&& final(self).slots() == old(self).slots().update(tail, Some(value))
            },
            result is Err ==> *final(self) == *old(self),
            final(final(self).storage())@ == final(old(self).storage())@,
    {
        self.send_lossless(value, nr).0
    }

    /// Sends a value to the channel, preserving the passed value if unsuccessful
    ///
    /// This returns a `(Ok(()), None)` if successful, otherwise it returns a `WouldBlock` with the
    /// `Option` set to the passed value. It is only unsuccessful if the Channel is full.
    ///
    /// This requires a guarantee by the caller that this function will not be called reentrantly.
    pub fn send_lossless(&mut self, value: T, _nr: &dyn NonReentrant) -> (result: (
        nb::Result<(), Infallible>,
        Option<T>,
    ))
        requires
            old(self).wf(),
            old(self).slots().len() > 0,
        ensures
            result.0 == send_result(old(self)@, old(self).slots().len()),
            result.1 == unsent(old(self)@, old(self).slots().len(), value),
            final(self).is_after_send(*old(self), value),
            result.0 is Err ==> result.1 == Some(value),
            result.0 is Ok ==> result.1 is None,
            result.0 is Ok <==> old(self)@.len() + 1 < old(self).slots().len(),
            result.0 matches Err(e) ==> e == nb::Error::<Infallible>::WouldBlock,
            result.0 is Ok ==> {
                let tail = (old(self).head() + old(self)@.len()) % (old(self).slots().len() as int);
                &&& final(self)@ == old(self)@.push(value)
                &&& final(self).slots() == old(self).slots().update(tail, Some(value))
            },
            result.0 is Err ==> *final(self) == *old(self),
            final(final(self).storage())@ == final(old(self).storage())@,
    {
        match send_slot(self.send_index, self.recv_index, self.len()) {
            None => (Err(nb::Error::WouldBlock), Some(value)),
            Some(index) => {
                let mut val: Option<T> = Some(value);
                swap(&mut val, &mut self.buffer[index]);
                self.send_index = next_index(index, self.len());
                proof {
                    law_ring_slot_is_a_remainder(
                        old(self).head(),
                        old(self)@.len() as int,
                        old(self).slots().len() as int,
                    );
                }
                assert(self@ =~= old(self)@.push(value));
                assert(self.slots() =~= layout(self@, self.head(), self.slots().len()));
                (Ok(()), None)
            },
        }
    }
}

impl<'a, 'b: 'a, T> Channel<'b, T> {
    /// Builds a sender and receiver for this channel
    ///
    /// The mutable borrow of self in this function will be for as long as the lifetimes of the
    /// receiver and sender. This ensures that the Channel stays in one place in memory and can't be
    /// split again while the sender and receiver are doing their thing. When they are gone, the
    /// channel is as they left it (see [`law_receiver_leaves_its_channel`]).
    ///
    /// The sender and receiver are not clonable. Due to this property they remove the requirement
    /// for the caller to provide a `NonReentrant` to the `send` and `recv` functions.
    pub fn split(&'a mut self) -> (ends: (Receiver<'a, 'b, T>, Sender<'a, 'b, T>))
        ensures
            *ends.0.channel() == *old(self),
            *final(ends.0.channel()) == *final(self),
            *final(ends.1.channel()) == *final(self),
    {
        let ghost channel = self;
        (Receiver::new(self), Sender::new(Ghost(channel)))
    }
}

/// Channel Receiver removing the need for a `NonReentrant`
///
/// The Channel Receiver is not clonable. Since it uses a `&mut self` on the `recv` function, it
/// eliminates the need for the caller to explicitly guarantee non-reentrancy when calling the
/// `recv` function.
#[derive(Debug)]
pub struct Receiver<'a, 'b, T> {
    inner: &'a mut Channel<'b, T>,
}

impl<'a, 'b: 'a, T> Receiver<'a, 'b, T> {
    /// The channel that the receiver takes from. What the channel is when the receiver is gone is
    /// `*final(receiver.channel())`.
    pub closed spec fn channel(&self) -> &'a mut Channel<'b, T> {
        self.inner
    }

    /// Creates a new receiver from a channel reference
    fn new(channel: &'a mut Channel<'b, T>) -> (receiver: Self)
        ensures
            *receiver.channel() == *old(channel),
            *final(receiver.channel()) == *final(channel),
    {
        Receiver { inner: channel }
    }

    /// Receives an item from the Channel
    ///
    /// This returns the oldest pending value if there is one, otherwise it returns a `WouldBlock`.
    /// It is only unsuccessful if the Channel is empty.
    ///
    /// This does not require a `NonReentrant` guarantee since the `&mut self` is guarantee enough.
    pub fn recv(&mut self) -> (result: nb::Result<T, Infallible>)
        requires
            old(self).channel().wf(),
        ensures
            result == recv_result(old(self).channel()@),
            final(self).channel().is_after_recv(*old(self).channel()),
            result is Ok <==> old(self).channel()@.len() > 0,
            result matches Err(e) ==> e == nb::Error::<Infallible>::WouldBlock,
            result matches Ok(value) ==> {
                &&& old(self).channel()@ == seq![value] + final(self).channel()@
                &&& final(self).channel().slots() == old(self).channel().slots().update(
                    old(self).channel().head(),
                    None,
                )
            },
            result is Err ==> *final(self).channel() == *old(self).channel(),
            *final(final(self).channel()) == *final(old(self).channel()),
            final(final(self).channel().storage())@ == final(old(self).channel().storage())@,
    {
        let nr = NonReentrantToken::new();
        self.inner.recv(&nr)
    }
}

/// Channel Sender removing the need for a `NonReentrant`
///
/// The Channel Sender is not clonable. Since it uses a `&mut self` on the `send` function, it
/// eliminates the need for the caller to explicitly guarantee non-reentrancy when calling the
/// `send` function. It reaches the channel through the receiver of the same split, which the
/// caller lends it for the time of the call; a receiver of another channel is not accepted by the
/// contracts.
pub struct Sender<'a, 'b, T> {
    channel: Ghost<&'a mut Channel<'b, T>>,
}

impl<'a, 'b: 'a, T> Sender<'a, 'b, T> {
    /// The channel that the sender was split from. The receiver of the same split borrows it too,
    /// so the two agree on what becomes of it:
    /// `*final(sender.channel()) == *final(receiver.channel())`.
    pub closed spec fn channel(&self) -> &'a mut Channel<'b, T> {
        self.channel@
    }

    /// Creates a new sender for a channel
    fn new(channel: Ghost<&'a mut Channel<'b, T>>) -> (sender: Self)
        ensures
            sender.channel() == channel@,
    {
        Sender { channel: channel }
    }

    /// Sends an item on the channel.
    ///
    /// This returns a `Ok(())` if successful, otherwise it returns a `WouldBlock`. It is only
    /// unsuccessful if the Channel is full.
    ///
    /// This does not require a `NonReentrant` guarantee since the `&mut self` is guarantee enough.
    pub fn send(&mut self, value: T, receiver: &mut Receiver<'a, 'b, T>) -> (result: nb::Result<
        (),
        Infallible,
    >)
        requires
            *final(old(self).channel()) == *final(old(receiver).channel()),
            old(receiver).channel().wf(),
            old(receiver).channel().slots().len() > 0,
        ensures
            result == send_result(
                old(receiver).channel()@,
                old(receiver).channel().slots().len(),
            ),
            final(receiver).channel().is_after_send(*old(receiver).channel(), value),
            result is Ok <==> old(receiver).channel()@.len() + 1
                < old(receiver).channel().slots().len(),
            result matches Err(e) ==> e == nb::Error::<Infallible>::WouldBlock,
            result is Ok ==> {
                let before = *old(receiver).channel();
                let tail = (before.head() + before@.len()) % (before.slots().len() as int);
                &&& final(receiver).channel()@ == before@.push(value)
                &&& final(receiver).channel().slots() == before.slots().update(tail, Some(value))
            },
            result is Err ==> *final(receiver).channel() == *old(receiver).channel(),
            *final(final(receiver).channel()) == *final(old(receiver).channel()),
            final(final(receiver).channel().storage())@
                == final(old(receiver).channel().storage())@,
            *final(self) == *old(self),
    {
        self.send_lossless(value, receiver).0
    }

    /// Sends an item on the channel, preserving the passed value if unsuccessful
    ///
    /// This returns a `(Ok(()), None)` if successful, otherwise it returns a `WouldBlock`. It is
    /// only unsuccessful if the Channel is full. If it is unsuccessful, the function will return
    /// `(Err(nb::Error::WouldBlock), Some(T))`. The `Option<T>` will contain the unsent value.
    ///
    /// This does not require a `NonReentrant` guarantee since the `&mut self` is guarantee enough.
    pub fn send_lossless(&mut self, value: T, receiver: &mut Receiver<'a, 'b, T>) -> (result: (
        nb::Result<(), Infallible>,
        Option<T>,
    ))
        requires
            *final(old(self).channel()) == *final(old(receiver).channel()),
            old(receiver).channel().wf(),
            old(receiver).channel().slots().len() > 0,
        ensures
            result.0 == send_result(
                old(receiver).channel()@,
                old(receiver).channel().slots().len(),
            ),
            result.1 == unsent(
                old(receiver).channel()@,
                old(receiver).channel().slots().len(),
                value,
            ),
            final(receiver).channel().is_after_send(*old(receiver).channel(), value),
            result.0 is Err ==> result.1 == Some(value),
            result.0 is Ok ==> result.1 is None,
            result.0 is Ok <==> old(receiver).channel()@.len() + 1
                < old(receiver).channel().slots().len(),
            result.0 matches Err(e) ==> e == nb::Error::<Infallible>::WouldBlock,
            result.0 is Ok ==> {
                let before = *old(receiver).channel();
                let tail = (before.head() + before@.len()) % (before.slots().len() as int);
                &&& final(receiver).channel()@ == before@.push(value)
                &&& final(receiver).channel().slots() == before.slots().update(tail, Some(value))
            },
            result.0 is Err ==> *final(receiver).channel() == *old(receiver).channel(),
            *final(final(receiver).channel()) == *final(old(receiver).channel()),
            final(final(receiver).channel().storage())@
                == final(old(receiver).channel().storage())@,
            *final(self) == *old(self),
    {
        let nr = NonReentrantToken::new();
        receiver.inner.send_lossless(value, &nr)
    }

    /// Sends an item on the channel, returning a [`SendCompletion`].
    ///
    /// The `SendCompletion` provides a more ergonomic `poll` method for types that cannot be
    /// cloned.
    pub fn send_with_completion(self, value: T) -> (completion: SendCompletion<'a, 'b, T>)
        ensures
            completion.sender() == self,
            completion.value() == Some(value),
    {
        SendCompletion::new(self, value)
    }
}

/// Sends a value along a channel.
///
/// This is created through `Sender::send_with_completion` and provides a `poll` function that can
/// be called until it succeeds, while still allowing the owned `T` to be retrieved.
pub struct SendCompletion<'a, 'b, T> {
    sender: Sender<'a, 'b, T>,
    value: Option<T>,
}

impl<'a, 'b: 'a, T> SendCompletion<'a, 'b, T> {
    /// The sender that the completion took over.
    pub closed spec fn sender(&self) -> Sender<'a, 'b, T> {
        self.sender
    }

    /// The value, as long as it has not been sent.
    pub closed spec fn value(&self) -> Option<T> {
        self.value
    }

    /// Constructs a new SendCompletion
    fn new(sender: Sender<'a, 'b, T>, value: T) -> (completion: Self)
        ensures
            completion.sender() == sender,
            completion.value() == Some(value),
    {
        SendCompletion { sender: sender, value: Some(value) }
    }

    /// Attempts to send the value that this completion was created for.
    ///
    /// Once the value has been sent, subsequent calls return `Ok(())` and do nothing.
    pub fn poll(&mut self, receiver: &mut Receiver<'a, 'b, T>) -> (result: nb::Result<
        (),
        Infallible,
    >)
        requires
            *final(old(self).sender().channel()) == *final(old(receiver).channel()),
            old(self).value() is Some ==> old(receiver).channel().wf(),
            old(self).value() is Some ==> old(receiver).channel().slots().len() > 0,
        ensures
            final(self).sender() == old(self).sender(),
            result == poll_result(
                old(self).value(),
                old(receiver).channel()@,
                old(receiver).channel().slots().len(),
            ),
            final(self).value() == value_after_poll(
                old(self).value(),
                old(receiver).channel()@,
                old(receiver).channel().slots().len(),
            ),
            final(receiver).channel()@ == after_poll(
                old(self).value(),
                old(receiver).channel()@,
                old(receiver).channel().slots().len(),
            ),
            match old(self).value() {
                Some(value) => final(receiver).channel().is_after_send(
                    *old(receiver).channel(),
                    value,
                ),
                None => *final(receiver).channel() == *old(receiver).channel(),
            },
            result is Ok <==> final(self).value() is None,
            result is Ok <==> (old(self).value() is Some ==> old(receiver).channel()@.len() + 1
                < old(receiver).channel().slots().len()),
            result matches Err(e) ==> e == nb::Error::<Infallible>::WouldBlock,
            result is Err ==> final(self).value() == old(self).value(),
            result is Ok && old(self).value() is Some ==> final(receiver).channel()@
                == old(receiver).channel()@.push(old(self).value()->0),
            result is Err ==> *final(receiver).channel() == *old(receiver).channel(),
            *final(final(receiver).channel()) == *final(old(receiver).channel()),
            final(final(receiver).channel().storage())@
                == final(old(receiver).channel().storage())@,
    {
        let mut value: Option<T> = None;
        swap(&mut value, &mut self.value);
        match value {
            Some(value) => {
                let (result, unsent) = self.sender.send_lossless(value, receiver);
                self.value = unsent;
                result
            },
            None => Ok(()),
        }
    }

    /// Discards this completion, optionally returning the inner value if it wasn't sent.
    pub fn done(self) -> (result: (Sender<'a, 'b, T>, Option<T>))
        ensures
            result.0 == self.sender(),
            result.1 == self.value(),
    {
        (self.sender, self.value)
    }
}

/// When a receiver is gone, its channel stays as the receiver left it.
pub broadcast proof fn law_receiver_leaves_its_channel<T>(receiver: Receiver<'_, '_, T>)
    ensures
        #[trigger] has_resolved(receiver) ==> *receiver.channel() == *final(receiver.channel()),
{
}

/// When a channel is gone, its storage stays as the channel left it.
pub broadcast proof fn law_channel_leaves_its_storage<T>(channel: Channel<'_, T>)
    ensures
        #[trigger] has_resolved(channel) ==> channel.storage()@ == final(channel.storage())@,
{
}

} // verus!
