//! Nonblocking synchronization structures
//!
//! All allocations are the responsibility of the caller: nothing here uses the heap.
//!
//! # The Mutex
//!
//! The [`Mutex`] provided here can be used to provide exclusive access to a value. Because of this
//! library's non-blocking nature, care must be exercised to avoid resource starvation. The lock
//! method requires a `bare_metal::CriticalSection`.
//!
//! # The Channel
//!
//! The [`fifo::Channel`] provides a single-producer single-consumer queue which can be optionally
//! split into a [`fifo::Sender`] and [`fifo::Receiver`]. A key difference between using the
//! `Channel` by itself vs the `Sender` and `Receiver` together is that the `Channel` requires a
//! [`fifo::NonReentrant`], such as a `bare_metal::CriticalSection`, for several of its methods. The
//! `Sender` and `Receiver` can be used without this requirement.
//!
//! ## Sending
//!
//! `fifo::Sender::send` can be tried again until it succeeds, with a clone of the value each time.
//!
//! Non-clonable types can be sent using the [`fifo::Sender::send_with_completion`] method. This is
//! based on the [`fifo::Sender::send_lossless`] method. A [`fifo::SendCompletion`] takes ownership
//! of the `Sender` and the passed value for the duration of the sending process. When
//! [`fifo::SendCompletion::done`] is called the `Sender` will be returned along with an `Option`
//! which contains the original value if it was not ultimately sent.
pub mod external;
pub mod fifo;
pub mod mutex;

pub use crate::mutex::{Mutex, MutexGuard};
