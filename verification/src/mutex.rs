//! The mutex and its guard.
//!
//! A mutex is locked through an exclusive borrow, and its guard holds on to that borrow. The
//! decisions stand in [`lock_count`] and [`unlock_count`] as functions of the count alone; [`laws`]
//! states what follows for any sequence of them.
use bare_metal::CriticalSection;
use core::convert::Infallible;
use core::mem::swap;
use core::ops::{Deref, DerefMut};
use vstd::prelude::*;

pub mod laws;

verus! {

/// The count of a mutex that nobody has locked.
pub const UNLOCKED: i32 = 1;

/// Whether a mutex with this count can be locked.
pub open spec fn can_lock(count: int) -> bool {
    count > 0
}

/// The count of a mutex after an attempt to lock it.
pub open spec fn count_after_lock(count: int) -> int {
    if can_lock(count) {
        count - 1
    } else {
        count
    }
}

/// The count of a mutex after it was unlocked.
pub open spec fn count_after_unlock(count: int) -> int {
    count + 1
}

/// The count of a mutex after it was locked, or `None` if it cannot be locked.
pub fn lock_count(count: i32) -> (next: Option<i32>)
    ensures
        next is Some <==> can_lock(count as int),
        next matches Some(next) ==> next == count_after_lock(count as int),
        next is Some <==> count > 0,
        next matches Some(next) ==> next == count - 1,
{
    if count > 0 {
        Some(count - 1)
    } else {
        None
    }
}

/// The count of a mutex after it was unlocked.
pub fn unlock_count(count: i32) -> (next: i32)
    requires
        count < i32::MAX,
    ensures
        next == count_after_unlock(count as int),
        next == count + 1,
    opens_invariants none
    no_unwind
{
    count + 1
}

/// Mutex
///
/// This mutex assumes that `panic!` is unrecoverable and crashes the program: it does not
/// implement the concept of "poisoning".
///
/// Since this mutex is polled and does not block, it is easy to have resource starvation occur.
/// Care should be taken as to where the `lock` function is called to allow other tasks to have an
/// opportunity to also grab the mutex.
pub struct Mutex<T> {
    data: T,
    count: i32,
}

impl<T> Mutex<T> {
    /// The value that the mutex protects.
    pub closed spec fn value(&self) -> T {
        self.data
    }

    /// How many more times the mutex can be locked.
    pub closed spec fn count(&self) -> int {
        self.count as int
    }

    /// Creates a new mutex in the unlocked state
    pub fn new(val: T) -> (mutex: Self)
        ensures
            mutex.value() == val,
            mutex.count() == UNLOCKED,
            mutex.count() == 1,
    {
        Mutex { data: val, count: UNLOCKED }
    }

    /// Attempts to lock the mutex
    ///
    /// Once this function returns a `MutexGuard`, locking fails until the `MutexGuard` is dropped
    /// or released. A guard that is leaked leaves the mutex locked.
    pub fn lock(&mut self, _cs: &CriticalSection) -> (result: nb::Result<
        MutexGuard<'_, T>,
        Infallible,
    >)
        ensures
            result is Ok <==> can_lock(old(self).count()),
            result is Ok <==> old(self).count() > 0,
            result matches Err(e) ==> {
                &&& e == nb::Error::<Infallible>::WouldBlock
                &&& *final(self) == *old(self)
            },
            result matches Ok(guard) ==> {
                &&& guard.wf()
                &&& *guard.data() == old(self).value()
                &&& *guard.count() == count_after_lock(old(self).count())
                &&& *guard.count() == old(self).count() - 1
                &&& final(self).value() == *final(guard.data())
                &&& final(self).count() == *final(guard.count())
            },
    {
        self.try_lock()
    }

    /// Attempts to lock the mutex without a critical section
    ///
    /// The exclusive borrow already keeps everything else away from the count. Otherwise this is
    /// `lock`.
    pub fn try_lock(&mut self) -> (result: nb::Result<MutexGuard<'_, T>, Infallible>)
        ensures
            result is Ok <==> can_lock(old(self).count()),
            result is Ok <==> old(self).count() > 0,
            result matches Err(e) ==> {
                &&& e == nb::Error::<Infallible>::WouldBlock
                &&& *final(self) == *old(self)
            },
            result matches Ok(guard) ==> {
                &&& guard.wf()
                &&& *guard.data() == old(self).value()
                &&& *guard.count() == count_after_lock(old(self).count())
                &&& *guard.count() == old(self).count() - 1
                &&& final(self).value() == *final(guard.data())
                &&& final(self).count() == *final(guard.count())
            },
    {
        match lock_count(self.count) {
            Some(count) => {
                self.count = count;
                Ok(MutexGuard::new(&mut self.data, &mut self.count))
            },
            None => Err(nb::Error::WouldBlock),
        }
    }

    /// Consumes this mutex and returns the underlying data
    ///
    /// This is statically safe since we consume `self`.
    pub fn into_inner(self) -> (val: T)
        ensures
            val == self.value(),
    {
        self.data
    }
}

impl<T> From<T> for Mutex<T> {
    /// Creates a new mutex from a value in an unlocked state
    fn from(v: T) -> (mutex: Mutex<T>)
        ensures
            mutex.value() == v,
            mutex.count() == UNLOCKED,
            mutex.count() == 1,
    {
        Mutex::new(v)
    }
}

impl<T> vstd::std_specs::convert::FromSpecImpl<T> for Mutex<T> {
    open spec fn obeys_from_spec() -> bool {
        true
    }

    closed spec fn from_spec(v: T) -> Mutex<T> {
        Mutex { data: v, count: UNLOCKED }
    }
}

/// A claim on the count of a locked mutex: the count goes up by one when the claim ends.
pub struct Permit<'a> {
    count: Option<&'a mut i32>,
}

impl<'a> Permit<'a> {
    /// There is room for the count to go up.
    #[verifier::type_invariant]
    spec fn inv(self) -> bool {
        self.count matches Some(count) ==> *count < i32::MAX
    }

    /// The count that the claim is on, until it ends.
    pub closed spec fn count(&self) -> Option<&'a mut i32> {
        self.count
    }

    /// Unlocks the mutex, once.
    fn unlock(&mut self)
        ensures
            old(self).count() matches Some(count) ==> *final(count) == count_after_unlock(
                *count as int,
            ),
            old(self).count() matches Some(count) ==> *final(count) == *count + 1,
            final(self).count() is None,
        opens_invariants none
        no_unwind
    {
        proof {
            use_type_invariant(&*self);
        }
        let mut claim: Option<&'a mut i32> = None;
        swap(&mut claim, &mut self.count);
        match claim {
            Some(count) => {
                *count = unlock_count(*count);
            },
            None => {},
        }
    }
}

impl<'a> Drop for Permit<'a> {
    /// Releases this claim
    fn drop(&mut self)
        ensures
            old(self).count() matches Some(count) ==> *final(count) == count_after_unlock(
                *count as int,
            ),
            old(self).count() matches Some(count) ==> *final(count) == *count + 1,
            final(self).count() is None,
        opens_invariants none
        no_unwind
    {
        self.unlock();
    }
}

/// Scoped mutex access. This will unlock the mutex when dropped.
///
/// The guard unlocks through the [`Permit`] in it, whose destructor adds to the count. Proofs know
/// what a destructor does, but not when it runs. So after a guard went out of scope a proof knows
/// the value of the mutex (see [`law_guard_leaves_its_value`]) and learns its count from the next
/// attempt to lock it; after [`MutexGuard::release`] it knows both.
pub struct MutexGuard<'a, T> {
    data: &'a mut T,
    permit: Permit<'a>,
}

impl<'a, T> MutexGuard<'a, T> {
    /// The value of the mutex. What it is when the guard is gone is `*final(guard.data())`.
    pub closed spec fn data(&self) -> &'a mut T {
        self.data
    }

    /// The count of the mutex.
    pub closed spec fn count(&self) -> &'a mut i32 {
        self.permit.count->0
    }

    /// The guard has not been released.
    pub closed spec fn wf(&self) -> bool {
        self.permit.count is Some
    }

    /// Creates a guard for a mutex whose count was taken down already
    fn new(data: &'a mut T, count: &'a mut i32) -> (guard: Self)
        requires
            *old(count) < i32::MAX,
        ensures
            guard.wf(),
            *guard.data() == *old(data),
            *guard.count() == *old(count),
            *final(guard.data()) == *final(data),
            *final(guard.count()) == *final(count),
    {
        MutexGuard { data: data, permit: Permit { count: Some(count) } }
    }

    /// Releases this mutex guard, as dropping it does
    pub fn release(self)
        requires
            self.wf(),
        ensures
            *final(self.data()) == *self.data(),
            *final(self.count()) == count_after_unlock(*self.count() as int),
            *final(self.count()) == *self.count() + 1,
    {
        let MutexGuard { data: _data, permit } = self;
        let mut permit = permit;
        permit.unlock();
    }
}

impl<'a, T> Deref for MutexGuard<'a, T> {
    type Target = T;

    fn deref(&self) -> (val: &T)
        ensures
            *val == *self.data(),
    {
        &*self.data
    }
}

impl<'a, T> DerefMut for MutexGuard<'a, T> {
    fn deref_mut(&mut self) -> (val: &mut T)
        ensures
            *val == *old(self).data(),
            *final(self).data() == *final(val),
            *final(final(self).data()) == *final(old(self).data()),
            final(self).wf() == old(self).wf(),
            final(self).count() == old(self).count(),
    {
        &mut *self.data
    }
}

/// When a guard is gone, the value of its mutex stays as the guard left it.
pub broadcast proof fn law_guard_leaves_its_value<T>(guard: MutexGuard<'_, T>)
    ensures
        #[trigger] has_resolved(guard) ==> *guard.data() == *final(guard.data()),
{
}

} // verus!
