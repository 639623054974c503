//! What holds of a mutex over any number of calls.
use vstd::prelude::*;

use crate::mutex::{
    Mutex, MutexGuard, UNLOCKED, can_lock, count_after_lock, count_after_unlock,
    law_guard_leaves_its_value,
};

verus! {

/// One use of a mutex: an attempt to lock it, a write through the guard, or the end of the guard,
/// be it dropped or released.
pub enum LockStep<T> {
    Lock,
    Write(T),
    Unlock,
}

/// The count and the value of a mutex, and how many guards of it there are.
pub struct LockState<T> {
    pub count: int,
    pub value: T,
    pub guards: int,
}

/// The state of a new mutex with the value `value` after `steps`, one after the other. Where there
/// is no guard, nothing can be written through it and it cannot end.
pub open spec fn lock_state_after<T>(value: T, steps: Seq<LockStep<T>>) -> LockState<T>
    decreases steps.len(),
{
    if steps.len() == 0 {
        LockState { count: UNLOCKED as int, value, guards: 0 }
    } else {
        let before = lock_state_after(value, steps.drop_last());
        match steps.last() {
            LockStep::Lock => LockState {
                count: count_after_lock(before.count),
                value: before.value,
                guards: if can_lock(before.count) {
                    before.guards + 1
                } else {
                    before.guards
                },
            },
            LockStep::Write(written) => if before.guards > 0 {
                LockState { count: before.count, value: written, guards: before.guards }
            } else {
                before
            },
            LockStep::Unlock => if before.guards > 0 {
                LockState {
                    count: count_after_unlock(before.count),
                    value: before.value,
                    guards: before.guards - 1,
                }
            } else {
                before
            },
        }
    }
}

/// Mutual exclusion: whatever is locked and unlocked, in whatever order, there is never more than
/// one guard, and the mutex can be locked exactly as long as there is none.
pub proof fn law_one_guard_at_a_time<T>(value: T, steps: Seq<LockStep<T>>)
    ensures
        0 <= lock_state_after(value, steps).guards <= 1,
        lock_state_after(value, steps).count + lock_state_after(value, steps).guards == UNLOCKED,
        can_lock(lock_state_after(value, steps).count) <==> lock_state_after(value, steps).guards
            == 0,
    decreases steps.len(),
{
    if steps.len() > 0 {
        law_one_guard_at_a_time(value, steps.drop_last());
    }
}

/// While there is a guard, every attempt to lock fails and changes nothing.
pub proof fn law_locked_mutex_refuses<T>(
    value: T,
    steps: Seq<LockStep<T>>,
    attempts: Seq<LockStep<T>>,
)
    requires
        lock_state_after(value, steps).guards == 1,
        forall|i: int| 0 <= i < attempts.len() ==> attempts[i] is Lock,
    ensures
        !can_lock(lock_state_after(value, steps).count),
        lock_state_after(value, steps + attempts) == lock_state_after(value, steps),
    decreases attempts.len(),
{
    law_one_guard_at_a_time(value, steps);
    if attempts.len() == 0 {
        assert(steps + attempts =~= steps);
    } else {
        law_locked_mutex_refuses(value, steps, attempts.drop_last());
        assert((steps + attempts).drop_last() =~= steps + attempts.drop_last());
        assert((steps + attempts).last() == attempts.last());
    }
}

/// Unlocking a mutex that was locked unlocks it exactly once and leaves its value alone: the next
/// attempt to lock it succeeds and reads that value, and one more attempt is refused.
pub proof fn law_unlock_frees_the_mutex_once<T>(value: T, steps: Seq<LockStep<T>>)
    requires
        lock_state_after(value, steps).guards == 1,
    ensures
        ({
            let held = lock_state_after(value, steps);
            let free = lock_state_after(value, steps.push(LockStep::Unlock));
            let again = lock_state_after(value, steps.push(LockStep::Unlock).push(LockStep::Lock));
            &&& can_lock(free.count)
            &&& free.guards == 0
            &&& free.value == held.value
            &&& again.guards == 1
            &&& again.value == held.value
            &&& !can_lock(again.count)
        }),
{
    law_one_guard_at_a_time(value, steps);
    assert(steps.push(LockStep::Unlock).drop_last() =~= steps);
    assert(steps.push(LockStep::Unlock).push(LockStep::Lock).drop_last() =~= steps.push(
        LockStep::Unlock,
    ));
}

/// Unlocking undoes locking: a mutex that was locked and then unlocked can be locked again.
pub proof fn law_unlock_undoes_lock(count: int)
    requires
        can_lock(count),
    ensures
        count_after_unlock(count_after_lock(count)) == count,
{
}

/// The count of a mutex after `attempts` attempts to lock it, with nothing unlocked in between.
pub open spec fn count_after_attempts(count: int, attempts: nat) -> int
    decreases attempts,
{
    if attempts == 0 {
        count
    } else {
        count_after_lock(count_after_attempts(count, (attempts - 1) as nat))
    }
}

/// How many of `attempts` attempts to lock a mutex succeed, with nothing unlocked in between.
pub open spec fn locks_granted(count: int, attempts: nat) -> int
    decreases attempts,
{
    if attempts == 0 {
        0
    } else {
        locks_granted(count, (attempts - 1) as nat) + if can_lock(
            count_after_attempts(count, (attempts - 1) as nat),
        ) {
            1int
        } else {
            0
        }
    }
}

/// The count says how many attempts to lock succeed before one is refused: the first attempts do,
/// as many as the count says, and no other, and each takes the count down by one.
pub proof fn law_count_is_the_number_of_locks_left(count: int, attempts: nat)
    ensures
        count <= 0 ==> locks_granted(count, attempts) == 0,
        0 < count && attempts <= count ==> locks_granted(count, attempts) == attempts,
        0 < count < attempts ==> locks_granted(count, attempts) == count,
        count_after_attempts(count, attempts) == count - locks_granted(count, attempts),
    decreases attempts,
{
    if attempts > 0 {
        law_count_is_the_number_of_locks_left(count, (attempts - 1) as nat);
    }
}

/// An unlock is good for exactly one more lock: it takes the count up by one, and a mutex that is
/// out of locks, but owes none, can then be locked once.
pub proof fn law_unlock_is_good_for_one_lock(count: int, attempts: nat)
    ensures
        count_after_unlock(count) == count + 1,
        0 <= count < attempts ==> locks_granted(count_after_unlock(count), attempts)
            == locks_granted(count, attempts) + 1,
{
    law_count_is_the_number_of_locks_left(count, attempts);
    law_count_is_the_number_of_locks_left(count_after_unlock(count), attempts);
}

/// A guard that is dropped unlocks its mutex exactly once. `mutex` is what the mutex of the guard
/// is when the guard is gone, as locking ties the two together, and the destructor of the guard's
/// permit has run on the count. The mutex then holds what the guard held, the next attempt to lock
/// it succeeds, and one more attempt is refused.
pub proof fn law_dropped_guard_unlocks_once<T>(
    before: Mutex<T>,
    guard: MutexGuard<'_, T>,
    mutex: Mutex<T>,
)
    requires
        before.count() == UNLOCKED,
        *guard.count() == count_after_lock(before.count()),
        mutex.value() == *final(guard.data()),
        mutex.count() == *final(guard.count()),
        *final(guard.count()) == count_after_unlock(*guard.count() as int),
        has_resolved(guard),
    ensures
        mutex.value() == *guard.data(),
        mutex.count() == before.count(),
        can_lock(mutex.count()),
        !can_lock(count_after_lock(mutex.count())),
{
    law_guard_leaves_its_value(guard);
}

} // verus!
