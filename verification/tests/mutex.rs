use nb_sync::mutex::{lock_count, unlock_count, UNLOCKED};
use nb_sync::Mutex;

fn blocked<T>(mutex: &mut Mutex<T>) -> bool {
    matches!(mutex.try_lock(), Err(nb::Error::WouldBlock))
}

#[test]
fn guard_gives_access_to_the_value() {
    let mut mutex = Mutex::new(5u8);
    {
        let mut guard = mutex.try_lock().unwrap();
        assert_eq!(*guard, 5);
        *guard = 6;
        assert_eq!(*guard, 6);
    }
    assert_eq!(mutex.into_inner(), 6);
}

#[test]
fn dropping_the_guard_unlocks() {
    let mut mutex = Mutex::new(0u32);
    for _ in 0..10 {
        let mut guard = mutex.try_lock().unwrap();
        *guard += 1;
    }
    assert!(!blocked(&mut mutex));
    assert_eq!(mutex.into_inner(), 10);
}

#[test]
fn releasing_the_guard_unlocks_once() {
    let mut mutex = Mutex::new(String::from("a"));
    let mut guard = mutex.try_lock().unwrap();
    guard.push('b');
    guard.release();
    // Were the count too high now, a mutex with a guard that was leaked could be locked again.
    std::mem::forget(mutex.try_lock().unwrap());
    assert!(blocked(&mut mutex));
    assert_eq!(mutex.into_inner(), "ab");
}

#[test]
fn leaked_guard_leaves_the_mutex_locked() {
    let mut mutex = Mutex::new(1u8);
    std::mem::forget(mutex.try_lock().unwrap());
    assert!(blocked(&mut mutex));
    assert!(blocked(&mut mutex));
    assert_eq!(mutex.into_inner(), 1);
}

#[test]
fn failed_attempt_does_not_unlock() {
    let mut mutex = Mutex::new(1u8);
    std::mem::forget(mutex.try_lock().unwrap());
    for _ in 0..5 {
        assert!(blocked(&mut mutex));
    }
}

#[test]
fn mutex_from_a_value_is_unlocked() {
    let mut mutex = Mutex::from(7u8);
    assert!(!blocked(&mut mutex));
    let mut other: Mutex<u8> = 8.into();
    assert_eq!(*other.try_lock().unwrap(), 8);
    assert_eq!(mutex.into_inner() + other.into_inner(), 15);
}

#[test]
fn dropped_guard_unlocks_once_and_keeps_the_value() {
    let mut mutex = Mutex::new(1u8);
    *mutex.try_lock().unwrap() = 2;
    let again = mutex.try_lock().unwrap();
    assert_eq!(*again, 2);
    std::mem::forget(again);
    assert!(blocked(&mut mutex));
    assert_eq!(mutex.into_inner(), 2);
}

#[test]
fn counts() {
    assert_eq!(UNLOCKED, 1);
    assert_eq!(lock_count(UNLOCKED), Some(0));
    assert_eq!(lock_count(0), None);
    assert_eq!(lock_count(-1), None);
    assert_eq!(lock_count(i32::MAX), Some(i32::MAX - 1));
    assert_eq!(unlock_count(0), UNLOCKED);
    assert_eq!(unlock_count(i32::MIN), i32::MIN + 1);
}

#[test]
fn one_guard_at_a_time() {
    // Attempts of two contexts in turn; an attempt that finds the mutex locked changes nothing.
    let mut count = UNLOCKED;
    let mut guards = 0;
    for attempt in 0..20 {
        if attempt % 3 == 2 && guards > 0 {
            count = unlock_count(count);
            guards -= 1;
        } else {
            match lock_count(count) {
                Some(next) => {
                    assert_eq!(guards, 0);
                    count = next;
                    guards += 1;
                }
                None => assert_eq!(guards, 1),
            }
        }
        assert_eq!(count + guards, 1);
    }
}
