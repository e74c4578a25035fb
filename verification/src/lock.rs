//! Taking a lock whatever became of its last holder.
use std::sync::{Mutex, MutexGuard, PoisonError};
use vstd::prelude::*;

verus! {

/// A lock of the standard library.
#[verifier::external_type_specification]
#[verifier::external_body]
#[verifier::reject_recursive_types(T)]
pub struct ExMutex<T: ?Sized>(Mutex<T>);

/// A held lock of the standard library.
#[verifier::external_type_specification]
#[verifier::external_body]
#[verifier::reject_recursive_types(T)]
pub struct ExMutexGuard<'a, T: ?Sized + 'a>(MutexGuard<'a, T>);

/// The error that comes with a lock whose holder panicked.
#[verifier::external_type_specification]
#[verifier::external_body]
#[verifier::reject_recursive_types(T)]
pub struct ExPoisonError<T>(PoisonError<T>);

/// `Mutex::lock`: the held lock, inside an error where an earlier holder panicked. It waits for
/// the lock, for ever where its own thread already holds it. What the lock guards is whatever
/// its holders left there, so nothing is said of it.
pub assume_specification<T: ?Sized>[ Mutex::<T>::lock ](mutex: &Mutex<T>) -> (result: Result<
    MutexGuard<'_, T>,
    PoisonError<MutexGuard<'_, T>>,
>)
;

/// `PoisonError::into_inner`: what the error carries. The error is opaque, so what that is has
/// no other name than the outcome of this call.
pub assume_specification<T>[ PoisonError::<T>::into_inner ](error: PoisonError<T>) -> (inner: T)
;

/// Whether `guard` is what locking gave: the held lock itself, or the one inside the error.
pub open spec fn is_recovered<'a, T>(
    locked: Result<MutexGuard<'a, T>, PoisonError<MutexGuard<'a, T>>>,
    guard: MutexGuard<'a, T>,
) -> bool {
    match locked {
        Ok(held) => guard == held,
        Err(poisoned) => call_ensures(
            PoisonError::<MutexGuard<'a, T>>::into_inner,
            (poisoned,),
            guard,
        ),
    }
}

/// Takes a lock, also where an earlier holder of it panicked.
pub fn recover_lock<T>(mutex: &Mutex<T>) -> (guard: MutexGuard<'_, T>)
    ensures
        exists|locked: Result<MutexGuard<'_, T>, PoisonError<MutexGuard<'_, T>>>|
            #[trigger] call_ensures(Mutex::<T>::lock, (mutex,), locked) && is_recovered(
                locked,
                guard,
            ) && (locked matches Ok(held) ==> guard == held) && (locked matches Err(poisoned)
                ==> call_ensures(
                PoisonError::<MutexGuard<'_, T>>::into_inner,
                (poisoned,),
                guard,
            )),
{
    let locked = mutex.lock();
    assert(call_ensures(Mutex::<T>::lock, (mutex,), locked));
    match locked {
        Ok(guard) => guard,
        Err(poisoned) => poisoned.into_inner(),
    }
}

} // verus!
