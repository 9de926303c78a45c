//! What the filesystem relies on from the `spin` crate: a mutual-exclusion
//! lock that hands out guards. Nothing here is proved; each item says in its
//! comment what is taken on trust.

use vstd::prelude::*;

verus! {

/// `spin::Mutex`, a spin-based lock around a value. Its content is not visible to proofs.
#[verifier::external_type_specification]
#[verifier::external_body]
#[verifier::reject_recursive_types(T)]
pub struct ExMutex<T: ?Sized>(spin::Mutex<T>);

/// `spin::MutexGuard`, the token of a held lock. Its content is not visible to proofs.
#[verifier::external_type_specification]
#[verifier::external_body]
#[verifier::reject_recursive_types(T)]
pub struct ExMutexGuard<'a, T: 'a + ?Sized>(spin::MutexGuard<'a, T>);

/// `spin::Mutex::new` wraps a value in a new, free lock. Nothing is claimed
/// of the result.
pub assume_specification<T>[ spin::Mutex::<T>::new ](value: T) -> (mutex: spin::Mutex<T>)
;

/// `spin::Mutex::lock` waits until the lock is free and takes it. Nothing is
/// claimed of the guarded value: another holder may have changed it. The
/// call does not come back while the calling thread itself holds a guard of
/// the same lock, so a caller drops its guard before it locks again.
pub assume_specification<T: ?Sized>[ spin::Mutex::<T>::lock ](mutex: &spin::Mutex<T>) -> (guard:
    spin::MutexGuard<'_, T>)
;

/// The `Deref` of `spin::MutexGuard`: shared access to the guarded value
/// for as long as the guard is borrowed. Nothing is claimed of the value.
#[verifier::external_body]
pub(crate) fn guarded<'a, 'g, T>(guard: &'a spin::MutexGuard<'g, T>) -> (value: &'a T) {
    &**guard
}

} // verus!
