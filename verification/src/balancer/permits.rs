//! Admission permits and the semaphore that issues them.
//!
//! The semaphore and its permits are tokio's. Verus sees neither from the
//! inside; this module names what the pool needs to know of them and states,
//! for each call the pool makes, what tokio's source shows of it. Nothing in
//! this module is proved: it is the boundary that the proofs of the pool rest
//! on.
//!
//! The pool counts what it adds to its semaphore and what it takes out of
//! it. That count is right as long as nobody else adds permits to the
//! semaphore or forgets permits of it; whoever is handed the semaphore may
//! acquire permits and give them back, and nothing more.
use std::sync::Arc;
use tokio::sync::OwnedSemaphorePermit;
use tokio::sync::Semaphore;
use vstd::prelude::*;

verus! {

/// tokio's `Semaphore`, as a value that is carried and handed to tokio.
#[verifier::external_type_specification]
#[verifier::external_body]
pub struct ExSemaphore(tokio::sync::Semaphore);

/// tokio's `OwnedSemaphorePermit`: a bundle of permits of one semaphore.
/// The permits return to their semaphore when the bundle is dropped.
#[verifier::external_type_specification]
#[verifier::external_body]
pub struct ExOwnedSemaphorePermit(tokio::sync::OwnedSemaphorePermit);

/// The most permits a semaphore can account for: the value of tokio's
/// `Semaphore::MAX_PERMITS`, which is `usize::MAX >> 3`.
pub const MAX_PERMITS: usize = usize::MAX / 8;

/// `MAX_PERMITS` as a number.
pub open spec fn max_permits() -> nat {
    MAX_PERMITS as nat
}

/// The number of permits that a bundle holds (`num_permits`).
pub uninterp spec fn permit_count(permit: OwnedSemaphorePermit) -> nat;

/// Which semaphore issued a bundle (`semaphore`), as a token that stands
/// for the semaphore. Tokens are only ever compared: two bundles can be
/// merged iff their tokens are the same.
pub uninterp spec fn permit_origin(permit: OwnedSemaphorePermit) -> int;

/// The token that stands for a semaphore: two handles have the same token
/// iff they are handles of one and the same semaphore (`Arc::ptr_eq`).
pub uninterp spec fn semaphore_identity(semaphore: Semaphore) -> int;

/// The number of permits that a semaphore accounts for: those free in it
/// together with those it has handed out and that were not yet given back.
/// Acquiring, merging, splitting and dropping permits leave it unchanged;
/// only `add_permits` and `forget_permits` change it.
pub uninterp spec fn semaphore_capacity(semaphore: Semaphore) -> nat;

/// `Semaphore::new` behind an `Arc`: a semaphore that accounts for `permits`
/// permits, all of them free. tokio panics where `permits` exceeds
/// `MAX_PERMITS`.
#[verifier::external_body]
pub(crate) fn new_semaphore(permits: usize) -> (semaphore: Arc<Semaphore>)
    requires
        permits <= max_permits(),
    ensures
        semaphore_capacity(*semaphore) == permits,
{
    Arc::new(Semaphore::new(permits))
}

/// `Semaphore::add_permits`: the semaphore accounts for `n` more permits, and
/// is still the same semaphore. tokio panics where the free permits would
/// exceed `MAX_PERMITS`; the free permits are never more than the capacity,
/// so the bound on the capacity keeps the call from panicking.
#[verifier::external_body]
pub(crate) fn add_permits(semaphore: &mut Arc<Semaphore>, n: usize)
    requires
        semaphore_capacity(**old(semaphore)) + n <= max_permits(),
    ensures
        semaphore_capacity(**final(semaphore)) == semaphore_capacity(**old(semaphore)) + n,
        semaphore_identity(**final(semaphore)) == semaphore_identity(**old(semaphore)),
{
    semaphore.add_permits(n)
}

/// `Semaphore::forget_permits`: takes up to `n` free permits out of the
/// semaphore for good and returns how many it took. How many are free at the
/// moment of the call is not known to the caller, so the result is only
/// bounded: by `n`, and by what the semaphore accounts for.
#[verifier::external_body]
pub(crate) fn forget_permits(semaphore: &mut Arc<Semaphore>, n: usize) -> (forgotten: usize)
    ensures
        forgotten <= n,
        forgotten <= semaphore_capacity(**old(semaphore)),
        semaphore_capacity(**final(semaphore)) == semaphore_capacity(**old(semaphore)) - forgotten,
        semaphore_identity(**final(semaphore)) == semaphore_identity(**old(semaphore)),
{
    semaphore.forget_permits(n)
}

/// `OwnedSemaphorePermit::num_permits`.
#[verifier::external_body]
pub(crate) fn count_permits(permit: &OwnedSemaphorePermit) -> (n: usize)
    ensures
        n == permit_count(*permit),
{
    permit.num_permits()
}

/// `OwnedSemaphorePermit::semaphore`: the semaphore that issued the bundle.
#[verifier::external_body]
pub(crate) fn issuer(permit: &OwnedSemaphorePermit) -> (semaphore: &Arc<Semaphore>)
    ensures
        semaphore_identity(**semaphore) == permit_origin(*permit),
{
    permit.semaphore()
}

/// `Arc::ptr_eq`: whether two handles are of one and the same semaphore.
#[verifier::external_body]
pub(crate) fn same_semaphore(a: &Arc<Semaphore>, b: &Arc<Semaphore>) -> (same: bool)
    ensures
        same == (semaphore_identity(**a) == semaphore_identity(**b)),
{
    Arc::ptr_eq(a, b)
}

/// `OwnedSemaphorePermit::merge`: `bundle` takes over the permits of `other`
/// without any of them returning to the semaphore. tokio panics where the two
/// come from different semaphores or the sum overflows.
#[verifier::external_body]
pub(crate) fn merge_permits(bundle: &mut OwnedSemaphorePermit, other: OwnedSemaphorePermit)
    requires
        permit_origin(*old(bundle)) == permit_origin(other),
        permit_count(*old(bundle)) + permit_count(other) <= usize::MAX,
    ensures
        permit_count(*final(bundle)) == permit_count(*old(bundle)) + permit_count(other),
        permit_origin(*final(bundle)) == permit_origin(*old(bundle)),
{
    bundle.merge(other)
}

/// `OwnedSemaphorePermit::split`: where `bundle` holds at least `n` permits,
/// `n` of them leave it in a bundle of their own; where it holds fewer, it is
/// left as it was and nothing is returned.
#[verifier::external_body]
pub(crate) fn split_permits(bundle: &mut OwnedSemaphorePermit, n: usize) -> (part: Option<OwnedSemaphorePermit>)
    ensures
        permit_origin(*final(bundle)) == permit_origin(*old(bundle)),
        n <= permit_count(*old(bundle)) ==> part.is_some()
            && permit_count(part.unwrap()) == n
            && permit_origin(part.unwrap()) == permit_origin(*old(bundle))
            && permit_count(*final(bundle)) == permit_count(*old(bundle)) - n,
        n > permit_count(*old(bundle)) ==> part.is_none()
            && permit_count(*final(bundle)) == permit_count(*old(bundle)),
{
    bundle.split(n)
}

} // verus!
