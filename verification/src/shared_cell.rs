//! Reading what an `AtomicRefCell` holds.
//!
//! The items of this file are believed, not proved. Each one stands for an item
//! of the crate `atomic_refcell`, and says of it what its source shows.

use vstd::prelude::*;
use atomic_refcell::{AtomicRefCell, AtomicRef, BorrowError};

verus! {

/// The type `atomic_refcell::AtomicRefCell`: a cell that several threads share
/// and that counts its borrows at run time. Nothing is said of what it holds:
/// whoever borrows it mutably may change that between two reads.
#[verifier::external_type_specification]
#[verifier::external_body]
#[verifier::reject_recursive_types(T)]
pub struct ExAtomicRefCell<T: ?Sized>(AtomicRefCell<T>);

/// The type `atomic_refcell::AtomicRef`: a shared borrow of a cell's value. The
/// value cannot change while the borrow lives.
#[verifier::external_type_specification]
#[verifier::external_body]
#[verifier::reject_recursive_types(T)]
pub struct ExAtomicRef<'b, T: ?Sized>(AtomicRef<'b, T>);

/// The type `atomic_refcell::BorrowError`: what `try_borrow` returns when the
/// cell is mutably borrowed.
#[verifier::external_type_specification]
#[verifier::external_body]
pub struct ExBorrowError(BorrowError);

/// `AtomicRefCell::try_borrow` borrows the value immutably, or returns an error
/// if the value is mutably borrowed at that moment. Which of the two happens
/// depends on what other holders of the cell do, so nothing is promised of the
/// result. The function does not panic on a failed borrow. It leaves by another
/// way than its result only if the cell's counter overflows: it panics if half
/// the range of `usize` shared borrows are alive at once, and it aborts the
/// process if, during one mutable borrow, a quarter of that range of borrows
/// have failed.
pub assume_specification<T: ?Sized>[ AtomicRefCell::<T>::try_borrow ](cell: &AtomicRefCell<T>) -> (r: Result<
    AtomicRef<'_, T>,
    BorrowError,
>)
;

/// `Deref::deref` of `AtomicRef` hands out the borrowed value. Nothing is said
/// of the value: it is whatever the cell held when it was borrowed.
#[verifier::external_body]
pub(crate) fn borrowed<'a, 'b, T: ?Sized>(guard: &'a AtomicRef<'b, T>) -> (value: &'a T) {
    std::ops::Deref::deref(guard)
}

} // verus!
