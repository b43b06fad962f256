use vstd::prelude::*;

use std::sync::mpsc::Sender;

verus! {

/// `std::sync::mpsc::Sender`: the sending half of a channel between the client's workers.
#[verifier::external_type_specification]
#[verifier::external_body]
#[verifier::reject_recursive_types(T)]
pub struct ExSender<T>(Sender<T>);

/// `Sender::clone` gives another handle to the same channel; the derived `Clone` of the
/// servers that hold one calls it. Nothing more is claimed of it.
pub assume_specification<T>[ <Sender<T> as Clone>::clone ](s: &Sender<T>) -> Sender<T>;

} // verus!
