use vstd::prelude::*;

use std::cmp::Ordering;

verus! {

/// Wraps a value so that comparisons between wrapped values run the other way.
///
/// Equality is that of the wrapped values. Wrapping a field turns "lower is better" into
/// "higher is better".
#[derive(PartialEq, Eq, Debug)]
pub struct Inverse<T>(pub T);

impl<T> Inverse<T> {
    /// Wraps `value`.
    pub fn new(value: T) -> (r: Self)
        ensures
            r.0 == value,
    {
        Inverse(value)
    }
}

impl<T: PartialOrd> PartialOrd for Inverse<T> {
    /// Compares `other`'s wrapped value with `self`'s: the mirror image of the wrapped order.
    fn partial_cmp(&self, other: &Self) -> (r: Option<Ordering>) {
        other.0.partial_cmp(&self.0)
    }
}

impl<T: PartialOrd> vstd::std_specs::cmp::PartialOrdSpecImpl for Inverse<T> {
    open spec fn obeys_partial_cmp_spec() -> bool {
        <T as vstd::std_specs::cmp::PartialOrdSpec>::obeys_partial_cmp_spec()
    }

    open spec fn partial_cmp_spec(&self, other: &Self) -> Option<Ordering> {
        vstd::std_specs::cmp::PartialOrdSpec::partial_cmp_spec(&other.0, &self.0)
    }
}

impl<T: Ord> Ord for Inverse<T> {
    /// Compares `other`'s wrapped value with `self`'s: the mirror image of the wrapped order.
    ///
    /// Relies on `Ord::cmp` of the wrapped type, called with its arguments swapped. The order
    /// of `Inverse` itself has no specification that vstd accepts, so the body is trusted.
    #[verifier::external_body]
    fn cmp(&self, other: &Self) -> (r: Ordering)
        ensures
            <T as vstd::std_specs::cmp::OrdSpec>::obeys_cmp_spec() ==> r == vstd::std_specs::cmp::OrdSpec::cmp_spec(&other.0, &self.0),
    {
        other.0.cmp(&self.0)
    }
}

} // verus!
