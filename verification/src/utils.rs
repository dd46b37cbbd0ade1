//! Small helpers.

use vstd::prelude::*;
use vstd::std_specs::cmp::PartialEqSpec;

verus! {

/// Whether a value is the default of its type: used to leave such values out when a
/// record is serialised. The value is compared with what `Default::default` of its
/// type returns, by the `==` of its type.
pub fn is_default<T: Default + PartialEq>(t: &T) -> (r: bool)
    ensures
        exists|d: T| #[trigger]
            call_ensures(T::default, (), d) && (T::obeys_eq_spec() ==> r == t.eq_spec(&d)),
{
    let d = T::default();
    t == &d
}

} // verus!
