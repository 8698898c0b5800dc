//! Comparing through references.

use vstd::prelude::*;
use vstd::std_specs::cmp::PartialOrdSpec;
use core::cmp::Ordering;

verus! {

/// Whether `num1` is greater than `num2`, by the order of their type.
///
/// The answer is what the type's own `>` gives. Where the type's order has a
/// specification, it is "greater" by that specification. A reference is
/// ordered as what it points to, so the answer is the same through any number
/// of `&`.
pub fn comp_ref<T: PartialOrd>(num1: T, num2: T) -> (greater: bool)
    ensures
        call_ensures(T::gt, (&num1, &num2), greater),
        T::obeys_partial_cmp_spec() ==> greater == (num1.partial_cmp_spec(&num2) == Some(
            Ordering::Greater,
        )),
{
    num1 > num2
}

/// A reference is ordered as what it points to.
pub proof fn lemma_order_through_reference<T: PartialOrd>(num1: T, num2: T)
    ensures
        <&T>::obeys_partial_cmp_spec() == T::obeys_partial_cmp_spec(),
        (&num1).partial_cmp_spec(&(&num2)) == num1.partial_cmp_spec(&num2),
{
}

/// On bytes, "greater" is `>`, and the order is one that [`comp_ref`] can
/// rely on.
pub proof fn lemma_order_of_u8(num1: u8, num2: u8)
    ensures
        u8::obeys_partial_cmp_spec(),
        (num1.partial_cmp_spec(&num2) == Some(Ordering::Greater)) == (num1 > num2),
{
}

} // verus!
