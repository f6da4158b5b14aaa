use vstd::prelude::*;

verus! {

/// A product of two bounded integers is bounded by the product of the bounds.
pub proof fn lemma_mul_within(x: int, y: int, bx: int, bound_y: int) by (nonlinear_arith)
    requires
        -bx <= x <= bx,
        -bound_y <= y <= bound_y,
    ensures
        -(bx * bound_y) <= x * y <= bx * bound_y,
{
}

} // verus!
