use vstd::prelude::*;

verus! {

/// The static type of a scalar: statically a number, statically a string,
/// or undecidable at compile time (a runtime tag must be consulted).
#[derive(Clone, Copy, Debug, PartialEq, Eq, Structural)]
pub enum AwkT {
    Float,
    String,
    Variable,
}

/// The lattice join of two static types.
pub open spec fn join(a: AwkT, b: AwkT) -> AwkT {
    match (a, b) {
        (AwkT::Float, AwkT::Float) => AwkT::Float,
        (AwkT::String, AwkT::String) => AwkT::String,
        _ => AwkT::Variable,
    }
}

/// Joins the types that one variable has along two control-flow paths.
pub fn merge_types(a: &AwkT, b: &AwkT) -> (r: AwkT)
    ensures
        r == join(*a, *b),
{
    match (a, b) {
        (AwkT::Float, AwkT::Float) => AwkT::Float,
        (AwkT::String, AwkT::String) => AwkT::String,
        _ => AwkT::Variable,
    }
}

/// The join is commutative.
pub proof fn join_commutative(a: AwkT, b: AwkT)
    ensures
        join(a, b) == join(b, a),
{
}

/// The join is associative.
pub proof fn join_associative(a: AwkT, b: AwkT, c: AwkT)
    ensures
        join(join(a, b), c) == join(a, join(b, c)),
{
}

/// The join is idempotent: a type joined with itself is unchanged.
pub proof fn join_idempotent(a: AwkT)
    ensures
        join(a, a) == a,
{
}

/// `Variable` absorbs every type, and a number joined with a string is
/// undecidable in either order.
pub proof fn join_variable_absorbing(x: AwkT)
    ensures
        join(AwkT::Variable, x) == AwkT::Variable,
        join(x, AwkT::Variable) == AwkT::Variable,
        join(AwkT::Float, AwkT::String) == AwkT::Variable,
        join(AwkT::String, AwkT::Float) == AwkT::Variable,
{
}

} // verus!
