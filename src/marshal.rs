//! Computations on values that were already decoded from the managed side.
use vstd::prelude::*;
use crate::dot::{dot, dot_fits, dot_product};
use vstd::string::StringExecFns;

verus! {

/// The text that `hello` puts in front of its input.
pub open spec fn greeting_prefix() -> Seq<char> {
    seq!['H', 'e', 'l', 'l', 'o', ' ']
}

/// Echoes `input` behind the greeting `"Hello "`.
pub fn hello(input: &str) -> (r: String)
    ensures
        r@ == greeting_prefix() + input@,
{
    let mut out = String::from_str("Hello ");
    proof {
        reveal_strlit("Hello ");
    }
    out.append(input);
    out
}

/// The managed class whose static native methods take and return owned
/// native values.
pub struct Main;

impl Main {
    /// Echoes `input` behind the greeting `"Hello "`.
    pub fn hello(input: String) -> (r: String)
        ensures
            r@ == greeting_prefix() + input@,
    {
        hello(input.as_str())
    }

    /// The dot product of two owned sequences over their overlapping prefix.
    #[allow(non_snake_case)]
    pub fn dotProduct(vector_a: Vec<i64>, vector_b: Vec<i64>) -> (r: i64)
        requires
            dot_fits(vector_a@, vector_b@),
        ensures
            r == dot(vector_a@, vector_b@),
    {
        dot_product(vector_a.as_slice(), vector_b.as_slice())
    }
}

} // verus!
