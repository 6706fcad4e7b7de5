//! The dot product of two integer sequences under pairwise zip semantics:
//! only the overlapping prefix of the two inputs takes part.
use vstd::prelude::*;

verus! {

/// Number of pairs that take part: the length of the shorter input.
pub open spec fn pair_count(a: Seq<i64>, b: Seq<i64>) -> nat {
    if a.len() <= b.len() {
        a.len()
    } else {
        b.len()
    }
}

/// Sum of `a[i] * b[i]` over the first `n` positions.
pub open spec fn prefix_dot(a: Seq<i64>, b: Seq<i64>, n: nat) -> int
    decreases n,
{
    if n == 0 {
        0
    } else {
        prefix_dot(a, b, (n - 1) as nat) + a[n - 1] * b[n - 1]
    }
}

/// The mathematical dot product of `a` and `b` over their overlapping prefix.
pub open spec fn dot(a: Seq<i64>, b: Seq<i64>) -> int {
    prefix_dot(a, b, pair_count(a, b))
}

/// Whether `v` is representable as an `i64`.
pub open spec fn in_i64(v: int) -> bool {
    i64::MIN <= v <= i64::MAX
}

/// Whether computing the dot product step by step in `i64` never leaves the
/// range of `i64`: every pairwise product and every running sum fits.
pub open spec fn dot_fits(a: Seq<i64>, b: Seq<i64>) -> bool {
    forall|k: int|
        0 <= k < pair_count(a, b) ==> {
            &&& #[trigger] in_i64(a[k] * b[k])
            &&& in_i64(prefix_dot(a, b, (k + 1) as nat))
        }
}

/// Swapping the inputs does not change the dot product.
pub proof fn lemma_prefix_dot_commutative(a: Seq<i64>, b: Seq<i64>, n: nat)
    ensures
        prefix_dot(a, b, n) == prefix_dot(b, a, n),
    decreases n,
{
    if n > 0 {
        lemma_prefix_dot_commutative(a, b, (n - 1) as nat);
        assert(a[n - 1] * b[n - 1] == b[n - 1] * a[n - 1]) by (nonlinear_arith);
    }
}

/// The dot product is symmetric in its two inputs, whatever their lengths.
pub proof fn lemma_dot_commutative(a: Seq<i64>, b: Seq<i64>)
    ensures
        dot(a, b) == dot(b, a),
        dot_fits(a, b) == dot_fits(b, a),
{
    lemma_prefix_dot_commutative(a, b, pair_count(a, b));
    assert forall|k: int| 0 <= k < pair_count(a, b) implies
        prefix_dot(a, b, (k + 1) as nat) == prefix_dot(b, a, (k + 1) as nat)
        && a[k] * b[k] == b[k] * a[k] by {
        lemma_prefix_dot_commutative(a, b, (k + 1) as nat);
        assert(a[k] * b[k] == b[k] * a[k]) by (nonlinear_arith);
    }
    if dot_fits(a, b) {
        assert forall|k: int| 0 <= k < pair_count(b, a) implies {
            &&& #[trigger] in_i64(b[k] * a[k])
            &&& in_i64(prefix_dot(b, a, (k + 1) as nat))
        } by {
            assert(in_i64(a[k] * b[k]));
        }
    }
    if dot_fits(b, a) {
        assert forall|k: int| 0 <= k < pair_count(a, b) implies {
            &&& #[trigger] in_i64(a[k] * b[k])
            &&& in_i64(prefix_dot(a, b, (k + 1) as nat))
        } by {
            assert(in_i64(b[k] * a[k]));
        }
    }
}

/// The dot product of `a` and `b` over their overlapping prefix, or `None`
/// exactly when a pairwise product or a running sum leaves the range of `i64`.
pub fn checked_dot_product(a: &[i64], b: &[i64]) -> (r: Option<i64>)
    ensures
        r.is_some() <==> dot_fits(a@, b@),
        r matches Some(v) ==> v == dot(a@, b@),
{
    let n: usize = if a.len() <= b.len() {
        a.len()
    } else {
        b.len()
    };
    let mut acc: i64 = 0;
    let mut i: usize = 0;
    while i < n
        invariant
            n == pair_count(a@, b@),
            i <= n,
            acc == prefix_dot(a@, b@, i as nat),
            forall|k: int|
                0 <= k < i ==> {
                    &&& #[trigger] in_i64(a@[k] * b@[k])
                    &&& in_i64(prefix_dot(a@, b@, (k + 1) as nat))
                },
        decreases n - i,
    {
        let p = a[i].checked_mul(b[i]);
        match p {
            None => {
                assert(!in_i64(a@[i as int] * b@[i as int]));
                return None;
            },
            Some(p) => {
                match acc.checked_add(p) {
                    None => {
                        assert(in_i64(a@[i as int] * b@[i as int]));
                        assert(!in_i64(prefix_dot(a@, b@, (i + 1) as nat)));
                        return None;
                    },
                    Some(s) => {
                        assert(prefix_dot(a@, b@, (i + 1) as nat) == s);
                        assert(in_i64(a@[i as int] * b@[i as int]));
                        assert forall|k: int| 0 <= k < i + 1 implies {
                            &&& #[trigger] in_i64(a@[k] * b@[k])
                            &&& in_i64(prefix_dot(a@, b@, (k + 1) as nat))
                        } by {
                            if k < i {
                                assert(in_i64(a@[k] * b@[k]));
                            }
                        }
                        acc = s;
                    },
                }
            },
        }
        i = i + 1;
    }
    Some(acc)
}

/// The dot product of `a` and `b` over their overlapping prefix: the sum of
/// `a[i] * b[i]` for every index that both inputs have.
pub fn dot_product(a: &[i64], b: &[i64]) -> (r: i64)
    requires
        dot_fits(a@, b@),
    ensures
        r == dot(a@, b@),
{
    let n: usize = if a.len() <= b.len() {
        a.len()
    } else {
        b.len()
    };
    let mut acc: i64 = 0;
    let mut i: usize = 0;
    while i < n
        invariant
            n == pair_count(a@, b@),
            i <= n,
            acc == prefix_dot(a@, b@, i as nat),
            dot_fits(a@, b@),
        decreases n - i,
    {
        assert(in_i64(a@[i as int] * b@[i as int]));
        assert(in_i64(prefix_dot(a@, b@, (i + 1) as nat)));
        acc = acc + a[i] * b[i];
        i = i + 1;
    }
    acc
}

} // verus!
