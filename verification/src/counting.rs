use vstd::prelude::*;

verus! {

/// Number of integers `i` with `0 <= i < n` for which `f(i)` holds.
pub open spec fn count_if(f: spec_fn(int) -> bool, n: int) -> nat
    decreases n,
{
    if n <= 0 {
        0
    } else {
        count_if(f, n - 1) + if f(n - 1) {
            1nat
        } else {
            0nat
        }
    }
}

/// Predicates that agree below `n` are counted alike.
pub proof fn lemma_count_if_ext(f: spec_fn(int) -> bool, g: spec_fn(int) -> bool, n: int)
    requires
        forall|i: int| #![trigger f(i)] 0 <= i < n ==> f(i) == g(i),
    ensures
        count_if(f, n) == count_if(g, n),
    decreases n,
{
    if n > 0 {
        lemma_count_if_ext(f, g, n - 1);
    }
}

/// A predicate that never holds below `n` counts zero.
pub proof fn lemma_count_if_none(f: spec_fn(int) -> bool, n: int)
    requires
        forall|i: int| #![trigger f(i)] 0 <= i < n ==> !f(i),
    ensures
        count_if(f, n) == 0,
    decreases n,
{
    if n > 0 {
        lemma_count_if_none(f, n - 1);
    }
}

/// A disjunction of two predicates that never hold together counts
/// as the sum of the two counts.
pub proof fn lemma_count_if_or_disjoint(
    f: spec_fn(int) -> bool,
    g: spec_fn(int) -> bool,
    h: spec_fn(int) -> bool,
    n: int,
)
    requires
        forall|i: int| #![trigger h(i)] 0 <= i < n ==> h(i) == (f(i) || g(i)),
        forall|i: int| #![trigger f(i), g(i)] 0 <= i < n ==> !(f(i) && g(i)),
    ensures
        count_if(h, n) == count_if(f, n) + count_if(g, n),
    decreases n,
{
    if n > 0 {
        lemma_count_if_or_disjoint(f, g, h, n - 1);
    }
}

/// Adding one fresh element `a` to a predicate raises its count by one.
pub proof fn lemma_count_if_insert(
    f: spec_fn(int) -> bool,
    g: spec_fn(int) -> bool,
    a: int,
    n: int,
)
    requires
        forall|i: int| #![trigger f(i)] 0 <= i < n ==> f(i) == (i == a || g(i)),
        !g(a),
        0 <= a < n,
    ensures
        count_if(f, n) == 1 + count_if(g, n),
    decreases n,
{
    if n > 0 {
        if a == n - 1 {
            lemma_count_if_ext(f, g, n - 1);
        } else {
            lemma_count_if_insert(f, g, a, n - 1);
        }
    }
}

} // verus!
