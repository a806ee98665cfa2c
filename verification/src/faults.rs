//! The first thing wrong in a list. Whatever this library validates, it
//! reports what is wrong at the first place at which something is.

use vstd::prelude::*;

verus! {

/// What `f` finds wrong at the first of the indices below `n` at which it
/// finds something wrong.
pub open spec fn first_fault<E>(f: spec_fn(int) -> Option<E>, n: nat) -> Option<E>
    decreases n,
{
    if n == 0 {
        None
    } else {
        match first_fault(f, (n - 1) as nat) {
            Some(e) => Some(e),
            None => f(n - 1),
        }
    }
}

/// Once something was found wrong, the finding stays.
pub(crate) proof fn lemma_fault_stays<E>(f: spec_fn(int) -> Option<E>, n: nat, m: nat)
    requires
        n <= m,
        first_fault(f, n) is Some,
    ensures
        first_fault(f, m) == first_fault(f, n),
    decreases m,
{
    if n < m {
        lemma_fault_stays(f, n, (m - 1) as nat);
    }
}

/// Where nothing is wrong below index `i`, what is found wrong is what is
/// wrong at `i`.
pub(crate) proof fn lemma_fault_at<E>(f: spec_fn(int) -> Option<E>, i: nat)
    requires
        forall|j: int| 0 <= j < i ==> (#[trigger] f(j)) is None,
    ensures
        first_fault(f, i) is None,
        first_fault(f, i + 1) == f(i as int),
    decreases i,
{
    if i > 0 {
        lemma_fault_at(f, (i - 1) as nat);
    }
}

/// Where nothing was found wrong, nothing is wrong at any index.
pub(crate) proof fn lemma_no_fault<E>(f: spec_fn(int) -> Option<E>, n: nat, j: int)
    requires
        first_fault(f, n) is None,
        0 <= j < n,
    ensures
        f(j) is None,
    decreases n,
{
    if j < n - 1 {
        lemma_no_fault(f, (n - 1) as nat, j);
    }
}

} // verus!
