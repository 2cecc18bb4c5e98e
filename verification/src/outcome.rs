//! Results of working through a list in order: the first failure ends the work.

use vstd::prelude::*;

verus! {

/// The failure with the least index below `n`, if there is one.
pub open spec fn first_failure<E>(n: nat, at: spec_fn(int) -> Option<E>) -> Option<E>
    decreases n,
{
    if n == 0 {
        None
    } else {
        match first_failure((n - 1) as nat, at) {
            Some(e) => Some(e),
            None => at(n - 1),
        }
    }
}

/// The items of all indices below `n`, or the failure with the least index.
pub open spec fn gathered<T, E>(n: nat, at: spec_fn(int) -> Result<T, E>) -> Result<Seq<T>, E>
    decreases n,
{
    if n == 0 {
        Ok(seq![])
    } else {
        match gathered((n - 1) as nat, at) {
            Err(e) => Err(e),
            Ok(items) => match at(n - 1) {
                Ok(item) => Ok(items.push(item)),
                Err(e) => Err(e),
            },
        }
    }
}

/// A failure below `k` is also the first failure below any larger bound.
pub proof fn lemma_first_failure_stays<E>(k: nat, n: nat, at: spec_fn(int) -> Option<E>)
    requires
        k <= n,
        first_failure(k, at) is Some,
    ensures
        first_failure(n, at) == first_failure(k, at),
    decreases n - k,
{
    if k < n {
        lemma_first_failure_stays(k, (n - 1) as nat, at);
    }
}

/// There is no first failure exactly if no index below `n` fails.
pub proof fn lemma_no_failure<E>(n: nat, at: spec_fn(int) -> Option<E>)
    ensures
        first_failure(n, at) is None <==> (forall|i: int| 0 <= i < n ==> (#[trigger] at(i)) is None),
    decreases n,
{
    if n > 0 {
        lemma_no_failure((n - 1) as nat, at);
    }
}

/// The first failure stands at an index below `n`, and no index before it fails.
pub proof fn lemma_first_failure_at<E>(n: nat, at: spec_fn(int) -> Option<E>) -> (i: int)
    requires
        first_failure(n, at) is Some,
    ensures
        0 <= i < n,
        at(i) == first_failure(n, at),
        forall|j: int| 0 <= j < i ==> (#[trigger] at(j)) is None,
    decreases n,
{
    if first_failure((n - 1) as nat, at) is Some {
        lemma_first_failure_at((n - 1) as nat, at)
    } else {
        lemma_no_failure((n - 1) as nat, at);
        n - 1
    }
}

/// A failure below `k` is also the outcome for any larger bound.
pub proof fn lemma_gathered_failure_stays<T, E>(k: nat, n: nat, at: spec_fn(int) -> Result<T, E>)
    requires
        k <= n,
        gathered(k, at) is Err,
    ensures
        gathered(n, at) == gathered(k, at),
    decreases n - k,
{
    if k < n {
        lemma_gathered_failure_stays(k, (n - 1) as nat, at);
    }
}

/// The items are gathered exactly if no index fails, and then each stands at its index.
pub proof fn lemma_gathered<T, E>(n: nat, at: spec_fn(int) -> Result<T, E>)
    ensures
        gathered(n, at) is Ok <==> (forall|i: int| 0 <= i < n ==> (#[trigger] at(i)) is Ok),
        gathered(n, at) matches Ok(items) ==> items.len() == n && (forall|i: int|
            0 <= i < n ==> at(i) == Ok::<T, E>(#[trigger] items[i])),
    decreases n,
{
    if n > 0 {
        lemma_gathered((n - 1) as nat, at);
    }
}

/// The outcome depends only on the items below `n`.
pub proof fn lemma_gathered_same<T, E>(
    n: nat,
    at: spec_fn(int) -> Result<T, E>,
    other: spec_fn(int) -> Result<T, E>,
)
    requires
        forall|i: int| 0 <= i < n ==> (#[trigger] at(i)) == other(i),
    ensures
        gathered(n, at) == gathered(n, other),
    decreases n,
{
    if n > 0 {
        lemma_gathered_same((n - 1) as nat, at, other);
        assert(at(n - 1) == other(n - 1));
    }
}

/// The least index below `n` at which `at` holds, if there is one.
pub open spec fn first_index(n: nat, at: spec_fn(int) -> bool) -> Option<int>
    decreases n,
{
    if n == 0 {
        None
    } else {
        match first_index((n - 1) as nat, at) {
            Some(i) => Some(i),
            None => if at(n - 1) {
                Some(n - 1)
            } else {
                None
            },
        }
    }
}

/// The least index is one at which `at` holds and before which it does not.
pub proof fn lemma_first_index(n: nat, at: spec_fn(int) -> bool)
    ensures
        match first_index(n, at) {
            Some(i) => 0 <= i < n && at(i) && (forall|j: int| 0 <= j < i ==> !#[trigger] at(j)),
            None => forall|j: int| 0 <= j < n ==> !#[trigger] at(j),
        },
    decreases n,
{
    if n > 0 {
        lemma_first_index((n - 1) as nat, at);
    }
}

/// The least index is determined by what [`lemma_first_index`] says of it.
pub proof fn lemma_is_first_index(n: nat, at: spec_fn(int) -> bool, i: int)
    requires
        0 <= i < n,
        at(i),
        forall|j: int| 0 <= j < i ==> !#[trigger] at(j),
    ensures
        first_index(n, at) == Some(i),
{
    lemma_first_index(n, at);
}

/// The sequences of all indices below `n`, one after the other.
pub open spec fn joined<T>(n: nat, at: spec_fn(int) -> Seq<T>) -> Seq<T>
    decreases n,
{
    if n == 0 {
        seq![]
    } else {
        joined((n - 1) as nat, at) + at(n - 1)
    }
}

/// What holds of all items of the sequences holds of all items of their concatenation.
pub proof fn lemma_joined_all<T>(n: nat, at: spec_fn(int) -> Seq<T>, p: spec_fn(T) -> bool)
    requires
        forall|i: int, j: int|
            #![trigger at(i)[j]]
            0 <= i < n && 0 <= j < at(i).len() ==> p(at(i)[j]),
    ensures
        forall|j: int| 0 <= j < joined(n, at).len() ==> p(#[trigger] joined(n, at)[j]),
    decreases n,
{
    if n > 0 {
        lemma_joined_all((n - 1) as nat, at, p);
        let head = joined((n - 1) as nat, at);
        assert forall|j: int| 0 <= j < joined(n, at).len() implies p(
            #[trigger] joined(n, at)[j],
        ) by {
            if j < head.len() {
                assert(joined(n, at)[j] == head[j]);
            } else {
                assert(joined(n, at)[j] == at(n - 1)[j - head.len()]);
            }
        }
    }
}

/// Every item of the sequences stands in their concatenation.
pub proof fn lemma_joined_at<T>(n: nat, at: spec_fn(int) -> Seq<T>, i: int, j: int) -> (p: int)
    requires
        0 <= i < n,
        0 <= j < at(i).len(),
    ensures
        0 <= p < joined(n, at).len(),
        joined(n, at)[p] == at(i)[j],
    decreases n,
{
    let head = joined((n - 1) as nat, at);
    if i == n - 1 {
        head.len() as int + j
    } else {
        lemma_joined_at((n - 1) as nat, at, i, j)
    }
}

/// A failure of the whole is that of an index below `n`, and no index before it fails.
pub proof fn lemma_gathered_failure_at<T, E>(n: nat, at: spec_fn(int) -> Result<T, E>) -> (i: int)
    requires
        gathered(n, at) is Err,
    ensures
        0 <= i < n,
        at(i) is Err,
        at(i)->Err_0 == gathered(n, at)->Err_0,
        forall|j: int| 0 <= j < i ==> (#[trigger] at(j)) is Ok,
    decreases n,
{
    if gathered((n - 1) as nat, at) is Err {
        lemma_gathered_failure_at((n - 1) as nat, at)
    } else {
        lemma_gathered((n - 1) as nat, at);
        n - 1
    }
}

/// Every item of the concatenation stands in one of the sequences.
pub proof fn lemma_joined_from<T>(n: nat, at: spec_fn(int) -> Seq<T>, p: int) -> (place: (int, int))
    requires
        0 <= p < joined(n, at).len(),
    ensures
        0 <= place.0 < n,
        0 <= place.1 < at(place.0).len(),
        joined(n, at)[p] == at(place.0)[place.1],
    decreases n,
{
    let head = joined((n - 1) as nat, at);
    if p < head.len() {
        lemma_joined_from((n - 1) as nat, at, p)
    } else {
        (n - 1, p - head.len())
    }
}

/// The numbers of all indices below `n`, added up.
pub open spec fn summed(n: nat, at: spec_fn(int) -> nat) -> nat
    decreases n,
{
    if n == 0 {
        0
    } else {
        summed((n - 1) as nat, at) + at(n - 1)
    }
}

/// The sum depends only on the numbers below `n`.
pub proof fn lemma_summed_same(n: nat, at: spec_fn(int) -> nat, other: spec_fn(int) -> nat)
    requires
        forall|i: int| 0 <= i < n ==> (#[trigger] at(i)) == other(i),
    ensures
        summed(n, at) == summed(n, other),
    decreases n,
{
    if n > 0 {
        lemma_summed_same((n - 1) as nat, at, other);
        assert(at(n - 1) == other(n - 1));
    }
}

/// Items of the concatenation stand in the order of the sequences, and within one in its order.
pub proof fn lemma_joined_order<T>(n: nat, at: spec_fn(int) -> Seq<T>, p: int, q: int) -> (r: (
    (int, int),
    (int, int),
))
    requires
        0 <= p < q < joined(n, at).len(),
    ensures
        0 <= r.0.0 < n,
        0 <= r.0.1 < at(r.0.0).len(),
        joined(n, at)[p] == at(r.0.0)[r.0.1],
        0 <= r.1.0 < n,
        0 <= r.1.1 < at(r.1.0).len(),
        joined(n, at)[q] == at(r.1.0)[r.1.1],
        r.0.0 < r.1.0 || (r.0.0 == r.1.0 && r.0.1 < r.1.1),
    decreases n,
{
    let head = joined((n - 1) as nat, at);
    if q < head.len() {
        lemma_joined_order((n - 1) as nat, at, p, q)
    } else if p < head.len() {
        (lemma_joined_from((n - 1) as nat, at, p), (n - 1, q - head.len()))
    } else {
        ((n - 1, p - head.len()), (n - 1, q - head.len()))
    }
}

} // verus!
