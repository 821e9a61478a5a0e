use vstd::prelude::*;
use vstd::std_specs::cmp::PartialOrdSpec;
use std::cmp::Ordering;

verus! {

/// Draws an integer from `low` to `high`, both included.
///
/// The draw is `Rng::sample` of the rand crate, on the generator of the
/// calling thread and with the distribution `Uniform::new_inclusive(low,
/// high)`, which gives a value of the closed range and panics where `low` is
/// above `high`. Which value comes out is not stated: two draws from one
/// range may differ.
#[verifier::external_body]
pub(crate) fn random_in_range(low: usize, high: usize) -> (r: usize)
    requires
        low <= high,
    ensures
        low <= r <= high,
{
    rand::Rng::sample(&mut rand::thread_rng(), rand::distributions::Uniform::new_inclusive(low, high))
}

/// Exchanging two items of a sequence leaves the same items, each as often
/// as before.
pub proof fn lemma_swap_keeps_multiset<A>(s: Seq<A>, i: int, j: int)
    requires
        0 <= i < s.len(),
        0 <= j < s.len(),
    ensures
        s.update(i, s[j]).update(j, s[i]).to_multiset() == s.to_multiset(),
{
    broadcast use vstd::multiset::group_multiset_axioms;

    let s1 = s.update(i, s[j]);
    vstd::seq_lib::to_multiset_update(s, i, s[j]);
    vstd::seq_lib::to_multiset_update(s1, j, s[i]);
    vstd::seq_lib::to_multiset_contains(s, s[i]);
    vstd::seq_lib::to_multiset_contains(s, s[j]);
    assert(s.contains(s[i]));
    assert(s.contains(s[j]));
    assert(s1.update(j, s[i]).to_multiset() =~= s.to_multiset());
}

/// `x` held between `min` and `max`: `min` where `x` is below it, `max`
/// where `x` is above it, and `x` itself otherwise, also where `x` compares
/// with neither.
pub open spec fn spec_clamp<T: PartialOrd>(x: T, min: T, max: T) -> T {
    if x.partial_cmp_spec(&min) == Some(Ordering::Less) {
        min
    } else if x.partial_cmp_spec(&max) == Some(Ordering::Greater) {
        max
    } else {
        x
    }
}

/// `x` held between `min` and `max`.
pub fn clamp<T: PartialOrd>(x: T, min: T, max: T) -> (r: T)
    ensures
        T::obeys_partial_cmp_spec() ==> r == spec_clamp(x, min, max),
{
    if x < min {
        min
    } else if x > max {
        max
    } else {
        x
    }
}

} // verus!
