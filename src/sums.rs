use vstd::prelude::*;

verus! {

/// The sum of `f` over `keys`.
pub open spec fn sum_over(keys: Seq<Seq<u8>>, f: spec_fn(Seq<u8>) -> int) -> int
    decreases keys.len(),
{
    if keys.len() == 0 {
        0
    } else {
        sum_over(keys.drop_last(), f) + f(keys.last())
    }
}

pub proof fn lemma_sum_push(keys: Seq<Seq<u8>>, k: Seq<u8>, f: spec_fn(Seq<u8>) -> int)
    ensures
        sum_over(keys.push(k), f) == sum_over(keys, f) + f(k),
{
    assert(keys.push(k).drop_last() =~= keys);
}

/// Removing the key at `i` takes its term out of the sum.
pub proof fn lemma_sum_remove(keys: Seq<Seq<u8>>, i: int, f: spec_fn(Seq<u8>) -> int)
    requires
        0 <= i < keys.len(),
    ensures
        sum_over(keys, f) == sum_over(keys.remove(i), f) + f(keys[i]),
    decreases keys.len(),
{
    if i == keys.len() - 1 {
        assert(keys.remove(i) =~= keys.drop_last());
    } else {
        lemma_sum_remove(keys.drop_last(), i, f);
        assert(keys.remove(i) =~= keys.drop_last().remove(i).push(keys.last()));
        lemma_sum_push(keys.drop_last().remove(i), keys.last(), f);
    }
}

/// Sums of functions that agree on the keys are equal.
pub proof fn lemma_sum_ext(keys: Seq<Seq<u8>>, f: spec_fn(Seq<u8>) -> int, g: spec_fn(Seq<u8>) -> int)
    requires
        forall|k: Seq<u8>| keys.contains(k) ==> #[trigger] f(k) == g(k),
    ensures
        sum_over(keys, f) == sum_over(keys, g),
    decreases keys.len(),
{
    if keys.len() > 0 {
        assert forall|k: Seq<u8>| keys.drop_last().contains(k) implies f(k) == g(k) by {
            let j = choose|j: int| 0 <= j < keys.drop_last().len() && keys.drop_last()[j] == k;
            assert(keys[j] == k);
        };
        lemma_sum_ext(keys.drop_last(), f, g);
        assert(keys.contains(keys.last())) by {
            assert(keys[keys.len() - 1] == keys.last());
        };
    }
}

/// Changing `f` at one key changes the sum by the same amount, when the key occurs once.
pub proof fn lemma_sum_change(keys: Seq<Seq<u8>>, h: Seq<u8>, f: spec_fn(Seq<u8>) -> int, g: spec_fn(Seq<u8>) -> int)
    requires
        keys.no_duplicates(),
        keys.contains(h),
        forall|k: Seq<u8>| k != h ==> #[trigger] f(k) == g(k),
    ensures
        sum_over(keys, g) == sum_over(keys, f) - f(h) + g(h),
{
    let i = choose|i: int| 0 <= i < keys.len() && keys[i] == h;
    lemma_sum_remove(keys, i, f);
    lemma_sum_remove(keys, i, g);
    assert forall|k: Seq<u8>| keys.remove(i).contains(k) implies f(k) == g(k) by {
        let j = choose|j: int| 0 <= j < keys.remove(i).len() && keys.remove(i)[j] == k;
        if j < i {
            assert(keys[j] == k);
        } else {
            assert(keys[j + 1] == k);
        }
    };
    lemma_sum_ext(keys.remove(i), f, g);
}

/// A pointwise smaller function has a smaller sum; a non-negative one a non-negative sum.
pub proof fn lemma_sum_le(keys: Seq<Seq<u8>>, f: spec_fn(Seq<u8>) -> int, g: spec_fn(Seq<u8>) -> int)
    requires
        forall|k: Seq<u8>| 0 <= #[trigger] f(k) <= g(k),
    ensures
        0 <= sum_over(keys, f) <= sum_over(keys, g),
    decreases keys.len(),
{
    if keys.len() > 0 {
        lemma_sum_le(keys.drop_last(), f, g);
        assert(0 <= f(keys.last()) <= g(keys.last()));
    }
}

} // verus!
