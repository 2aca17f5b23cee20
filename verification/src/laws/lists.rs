//! Choosing from lists by place.
use vstd::prelude::*;

verus! {

/// The numbers below `n`, in order.
pub open spec fn places(n: nat) -> Seq<int> {
    Seq::new(n, |i: int| i)
}

/// Of the numbers below `n`, those that are wanted, in order.
pub open spec fn places_where(n: nat, wanted: spec_fn(int) -> bool) -> Seq<int> {
    places(n).filter(wanted)
}

pub proof fn lemma_places_where(n: nat, wanted: spec_fn(int) -> bool)
    ensures
        n == 0 ==> places_where(n, wanted).len() == 0,
        n > 0 ==> places_where(n, wanted) == (if wanted(n - 1) {
            places_where((n - 1) as nat, wanted).push(n - 1)
        } else {
            places_where((n - 1) as nat, wanted)
        }),
{
    reveal(Seq::filter);
    if n > 0 {
        assert(places(n).drop_last() =~= places((n - 1) as nat));
        assert(places(n).last() == n - 1);
    }
}

/// What is chosen is below `n` and wanted, and stands in order.
pub proof fn lemma_chosen(n: nat, wanted: spec_fn(int) -> bool, k: int)
    requires
        0 <= k < places_where(n, wanted).len(),
    ensures
        0 <= places_where(n, wanted)[k] < n,
        wanted(places_where(n, wanted)[k]),
        forall|j: int|
            0 <= j < k ==> #[trigger] places_where(n, wanted)[j] < places_where(n, wanted)[k],
    decreases n,
{
    lemma_places_where(n, wanted);
    let before = places_where((n - 1) as nat, wanted);
    if k < before.len() {
        lemma_chosen((n - 1) as nat, wanted, k);
    }
    assert forall|j: int| 0 <= j < k implies #[trigger] places_where(n, wanted)[j] < places_where(
        n,
        wanted,
    )[k] by {
        assert(places_where(n, wanted)[j] == before[j]);
        if k >= before.len() {
            lemma_chosen((n - 1) as nat, wanted, j);
        }
    }
}

/// What is below `n` and wanted is chosen.
pub proof fn lemma_chosen_contains(n: nat, wanted: spec_fn(int) -> bool, i: int)
    requires
        0 <= i < n,
        wanted(i),
    ensures
        places_where(n, wanted).contains(i),
    decreases n,
{
    lemma_places_where(n, wanted);
    let before = places_where((n - 1) as nat, wanted);
    if i < n - 1 {
        lemma_chosen_contains((n - 1) as nat, wanted, i);
        let k = choose|k: int| 0 <= k < before.len() && before[k] == i;
        assert(places_where(n, wanted)[k] == i);
    } else {
        assert(places_where(n, wanted)[before.len() as int] == i);
    }
}

} // verus!
