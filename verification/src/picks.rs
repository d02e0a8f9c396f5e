//! Choosing elements of a sequence by their places.

use vstd::prelude::*;

verus! {

/// Whether the places are in order, each once.
pub open spec fn increasing(at: Seq<int>) -> bool {
    forall|j: int, k: int| 0 <= j < k < at.len() ==> #[trigger] at[j] < #[trigger] at[k]
}

/// What a filter keeps stands at places of the sequence that are in order: those
/// of the elements that it keeps.
pub proof fn lemma_filter_places<A>(s: Seq<A>, keep: spec_fn(A) -> bool) -> (at: Seq<int>)
    ensures
        increasing(at),
        at.len() == s.filter(keep).len(),
        forall|k: int| 0 <= k < at.len() ==> 0 <= #[trigger] at[k] < s.len(),
        forall|k: int|
            #![trigger at[k]]
            #![trigger s.filter(keep)[k]]
            0 <= k < at.len() ==> s.filter(keep)[k] == s[at[k]] && keep(s[at[k]]),
        forall|i: int| #[trigger] at.contains(i) <==> 0 <= i < s.len() && keep(s[i]),
    decreases s.len(),
{
    reveal(Seq::filter);
    if s.len() == 0 {
        Seq::empty()
    } else {
        let front = s.drop_last();
        let last = s.len() - 1;
        let before = lemma_filter_places(front, keep);
        if keep(s[last]) {
            let at = before.push(last);
            assert(s.filter(keep) == front.filter(keep).push(s[last]));
            assert forall|i: int| #[trigger] at.contains(i) <==> 0 <= i < s.len() && keep(s[i]) by {
                if at.contains(i) && i != last {
                    let k = choose|k: int| 0 <= k < at.len() && at[k] == i;
                    assert(before[k] == i);
                    assert(before.contains(i));
                    assert(front[i] == s[i]);
                }
                if 0 <= i < s.len() && keep(s[i]) {
                    if i == last {
                        assert(at[at.len() - 1] == i);
                    } else {
                        assert(front[i] == s[i]);
                        assert(before.contains(i));
                        let k = choose|k: int| 0 <= k < before.len() && before[k] == i;
                        assert(at[k] == i);
                    }
                }
            }
            assert forall|k: int|
                #![trigger at[k]]
                #![trigger s.filter(keep)[k]]
                0 <= k < at.len() implies s.filter(keep)[k] == s[at[k]] && keep(s[at[k]]) by {
                if k < before.len() {
                    assert(at[k] == before[k]);
                    assert(front.filter(keep)[k] == front[before[k]]);
                    assert(front[before[k]] == s[before[k]]);
                }
            }
            at
        } else {
            assert(s.filter(keep) == front.filter(keep));
            assert forall|i: int|
                #[trigger] before.contains(i) <==> 0 <= i < s.len() && keep(s[i]) by {
                if 0 <= i < last {
                    assert(front[i] == s[i]);
                }
            }
            assert forall|k: int|
                #![trigger before[k]]
                #![trigger s.filter(keep)[k]]
                0 <= k < before.len() implies s.filter(keep)[k] == s[before[k]] && keep(
                s[before[k]],
            ) by {
                assert(front.filter(keep)[k] == front[before[k]]);
                assert(front[before[k]] == s[before[k]]);
            }
            before
        }
    }
}

} // verus!
