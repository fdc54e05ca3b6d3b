use vstd::prelude::*;

verus! {

/// Some pair in `pairs` carries chunk index `i`.
pub open spec fn covered(pairs: Seq<(usize, Option<String>)>, i: int) -> bool {
    exists|j: int| 0 <= j < pairs.len() && (#[trigger] pairs[j]).0 as int == i
}

/// The outcome pairs of one run are complete for `n` chunks: there are `n`
/// of them, each carries a chunk index below `n`, no index repeats, and
/// every index below `n` occurs.  This is what the dispatcher guarantees
/// when every launched task reaches a terminal state.
pub open spec fn indices_complete(pairs: Seq<(usize, Option<String>)>, n: int) -> bool {
    &&& pairs.len() == n
    &&& forall|j: int| 0 <= j < pairs.len() ==> (#[trigger] pairs[j]).0 < n
    &&& forall|j: int, k: int|
        0 <= j < k < pairs.len() ==> (#[trigger] pairs[j]).0 != (#[trigger] pairs[k]).0
    &&& forall|i: int| 0 <= i < n ==> #[trigger] covered(pairs, i)
}

/// Places each task outcome at its own chunk index, whatever order the
/// tasks completed in, yielding the outcome sequence in original chunk
/// order.  Returns `None` exactly when the pairs are not a complete set of
/// outcomes for `n` chunks (a missing, repeated, or out-of-range index).
pub fn collect_in_order(pairs: &Vec<(usize, Option<String>)>, n: usize) -> (r: Option<
    Vec<Option<String>>,
>)
    ensures
        r is Some <==> indices_complete(pairs@, n as int),
        r matches Some(s) ==> {
            &&& s@.len() == n
            &&& forall|j: int|
                0 <= j < pairs@.len() ==> s@[(#[trigger] pairs@[j]).0 as int] == pairs@[j].1
        },
{
    let ghost orig = pairs@;
    if pairs.len() != n {
        return None;
    }
    let mut slots: Vec<Option<String>> = Vec::new();
    let mut seen: Vec<bool> = Vec::new();
    let mut i: usize = 0;
    while i < n
        invariant
            i <= n,
            slots@.len() == i,
            seen@.len() == i,
            forall|x: int| 0 <= x < i ==> !(#[trigger] seen@[x]),
        decreases n - i,
    {
        slots.push(None);
        seen.push(false);
        i = i + 1;
    }
    let mut j: usize = 0;
    while j < n
        invariant
            orig == pairs@,
            orig.len() == n,
            slots@.len() == n,
            seen@.len() == n,
            j <= n,
            forall|x: int|
                0 <= x < n ==> (#[trigger] seen@[x] <==> exists|jj: int|
                    0 <= jj < j && (#[trigger] orig[jj]).0 as int == x),
            forall|jj: int| 0 <= jj < j ==> (#[trigger] orig[jj]).0 < n,
            forall|jj: int|
                0 <= jj < j ==> slots@[(#[trigger] orig[jj]).0 as int] == orig[jj].1,
            forall|jj: int, k: int|
                0 <= jj < k < j ==> (#[trigger] orig[jj]).0 != (#[trigger] orig[k]).0,
        decreases n - j,
    {
        let idx = pairs[j].0;
        if idx >= n {
            proof {
                if indices_complete(orig, n as int) {
                    assert(orig[j as int].0 < n);
                }
            }
            return None;
        }
        if seen[idx] {
            proof {
                let jj = choose|jj: int|
                    0 <= jj < j && (#[trigger] orig[jj]).0 as int == idx as int;
                assert(orig[jj].0 == orig[j as int].0);
                if indices_complete(orig, n as int) {
                    assert(orig[jj].0 != orig[j as int].0);
                }
            }
            return None;
        }
        proof {
            assert forall|jj: int| 0 <= jj < j implies (#[trigger] orig[jj]).0 != idx by {
                if orig[jj].0 as int == idx as int {
                    assert(exists|x: int|
                        0 <= x < j && (#[trigger] orig[x]).0 as int == idx as int);
                    assert(seen@[idx as int]);
                }
            }
        }
        let outcome = match &pairs[j].1 {
            Some(s) => Some(s.clone()),
            None => None,
        };
        assert(outcome == orig[j as int].1);
        slots.set(idx, outcome);
        seen.set(idx, true);
        proof {
            assert forall|x: int|
                0 <= x < n implies (#[trigger] seen@[x] <==> exists|jj: int|
                    0 <= jj < j + 1 && (#[trigger] orig[jj]).0 as int == x) by {
                if x == idx as int {
                    assert(orig[j as int].0 as int == x);
                } else {
                    if exists|jj: int| 0 <= jj < j + 1 && (#[trigger] orig[jj]).0 as int == x {
                        let jj = choose|jj: int|
                            0 <= jj < j + 1 && (#[trigger] orig[jj]).0 as int == x;
                        assert(jj != j as int);
                        assert(0 <= jj < j && orig[jj].0 as int == x);
                    }
                }
            }
        }
        j = j + 1;
    }
    let mut i: usize = 0;
    while i < n
        invariant
            i <= n,
            orig == pairs@,
            seen@.len() == n,
            slots@.len() == n,
            orig.len() == n,
            forall|x: int| 0 <= x < n ==> (#[trigger] seen@[x] <==> covered(orig, x)),
            forall|x: int| 0 <= x < i ==> #[trigger] covered(orig, x),
            forall|jj: int| 0 <= jj < n ==> (#[trigger] orig[jj]).0 < n,
            forall|jj: int| 0 <= jj < n ==> slots@[(#[trigger] orig[jj]).0 as int] == orig[jj].1,
            forall|jj: int, k: int|
                0 <= jj < k < n ==> (#[trigger] orig[jj]).0 != (#[trigger] orig[k]).0,
        decreases n - i,
    {
        if !seen[i] {
            proof {
                if indices_complete(orig, n as int) {
                    assert(covered(orig, i as int));
                }
            }
            return None;
        }
        i = i + 1;
    }
    Some(slots)
}

/// Law (order preservation): the outcome sequence a run hands to the
/// reassembler does not depend on the order in which the tasks completed.
/// If two completion histories deliver the same set of indexed outcomes —
/// one a permutation of the other — then any two index-placed sequences
/// built from them are equal.
pub proof fn lemma_order_preservation(
    pairs1: Seq<(usize, Option<String>)>,
    pairs2: Seq<(usize, Option<String>)>,
    s1: Seq<Option<String>>,
    s2: Seq<Option<String>>,
    n: int,
)
    requires
        indices_complete(pairs1, n),
        pairs1.to_multiset() == pairs2.to_multiset(),
        s1.len() == n,
        s2.len() == n,
        forall|j: int| 0 <= j < pairs1.len() ==> s1[(#[trigger] pairs1[j]).0 as int] == pairs1[j].1,
        forall|j: int| 0 <= j < pairs2.len() ==> s2[(#[trigger] pairs2[j]).0 as int] == pairs2[j].1,
    ensures
        s1 == s2,
{
    broadcast use vstd::seq_lib::group_to_multiset_ensures;

    assert forall|i: int| 0 <= i < n implies s1[i] == s2[i] by {
        assert(covered(pairs1, i));
        let j1 = choose|j: int| 0 <= j < pairs1.len() && (#[trigger] pairs1[j]).0 as int == i;
        assert(pairs1.contains(pairs1[j1]));
        assert(pairs1.to_multiset().contains(pairs1[j1]));
        assert(pairs2.to_multiset().contains(pairs1[j1]));
        assert(pairs2.contains(pairs1[j1]));
        let j2 = choose|j: int| 0 <= j < pairs2.len() && pairs2[j] == pairs1[j1];
        assert(s2[(pairs2[j2]).0 as int] == pairs2[j2].1);
    };
    assert(s1 =~= s2);
}

} // verus!
