use vstd::prelude::*;
use vstd::string::StringExecFns;

verus! {

/// The document assembled from per-chunk outcomes in ascending chunk order:
/// the concatenation of every successful outcome's text, with failed
/// (`None`) outcomes skipped and no separator inserted.
pub open spec fn assembled_text(outcomes: Seq<Option<String>>) -> Seq<char>
    decreases outcomes.len(),
{
    if outcomes.len() == 0 {
        Seq::empty()
    } else {
        assembled_text(outcomes.drop_last()) + (match outcomes.last() {
            Some(s) => s@,
            None => Seq::empty(),
        })
    }
}

/// Concatenates the successful outcomes in chunk order into the final
/// document.  A failed chunk is skipped rather than failing the run:
/// partial success is preferred over total failure, so the output may be
/// missing a failed segment's content.
pub fn assemble(outcomes: &Vec<Option<String>>) -> (r: String)
    ensures
        r@ == assembled_text(outcomes@),
{
    let mut doc = String::new();
    let mut i: usize = 0;
    while i < outcomes.len()
        invariant
            i <= outcomes@.len(),
            doc@ == assembled_text(outcomes@.take(i as int)),
        decreases outcomes@.len() - i,
    {
        match &outcomes[i] {
            Some(txt) => {
                doc.append(txt.as_str());
            },
            None => {},
        }
        proof {
            let pre = outcomes@.take(i as int);
            let post = outcomes@.take(i + 1);
            assert(post.drop_last() =~= pre);
            assert(post.last() == outcomes@[i as int]);
            if outcomes@[i as int] is None {
                assert(doc@ =~= assembled_text(post));
            }
        }
        i = i + 1;
    }
    proof {
        assert(outcomes@.take(outcomes@.len() as int) =~= outcomes@);
    }
    doc
}

/// Law (partial-failure tolerance): a failed chunk contributes nothing.
/// The document assembled from outcomes holding a `None` at position `k`
/// equals the document assembled with that outcome removed, so the remaining
/// chunks' results stand untouched and in order.
pub proof fn lemma_partial_failure(outcomes: Seq<Option<String>>, k: int)
    requires
        0 <= k < outcomes.len(),
        outcomes[k] is None,
    ensures
        assembled_text(outcomes) == assembled_text(outcomes.remove(k)),
    decreases outcomes.len(),
{
    if k == outcomes.len() - 1 {
        assert(outcomes.remove(k) =~= outcomes.drop_last());
        assert(assembled_text(outcomes) =~= assembled_text(outcomes.drop_last()));
    } else {
        lemma_partial_failure(outcomes.drop_last(), k);
        assert(outcomes.remove(k).drop_last() =~= outcomes.drop_last().remove(k));
        assert(outcomes.remove(k).last() == outcomes.last());
    }
}

} // verus!
