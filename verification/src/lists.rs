use vstd::prelude::*;
use crate::model::without;

verus! {

/// What is left of a list holds exactly the identifiers of the list that were
/// not taken out.
pub proof fn lemma_without_contains(list: Seq<u64>, gone: Seq<u64>, id: u64)
    ensures
        without(list, gone).contains(id) <==> list.contains(id) && !gone.contains(id),
{
    let stays = |id: u64| !gone.contains(id);
    let kept = list.filter(stays);
    if kept.contains(id) {
        list.lemma_filter_contains_rev(stays, id);
        let i = choose|i: int| 0 <= i < kept.len() && kept[i] == id;
        list.lemma_filter_pred(stays, i);
    }
    if list.contains(id) && !gone.contains(id) {
        let i = choose|i: int| 0 <= i < list.len() && list[i] == id;
        list.lemma_filter_contains(stays, i);
    }
}

/// Taking identifiers out of a list without repetition leaves a list without
/// repetition.
pub proof fn lemma_without_no_duplicates(list: Seq<u64>, gone: Seq<u64>)
    requires
        list.no_duplicates(),
    ensures
        without(list, gone).no_duplicates(),
    decreases list.len(),
{
    reveal(Seq::filter);
    if list.len() > 0 {
        let front = list.drop_last();
        let last = list.last();
        lemma_without_no_duplicates(front, gone);
        if !gone.contains(last) {
            let kept = without(front, gone);
            assert(without(list, gone) == kept.push(last));
            assert(!kept.contains(last)) by {
                lemma_without_contains(front, gone, last);
                if front.contains(last) {
                    let i = choose|i: int| 0 <= i < front.len() && front[i] == last;
                    assert(list[i] == list[list.len() - 1]);
                }
            }
            assert forall|i: int, j: int|
                0 <= i < kept.len() + 1 && 0 <= j < kept.len() + 1 && i != j implies kept.push(
                last,
            )[i] != kept.push(last)[j] by {
                if i < kept.len() {
                    assert(kept.contains(kept[i]));
                }
                if j < kept.len() {
                    assert(kept.contains(kept[j]));
                }
            }
        }
    }
}

/// Taking out one identifier more is the same as taking that one out of what
/// was left.
pub proof fn lemma_without_step(list: Seq<u64>, gone: Seq<u64>, id: u64)
    ensures
        without(list, gone.push(id)) == without(without(list, gone), seq![id]),
    decreases list.len(),
{
    reveal(Seq::filter);
    let more = gone.push(id);
    let one = seq![id];
    if list.len() == 0 {
        assert(without(list, gone) =~= Seq::<u64>::empty());
        assert(without(without(list, gone), one) =~= Seq::<u64>::empty());
        assert(without(list, more) =~= Seq::<u64>::empty());
    } else {
        let front = list.drop_last();
        let last = list.last();
        lemma_without_step(front, gone, id);
        assert(more.contains(last) <==> gone.contains(last) || last == id) by {
            if gone.contains(last) {
                let i = choose|i: int| 0 <= i < gone.len() && gone[i] == last;
                assert(more[i] == last);
            }
            if last == id {
                assert(more[gone.len() as int] == last);
            }
        }
        assert(one.contains(last) <==> last == id) by {
            if last == id {
                assert(one[0] == last);
            }
        }
        if !gone.contains(last) {
            without(front, gone).lemma_filter_push(last, |x: u64| !one.contains(x));
        }
    }
}

/// Taking nothing out leaves the list as it is.
pub proof fn lemma_without_nothing(list: Seq<u64>)
    ensures
        without(list, Seq::<u64>::empty()) == list,
    decreases list.len(),
{
    reveal(Seq::filter);
    if list.len() > 0 {
        lemma_without_nothing(list.drop_last());
        assert(list.drop_last().push(list.last()) =~= list);
    }
}

/// Whether no identifier occurs twice in `ids`.
pub fn all_distinct(ids: &Vec<u64>) -> (distinct: bool)
    ensures
        distinct == ids@.no_duplicates(),
{
    let mut i: usize = 0;
    while i < ids.len()
        invariant
            i <= ids@.len(),
            forall|a: int, b: int| 0 <= a < b < i ==> ids@[a] != ids@[b],
        decreases ids@.len() - i,
    {
        let mut j: usize = 0;
        while j < i
            invariant
                j <= i < ids@.len(),
                forall|a: int| 0 <= a < j ==> ids@[a] != ids@[i as int],
            decreases i - j,
        {
            if ids[j] == ids[i] {
                assert(ids@[j as int] == ids@[i as int] && j != i);
                return false;
            }
            j += 1;
        }
        i += 1;
    }
    assert forall|a: int, b: int|
        0 <= a < ids@.len() && 0 <= b < ids@.len() && a != b implies ids@[a] != ids@[b] by {
        if a < b {
            assert(ids@[a] != ids@[b]);
        } else {
            assert(ids@[b] != ids@[a]);
        }
    }
    true
}

} // verus!
