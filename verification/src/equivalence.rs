//! Why every sound strategy agrees with the single-threaded baseline.
//!
//! The workers' reports may reach the aggregate in any order, and the domain
//! may have been permuted before it was cut. Neither changes which items are
//! gathered, nor how often.

use crate::aggregate::{matching, predicate, reports_of};
use crate::partition::is_partition_of;
use crate::predicate::{is_prime_spec, Verdict};
use vstd::multiset::Multiset;
use vstd::prelude::*;
use vstd::seq_lib::{
    lemma_flatten_concat, lemma_multiset_commutative, to_multiset_build, to_multiset_contains,
    to_multiset_len, to_multiset_remove,
};

verus! {

/// Filtering the chunks one by one and putting the results end to end gives
/// what filtering the chunks put end to end gives.
pub proof fn lemma_matching_flatten(chunks: Seq<Seq<usize>>)
    ensures
        reports_of(chunks).flatten() == matching(chunks.flatten()),
    decreases chunks.len(),
{
    if chunks.len() == 0 {
        assert(reports_of(chunks) =~= Seq::<Seq<usize>>::empty());
        assert(matching(Seq::<usize>::empty()) =~= Seq::<usize>::empty()) by {
            reveal(Seq::filter);
        }
    } else {
        let front = chunks.drop_last();
        let last = chunks.last();
        lemma_matching_flatten(front);
        assert(chunks =~= front.push(last));
        front.lemma_flatten_push(last);
        assert(reports_of(chunks) =~= reports_of(front).push(matching(last)));
        reports_of(front).lemma_flatten_push(matching(last));
        Seq::filter_distributes_over_add(front.flatten(), last, predicate());
    }
}

/// An item occurs among the matching items as often as among all items if
/// the predicate holds on it, and not at all otherwise.
pub proof fn lemma_matching_count(items: Seq<usize>, item: usize)
    ensures
        matching(items).to_multiset().count(item) == if is_matching(item) {
            items.to_multiset().count(item)
        } else {
            0
        },
    decreases items.len(),
{
    broadcast use vstd::multiset::group_multiset_axioms;

    if items.len() == 0 {
        assert(matching(items) =~= Seq::<usize>::empty()) by {
            reveal(Seq::filter);
        }
        assert(items.to_multiset() =~= Multiset::<usize>::empty()) by {
            items.to_multiset_ensures();
        }
        assert(matching(items).to_multiset() =~= Multiset::<usize>::empty()) by {
            matching(items).to_multiset_ensures();
        }
    } else {
        let front = items.drop_last();
        let last = items.last();
        lemma_matching_count(front, item);
        assert(items =~= front.push(last));
        front.lemma_filter_push(last, predicate());
        to_multiset_build(front, last);
        if predicate()(last) {
            to_multiset_build(matching(front), last);
        }
    }
}

/// The predicate holds on `item`.
pub open spec fn is_matching(item: usize) -> bool {
    predicate()(item)
}

/// Two arrangements of the same items have the same matching items, each as
/// often in the one as in the other.
pub proof fn lemma_matching_permutation(a: Seq<usize>, b: Seq<usize>)
    requires
        a.to_multiset() == b.to_multiset(),
    ensures
        matching(a).to_multiset() == matching(b).to_multiset(),
{
    assert forall|item: usize|
        matching(a).to_multiset().count(item) == matching(b).to_multiset().count(item) by {
        lemma_matching_count(a, item);
        lemma_matching_count(b, item);
    }
    assert(matching(a).to_multiset() =~= matching(b).to_multiset());
}

/// Reports that arrive in another order hold, put end to end, the same items
/// as often.
pub proof fn lemma_flatten_permutation(a: Seq<Seq<usize>>, b: Seq<Seq<usize>>)
    requires
        a.to_multiset() == b.to_multiset(),
    ensures
        a.flatten().to_multiset() == b.flatten().to_multiset(),
    decreases a.len(),
{
    broadcast use vstd::multiset::group_multiset_axioms;

    to_multiset_len(a);
    to_multiset_len(b);
    if a.len() == 0 {
        assert(b.len() == 0);
        assert(a.flatten() =~= b.flatten());
    } else {
        let front = a.drop_last();
        let last = a.last();
        assert(a =~= front.push(last));
        to_multiset_build(front, last);
        to_multiset_contains(b, last);
        assert(b.contains(last));
        let j = choose|j: int| 0 <= j < b.len() && b[j] == last;
        let rest = b.remove(j);
        to_multiset_remove(b, j);
        assert(front.to_multiset() =~= rest.to_multiset());
        lemma_flatten_permutation(front, rest);

        let head = b.take(j);
        let tail = b.skip(j + 1);
        assert(b =~= head + seq![last] + tail);
        assert(rest =~= head + tail);
        lemma_flatten_concat(head + seq![last], tail);
        lemma_flatten_concat(head, seq![last]);
        lemma_flatten_concat(head, tail);
        assert(seq![last].flatten() =~= last) by {
            seq![last].lemma_flatten_singleton();
        }
        front.lemma_flatten_push(last);
        lemma_multiset_commutative(front.flatten(), last);
        lemma_multiset_commutative(head.flatten() + last, tail.flatten());
        lemma_multiset_commutative(head.flatten(), last);
        lemma_multiset_commutative(head.flatten(), tail.flatten());
        assert(a.flatten().to_multiset() =~= b.flatten().to_multiset());
    }
}

/// Sequences that hold the same items as often have the same length and hold
/// the same set of values.
pub proof fn lemma_same_items(a: Seq<usize>, b: Seq<usize>)
    requires
        a.to_multiset() == b.to_multiset(),
    ensures
        a.len() == b.len(),
        a.to_set() == b.to_set(),
{
    to_multiset_len(a);
    to_multiset_len(b);
    assert forall|item: usize| a.to_set().contains(item) == b.to_set().contains(item) by {
        to_multiset_contains(a, item);
        to_multiset_contains(b, item);
    }
    assert(a.to_set() =~= b.to_set());
}

/// Agreement with the baseline. Let the partitioner cut the domain `items`
/// for `w` workers, shuffled or not, let every worker report the matching
/// items of its chunk, and let the reports arrive in any order. Then the
/// reports put end to end hold exactly the items that one pass over the
/// domain finds: the same values, each as often, and so as many.
pub proof fn lemma_reports_equal_baseline(
    items: Seq<usize>,
    w: int,
    shuffle: bool,
    chunks: Seq<Seq<usize>>,
    arrived: Seq<Seq<usize>>,
)
    requires
        1 <= w,
        is_partition_of(chunks, items, w, shuffle),
        arrived.to_multiset() == reports_of(chunks).to_multiset(),
    ensures
        arrived.flatten().to_multiset() == matching(items).to_multiset(),
        arrived.flatten().len() == matching(items).len(),
        arrived.flatten().to_set() == matching(items).to_set(),
{
    lemma_flatten_permutation(arrived, reports_of(chunks));
    lemma_matching_flatten(chunks);
    lemma_matching_permutation(chunks.flatten(), items);
    lemma_same_items(arrived.flatten(), matching(items));
}

/// Without shuffling, reports merged in the order of their chunks are the
/// baseline's result, item for item.
pub proof fn lemma_ordered_reports_are_baseline(items: Seq<usize>, w: int, chunks: Seq<Seq<usize>>)
    requires
        1 <= w,
        is_partition_of(chunks, items, w, false),
    ensures
        reports_of(chunks).flatten() == matching(items),
{
    lemma_matching_flatten(chunks);
    crate::partition::lemma_split_covers(chunks, items, w);
}

/// What an aggregate holds after it has recorded `verdicts` in their order.
pub open spec fn recorded(verdicts: Seq<Verdict>) -> Seq<usize>
    decreases verdicts.len(),
{
    if verdicts.len() == 0 {
        Seq::empty()
    } else if verdicts.last().holds {
        recorded(verdicts.drop_last()).push(verdicts.last().item)
    } else {
        recorded(verdicts.drop_last())
    }
}

/// The verdict that each unit computes for its item.
pub open spec fn verdicts_of(items: Seq<usize>) -> Seq<Verdict> {
    Seq::new(items.len(), |i: int| Verdict { item: items[i], holds: is_prime_spec(items[i] as int) })
}

/// An item is recorded as often as a verdict arrived that holds for it.
proof fn lemma_recorded_count(verdicts: Seq<Verdict>, item: usize)
    ensures
        recorded(verdicts).to_multiset().count(item) == verdicts.to_multiset().count(
            Verdict { item, holds: true },
        ),
    decreases verdicts.len(),
{
    broadcast use vstd::multiset::group_multiset_axioms;

    if verdicts.len() == 0 {
        assert(verdicts.to_multiset() =~= Multiset::<Verdict>::empty()) by {
            verdicts.to_multiset_ensures();
        }
        assert(recorded(verdicts).to_multiset() =~= Multiset::<usize>::empty()) by {
            recorded(verdicts).to_multiset_ensures();
        }
    } else {
        let front = verdicts.drop_last();
        let last = verdicts.last();
        lemma_recorded_count(front, item);
        assert(verdicts =~= front.push(last));
        to_multiset_build(front, last);
        if last.holds {
            to_multiset_build(recorded(front), last.item);
        }
    }
}

/// A verdict that holds for an item is computed as often as the item occurs
/// if the predicate holds on it, and never otherwise.
proof fn lemma_verdicts_count(items: Seq<usize>, item: usize)
    ensures
        verdicts_of(items).to_multiset().count(Verdict { item, holds: true }) == if is_matching(
            item,
        ) {
            items.to_multiset().count(item)
        } else {
            0
        },
    decreases items.len(),
{
    broadcast use vstd::multiset::group_multiset_axioms;

    if items.len() == 0 {
        assert(items.to_multiset() =~= Multiset::<usize>::empty()) by {
            items.to_multiset_ensures();
        }
        assert(verdicts_of(items).to_multiset() =~= Multiset::<Verdict>::empty()) by {
            verdicts_of(items).to_multiset_ensures();
        }
    } else {
        let front = items.drop_last();
        let last = items.last();
        lemma_verdicts_count(front, item);
        assert(items =~= front.push(last));
        let verdict = Verdict { item: last, holds: is_prime_spec(last as int) };
        assert(verdicts_of(items) =~= verdicts_of(front).push(verdict));
        to_multiset_build(front, last);
        to_multiset_build(verdicts_of(front), verdict);
    }
}

/// Agreement of the cooperative orchestrator with the baseline. Let one unit
/// per item compute the item's verdict, and let the verdicts be recorded in
/// the order in which the units complete, whatever it is. Then the aggregate
/// holds exactly the items that one pass over the domain finds: the same
/// values, each as often, and so as many.
pub proof fn lemma_recorded_equal_baseline(items: Seq<usize>, arrived: Seq<Verdict>)
    requires
        arrived.to_multiset() == verdicts_of(items).to_multiset(),
    ensures
        recorded(arrived).to_multiset() == matching(items).to_multiset(),
        recorded(arrived).len() == matching(items).len(),
        recorded(arrived).to_set() == matching(items).to_set(),
{
    assert forall|item: usize|
        recorded(arrived).to_multiset().count(item) == matching(items).to_multiset().count(
            item,
        ) by {
        lemma_recorded_count(arrived, item);
        lemma_verdicts_count(items, item);
        lemma_matching_count(items, item);
    }
    assert(recorded(arrived).to_multiset() =~= matching(items).to_multiset());
    lemma_same_items(recorded(arrived), matching(items));
}

} // verus!
