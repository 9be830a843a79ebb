//! Stable sorting by an order relation.

use vstd::prelude::*;

verus! {

/// An item placed among sorted ones, behind those that come no later.
pub open spec fn placed<T>(sorted: Seq<T>, item: T, leq: spec_fn(T, T) -> bool) -> Seq<T>
    decreases sorted.len(),
{
    if sorted.len() == 0 || leq(sorted.last(), item) {
        sorted.push(item)
    } else {
        placed(sorted.drop_last(), item, leq).push(sorted.last())
    }
}

/// Items in order; equal ones keep their order.
pub open spec fn stable_sorted<T>(items: Seq<T>, leq: spec_fn(T, T) -> bool) -> Seq<T>
    decreases items.len(),
{
    if items.len() == 0 {
        Seq::empty()
    } else {
        placed(stable_sorted(items.drop_last(), leq), items.last(), leq)
    }
}

/// Whether items are in order.
pub open spec fn in_order<T>(items: Seq<T>, leq: spec_fn(T, T) -> bool) -> bool {
    forall|i: int, j: int|
        0 <= i <= j < items.len() ==> leq(#[trigger] items[i], #[trigger] items[j])
}

/// Whether a relation orders all items.
pub open spec fn is_order<T>(leq: spec_fn(T, T) -> bool) -> bool {
    &&& forall|a: T| #[trigger] leq(a, a)
    &&& forall|a: T, b: T| #[trigger] leq(a, b) || leq(b, a)
    &&& forall|a: T, b: T, c: T| #[trigger] leq(a, b) && #[trigger] leq(b, c) ==> leq(a, c)
}

/// Placing is inserting behind the last item that comes no later.
pub proof fn lemma_placed_at<T>(sorted: Seq<T>, item: T, leq: spec_fn(T, T) -> bool, at: int)
    requires
        0 <= at <= sorted.len(),
        at == 0 || leq(sorted[at - 1], item),
        forall|k: int| at <= k < sorted.len() ==> !leq(#[trigger] sorted[k], item),
    ensures
        placed(sorted, item, leq) == sorted.insert(at, item),
    decreases sorted.len(),
{
    if sorted.len() == at {
        assert(sorted.insert(at, item) =~= sorted.push(item));
    } else {
        lemma_placed_at(sorted.drop_last(), item, leq, at);
        assert(sorted.drop_last().insert(at, item).push(sorted.last()) =~= sorted.insert(at, item));
    }
}

/// Sorting only reorders.
pub proof fn sorting_keeps_every_item<T>(items: Seq<T>, leq: spec_fn(T, T) -> bool)
    ensures
        stable_sorted(items, leq).to_multiset() == items.to_multiset(),
        stable_sorted(items, leq).len() == items.len(),
        forall|item: T| #[trigger] stable_sorted(items, leq).contains(item) == items.contains(item),
    decreases items.len(),
{
    broadcast use vstd::seq_lib::group_to_multiset_ensures;

    if items.len() > 0 {
        sorting_keeps_every_item(items.drop_last(), leq);
        lemma_placed_multiset(stable_sorted(items.drop_last(), leq), items.last(), leq);
        assert(items.drop_last().push(items.last()) =~= items);
    }
    assert forall|item: T| #[trigger]
        stable_sorted(items, leq).contains(item) == items.contains(item) by {
        assert(stable_sorted(items, leq).to_multiset().count(item) == items.to_multiset().count(
            item,
        ));
    }
}

proof fn lemma_placed_multiset<T>(sorted: Seq<T>, item: T, leq: spec_fn(T, T) -> bool)
    ensures
        placed(sorted, item, leq).to_multiset() == sorted.to_multiset().insert(item),
        placed(sorted, item, leq).len() == sorted.len() + 1,
    decreases sorted.len(),
{
    broadcast use vstd::seq_lib::group_to_multiset_ensures;

    if sorted.len() > 0 && !leq(sorted.last(), item) {
        lemma_placed_multiset(sorted.drop_last(), item, leq);
        assert(sorted.drop_last().push(sorted.last()) =~= sorted);
        assert(sorted.drop_last().to_multiset().insert(item).insert(sorted.last())
            =~= sorted.drop_last().to_multiset().insert(sorted.last()).insert(item));
    }
}

/// Sorted items are in order.
pub proof fn sorted_items_are_in_order<T>(items: Seq<T>, leq: spec_fn(T, T) -> bool)
    requires
        is_order(leq),
    ensures
        in_order(stable_sorted(items, leq), leq),
    decreases items.len(),
{
    if items.len() > 0 {
        sorted_items_are_in_order(items.drop_last(), leq);
        lemma_placed_in_order(stable_sorted(items.drop_last(), leq), items.last(), leq);
    }
}

/// Placing an item keeps sorted items in order.
pub proof fn lemma_placed_in_order<T>(sorted: Seq<T>, item: T, leq: spec_fn(T, T) -> bool)
    requires
        is_order(leq),
        in_order(sorted, leq),
    ensures
        in_order(placed(sorted, item, leq), leq),
        forall|i: int|
            0 <= i < placed(sorted, item, leq).len() ==> #[trigger] placed(sorted, item, leq)[i]
                == item || sorted.contains(placed(sorted, item, leq)[i]),
    decreases sorted.len(),
{
    let result = placed(sorted, item, leq);
    if sorted.len() == 0 || leq(sorted.last(), item) {
        assert forall|i: int| 0 <= i < result.len() implies #[trigger] result[i] == item
            || sorted.contains(result[i]) by {
            if i < sorted.len() {
                assert(result[i] == sorted[i]);
            }
        }
        assert forall|i: int, j: int| 0 <= i <= j < result.len() implies leq(
            #[trigger] result[i],
            #[trigger] result[j],
        ) by {
            if i < sorted.len() && j == sorted.len() {
                assert(leq(sorted[i], sorted[sorted.len() - 1]));
            } else if j < sorted.len() {
                assert(leq(sorted[i], sorted[j]));
            }
        }
    } else {
        let shorter = sorted.drop_last();
        assert forall|i: int, j: int| 0 <= i <= j < shorter.len() implies leq(
            #[trigger] shorter[i],
            #[trigger] shorter[j],
        ) by {
            assert(leq(sorted[i], sorted[j]));
        }
        lemma_placed_in_order(shorter, item, leq);
        let inner = placed(shorter, item, leq);
        assert(result == inner.push(sorted.last()));
        assert forall|i: int| 0 <= i < result.len() implies #[trigger] result[i] == item
            || sorted.contains(result[i]) by {
            if i < inner.len() {
                assert(result[i] == inner[i]);
                if inner[i] != item {
                    let k = choose|k: int| 0 <= k < shorter.len() && shorter[k] == inner[i];
                    assert(sorted[k] == inner[i]);
                }
            } else {
                assert(sorted[sorted.len() - 1] == sorted.last());
            }
        }
        assert forall|i: int, j: int| 0 <= i <= j < result.len() implies leq(
            #[trigger] result[i],
            #[trigger] result[j],
        ) by {
            if j == inner.len() && i < inner.len() {
                assert(leq(item, sorted.last()) || leq(sorted.last(), item));
                if inner[i] != item {
                    let k = choose|k: int| 0 <= k < shorter.len() && shorter[k] == inner[i];
                    assert(leq(sorted[k], sorted[sorted.len() - 1]));
                }
            } else if j < inner.len() {
                assert(leq(inner[i], inner[j]));
            }
        }
    }
}

/// Items that are in order are sorted already.
pub proof fn lemma_sorted_already<T>(items: Seq<T>, leq: spec_fn(T, T) -> bool)
    requires
        in_order(items, leq),
    ensures
        stable_sorted(items, leq) == items,
    decreases items.len(),
{
    if items.len() > 0 {
        let shorter = items.drop_last();
        assert forall|i: int, j: int| 0 <= i <= j < shorter.len() implies leq(
            #[trigger] shorter[i],
            #[trigger] shorter[j],
        ) by {
            assert(leq(items[i], items[j]));
        }
        lemma_sorted_already(shorter, leq);
        if shorter.len() > 0 {
            assert(leq(items[items.len() - 2], items[items.len() - 1]));
        }
        assert(shorter.push(items.last()) =~= items);
    }
}

/// Whether items are in order and no two of them tie.
pub open spec fn ascending<T>(items: Seq<T>, leq: spec_fn(T, T) -> bool) -> bool {
    forall|i: int, j: int|
        0 <= i < j < items.len() ==> !leq(#[trigger] items[j], #[trigger] items[i])
}

/// Adding an item that ties with none to ascending items and sorting keeps them ascending.
pub proof fn lemma_ascending_with<T>(items: Seq<T>, item: T, leq: spec_fn(T, T) -> bool)
    requires
        is_order(leq),
        ascending(items, leq),
        forall|k: int|
            0 <= k < items.len() ==> !(leq(#[trigger] items[k], item) && leq(item, items[k])),
    ensures
        ascending(stable_sorted(items.push(item), leq), leq),
        stable_sorted(items.push(item), leq) == placed(items, item, leq),
{
    assert forall|i: int, j: int| 0 <= i <= j < items.len() implies leq(
        #[trigger] items[i],
        #[trigger] items[j],
    ) by {
        if i < j {
            assert(leq(items[i], items[j]) || leq(items[j], items[i]));
        }
    }
    lemma_sorted_already(items, leq);
    assert(items.push(item).drop_last() =~= items);
    lemma_placed_ascending(items, item, leq);
}

proof fn lemma_placed_ascending<T>(items: Seq<T>, item: T, leq: spec_fn(T, T) -> bool)
    requires
        is_order(leq),
        ascending(items, leq),
        forall|k: int|
            0 <= k < items.len() ==> !(leq(#[trigger] items[k], item) && leq(item, items[k])),
    ensures
        ascending(placed(items, item, leq), leq),
        forall|i: int|
            0 <= i < placed(items, item, leq).len() ==> #[trigger] placed(items, item, leq)[i]
                == item || items.contains(placed(items, item, leq)[i]),
    decreases items.len(),
{
    let result = placed(items, item, leq);
    if items.len() == 0 || leq(items.last(), item) {
        assert forall|i: int| 0 <= i < result.len() implies #[trigger] result[i] == item
            || items.contains(result[i]) by {
            if i < items.len() {
                assert(result[i] == items[i]);
            }
        }
        assert forall|i: int, j: int| 0 <= i < j < result.len() implies !leq(
            #[trigger] result[j],
            #[trigger] result[i],
        ) by {
            if j == items.len() {
                let last = items[items.len() - 1];
                if leq(item, items[i]) {
                    assert(leq(last, item));
                    assert(leq(last, items[i]));
                    assert(i == items.len() - 1 || !leq(last, items[i]));
                }
            } else {
                assert(!leq(items[j], items[i]));
            }
        }
    } else {
        let shorter = items.drop_last();
        assert forall|i: int, j: int| 0 <= i < j < shorter.len() implies !leq(
            #[trigger] shorter[j],
            #[trigger] shorter[i],
        ) by {
            assert(!leq(items[j], items[i]));
        }
        assert forall|k: int| 0 <= k < shorter.len() implies !(leq(#[trigger] shorter[k], item)
            && leq(item, shorter[k])) by {
            assert(shorter[k] == items[k]);
        }
        lemma_placed_ascending(shorter, item, leq);
        let inner = placed(shorter, item, leq);
        assert(result == inner.push(items.last()));
        assert forall|i: int| 0 <= i < result.len() implies #[trigger] result[i] == item
            || items.contains(result[i]) by {
            if i < inner.len() {
                assert(result[i] == inner[i]);
                if inner[i] != item {
                    let k = choose|k: int| 0 <= k < shorter.len() && shorter[k] == inner[i];
                    assert(items[k] == inner[i]);
                }
            } else {
                assert(items[items.len() - 1] == items.last());
            }
        }
        assert forall|i: int, j: int| 0 <= i < j < result.len() implies !leq(
            #[trigger] result[j],
            #[trigger] result[i],
        ) by {
            if j == inner.len() {
                if inner[i] != item {
                    let k = choose|k: int| 0 <= k < shorter.len() && shorter[k] == inner[i];
                    assert(!leq(items[items.len() - 1], items[k]));
                }
            } else {
                assert(!leq(inner[j], inner[i]));
            }
        }
    }
}

/// Removing an item keeps the rest ascending.
pub proof fn lemma_ascending_without<T>(items: Seq<T>, at: int, leq: spec_fn(T, T) -> bool)
    requires
        ascending(items, leq),
        0 <= at < items.len(),
    ensures
        ascending(items.remove(at), leq),
{
    let rest = items.remove(at);
    assert forall|i: int, j: int| 0 <= i < j < rest.len() implies !leq(
        #[trigger] rest[j],
        #[trigger] rest[i],
    ) by {
        let a = if i < at { i } else { i + 1 };
        let b = if j < at { j } else { j + 1 };
        assert(rest[i] == items[a] && rest[j] == items[b]);
    }
}

/// The first position of a wanted item, or the length where there is none.
pub open spec fn first_where<T>(items: Seq<T>, wanted: spec_fn(T) -> bool) -> int
    decreases items.len(),
{
    if items.len() == 0 || wanted(items.first()) {
        0
    } else {
        1 + first_where(items.drop_first(), wanted)
    }
}

/// How a search finds the first wanted item.
pub proof fn lemma_first_where<T>(items: Seq<T>, wanted: spec_fn(T) -> bool, at: int)
    requires
        0 <= at <= items.len(),
        forall|k: int| 0 <= k < at ==> !wanted(#[trigger] items[k]),
        at < items.len() ==> wanted(items[at]),
    ensures
        first_where(items, wanted) == at,
    decreases items.len(),
{
    if items.len() > 0 && at > 0 {
        assert(items[0] == items.first());
        assert forall|k: int| 0 <= k < at - 1 implies !wanted(
            #[trigger] items.drop_first()[k],
        ) by {
            assert(items.drop_first()[k] == items[k + 1]);
        }
        lemma_first_where(items.drop_first(), wanted, at - 1);
    }
}

/// What the first position means.
pub proof fn lemma_first_where_means<T>(items: Seq<T>, wanted: spec_fn(T) -> bool)
    ensures
        0 <= first_where(items, wanted) <= items.len(),
        first_where(items, wanted) < items.len() ==> wanted(items[first_where(items, wanted)]),
        forall|k: int| 0 <= k < first_where(items, wanted) ==> !wanted(#[trigger] items[k]),
    decreases items.len(),
{
    if items.len() > 0 && !wanted(items.first()) {
        lemma_first_where_means(items.drop_first(), wanted);
        assert forall|k: int| 0 <= k < first_where(items, wanted) implies !wanted(
            #[trigger] items[k],
        ) by {
            if k > 0 {
                assert(items.drop_first()[k - 1] == items[k]);
            } else {
                assert(items[0] == items.first());
            }
        }
    }
}

/// The wanted items, in their order.
pub open spec fn kept_where<T>(items: Seq<T>, wanted: spec_fn(T) -> bool) -> Seq<T>
    decreases items.len(),
{
    if items.len() == 0 {
        Seq::empty()
    } else if wanted(items.last()) {
        kept_where(items.drop_last(), wanted).push(items.last())
    } else {
        kept_where(items.drop_last(), wanted)
    }
}

/// What is kept is exactly what is wanted.
pub proof fn lemma_kept_where<T>(items: Seq<T>, wanted: spec_fn(T) -> bool)
    ensures
        forall|item: T| #[trigger]
            kept_where(items, wanted).contains(item) == (items.contains(item) && wanted(item)),
        kept_where(items, wanted).len() <= items.len(),
    decreases items.len(),
{
    if items.len() > 0 {
        let before = items.drop_last();
        lemma_kept_where(before, wanted);
        let kept = kept_where(items, wanted);
        let inner = kept_where(before, wanted);
        assert forall|item: T| #[trigger] kept.contains(item) == (items.contains(item) && wanted(
            item,
        )) by {
            if kept.contains(item) {
                let i = choose|i: int| 0 <= i < kept.len() && kept[i] == item;
                if i < inner.len() {
                    assert(inner[i] == item);
                    assert(inner.contains(item));
                    let k = choose|k: int| 0 <= k < before.len() && before[k] == item;
                    assert(items[k] == item);
                } else {
                    assert(items[items.len() - 1] == item);
                }
            }
            if items.contains(item) && wanted(item) {
                let k = choose|k: int| 0 <= k < items.len() && items[k] == item;
                if k < before.len() {
                    assert(before[k] == item);
                    assert(inner.contains(item));
                    let i = choose|i: int| 0 <= i < inner.len() && inner[i] == item;
                    assert(kept[i] == item);
                } else {
                    assert(kept[kept.len() - 1] == item);
                }
            }
        }
    }
}

/// What is kept of ascending items is ascending.
pub proof fn lemma_kept_ascending<T>(
    items: Seq<T>,
    wanted: spec_fn(T) -> bool,
    leq: spec_fn(T, T) -> bool,
)
    requires
        ascending(items, leq),
    ensures
        ascending(kept_where(items, wanted), leq),
    decreases items.len(),
{
    if items.len() > 0 {
        let before = items.drop_last();
        assert forall|i: int, j: int| 0 <= i < j < before.len() implies !leq(
            #[trigger] before[j],
            #[trigger] before[i],
        ) by {
            assert(!leq(items[j], items[i]));
        }
        lemma_kept_ascending(before, wanted, leq);
        lemma_kept_where(before, wanted);
        let inner = kept_where(before, wanted);
        let kept = kept_where(items, wanted);
        assert forall|i: int, j: int| 0 <= i < j < kept.len() implies !leq(
            #[trigger] kept[j],
            #[trigger] kept[i],
        ) by {
            assert(inner.contains(inner[i]));
            let k = choose|k: int| 0 <= k < before.len() && before[k] == inner[i];
            assert(!leq(items[items.len() - 1], items[k]));
            if j < inner.len() {
                assert(!leq(inner[j], inner[i]));
            }
        }
    }
}

/// Sorting goes by what items stand for.
pub proof fn lemma_sorted_images<T, U>(
    items: Seq<T>,
    image: spec_fn(T) -> U,
    leq: spec_fn(T, T) -> bool,
    image_leq: spec_fn(U, U) -> bool,
)
    requires
        forall|a: T, b: T| #[trigger] leq(a, b) == image_leq(image(a), image(b)),
    ensures
        stable_sorted(items.map_values(image), image_leq) == stable_sorted(items, leq).map_values(
            image,
        ),
    decreases items.len(),
{
    let images = items.map_values(image);
    if items.len() > 0 {
        lemma_sorted_images(items.drop_last(), image, leq, image_leq);
        assert(images.drop_last() =~= items.drop_last().map_values(image));
        lemma_placed_images(
            stable_sorted(items.drop_last(), leq),
            items.last(),
            image,
            leq,
            image_leq,
        );
    }
    assert(stable_sorted(images, image_leq) =~= stable_sorted(items, leq).map_values(image));
}

proof fn lemma_placed_images<T, U>(
    sorted: Seq<T>,
    item: T,
    image: spec_fn(T) -> U,
    leq: spec_fn(T, T) -> bool,
    image_leq: spec_fn(U, U) -> bool,
)
    requires
        forall|a: T, b: T| #[trigger] leq(a, b) == image_leq(image(a), image(b)),
    ensures
        placed(sorted.map_values(image), image(item), image_leq) == placed(
            sorted,
            item,
            leq,
        ).map_values(image),
    decreases sorted.len(),
{
    let images = sorted.map_values(image);
    if sorted.len() > 0 {
        assert(leq(sorted.last(), item) == image_leq(image(sorted.last()), image(item)));
        assert(images.last() == image(sorted.last()));
    }
    if sorted.len() == 0 || leq(sorted.last(), item) {
        assert(images.push(image(item)) =~= sorted.push(item).map_values(image));
    } else {
        lemma_placed_images(sorted.drop_last(), item, image, leq, image_leq);
        assert(images.drop_last() =~= sorted.drop_last().map_values(image));
        assert(placed(sorted.drop_last(), item, leq).push(sorted.last()).map_values(image)
            =~= placed(sorted.drop_last(), item, leq).map_values(image).push(image(sorted.last())));
    }
}

/// Sorts by an order relation that `leq` computes.
pub(crate) fn stable_sort<T, F: Fn(&T, &T) -> bool>(
    items: Vec<T>,
    leq: F,
    Ghost(order): Ghost<spec_fn(T, T) -> bool>,
) -> (sorted: Vec<T>)
    requires
        forall|a: &T, b: &T| leq.requires((a, b)),
        forall|a: &T, b: &T, result: bool|
            leq.ensures((a, b), result) ==> result == order(*a, *b),
    ensures
        sorted@ == stable_sorted(items@, order),
{
    let ghost all = items@;
    let count: usize = items.len();
    let mut rest = items;
    let mut reversed: Vec<T> = Vec::new();
    while rest.len() > 0
        invariant
            count == all.len(),
            rest@.len() + reversed@.len() == count,
            rest@ == all.take(rest@.len() as int),
            forall|k: int| 0 <= k < reversed@.len() ==> #[trigger] reversed@[k] == all[count - 1 - k],
        decreases rest@.len(),
    {
        let item = rest.pop();
        match item {
            Some(item) => reversed.push(item),
            None => {},
        }
    }
    let mut sorted: Vec<T> = Vec::new();
    while reversed.len() > 0
        invariant
            count == all.len(),
            reversed@.len() <= count,
            forall|a: &T, b: &T| leq.requires((a, b)),
            forall|a: &T, b: &T, result: bool|
                leq.ensures((a, b), result) ==> result == order(*a, *b),
            forall|k: int| 0 <= k < reversed@.len() ==> #[trigger] reversed@[k] == all[count - 1 - k],
            sorted@ == stable_sorted(all.take(count - reversed@.len()), order),
        decreases reversed@.len(),
    {
        let ghost done = count - reversed@.len();
        let next = reversed.pop();
        match next {
            Some(item) => {
                assert(item == all[done]);
                assert(all.take(done + 1).drop_last() =~= all.take(done));
                let mut at: usize = sorted.len();
                let mut found = false;
                while at > 0 && !found
                    invariant
                        at <= sorted@.len(),
                        forall|a: &T, b: &T| leq.requires((a, b)),
                        forall|a: &T, b: &T, result: bool|
                            leq.ensures((a, b), result) ==> result == order(*a, *b),
                        found ==> at > 0 && order(sorted@[at - 1], item),
                        forall|k: int|
                            at <= k < sorted@.len() ==> !order(#[trigger] sorted@[k], item),
                    decreases at + (if found { 0int } else { 1int }),
                {
                    if leq(&sorted[at - 1], &item) {
                        found = true;
                    } else {
                        at -= 1;
                    }
                }
                proof {
                    lemma_placed_at(sorted@, item, order, at as int);
                }
                sorted.insert(at, item);
            },
            None => {},
        }
    }
    assert(all.take(count as int) =~= all);
    sorted
}

} // verus!
