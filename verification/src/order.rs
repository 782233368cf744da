//! The order in which records are listed.

use vstd::prelude::*;

use crate::model;
use crate::model::Record;
use crate::text;

verus! {

/// One text comes before another, or is the same: at the first character in
/// which they differ, the one with the lower code point; a text comes before
/// its continuations.
pub open spec fn text_leq(a: Seq<char>, b: Seq<char>) -> bool
    decreases a.len(),
{
    if a.len() == 0 {
        true
    } else if b.len() == 0 {
        false
    } else if a[0] != b[0] {
        a[0] < b[0]
    } else {
        text_leq(a.drop_first(), b.drop_first())
    }
}

/// One key comes before another, or is the same: at the first column in which
/// they differ, by the order of texts. With `descending`, the first column counts
/// in the opposite direction.
pub open spec fn key_leq(a: Seq<Seq<char>>, b: Seq<Seq<char>>, descending: bool) -> bool
    decreases a.len(),
{
    if a.len() == 0 {
        true
    } else if b.len() == 0 {
        false
    } else if a[0] != b[0] {
        if descending {
            text_leq(b[0], a[0])
        } else {
            text_leq(a[0], b[0])
        }
    } else {
        key_leq(a.drop_first(), b.drop_first(), false)
    }
}

/// Every number below `count`, each once.
pub open spec fn is_permutation(order: Seq<int>, count: nat) -> bool {
    &&& order.len() == count
    &&& order.no_duplicates()
    &&& forall|k: int| 0 <= k < count ==> 0 <= #[trigger] order[k] < count
    &&& forall|i: int| 0 <= i < count ==> #[trigger] order.contains(i)
}

/// The items of a sequence in the given order.
pub open spec fn picked<R>(source: Seq<R>, order: Seq<int>) -> Seq<R> {
    order.map_values(|i: int| source[i])
}

/// Each key comes before those that follow it, or is the same.
pub open spec fn is_sorted(keys: Seq<Seq<Seq<char>>>, descending: bool) -> bool {
    forall|i: int, j: int| 0 <= i < j < keys.len() ==> key_leq(keys[i], keys[j], descending)
}

/// `result` holds the items of `source`, each once, in the order of their keys.
pub open spec fn ordered<R>(
    result: Seq<R>,
    source: Seq<R>,
    keys: Seq<Seq<Seq<char>>>,
    descending: bool,
) -> bool {
    exists|order: Seq<int>| #[trigger]
        is_permutation(order, source.len()) && result == picked(source, order) && is_sorted(
            picked(keys, order),
            descending,
        )
}

/// The views of a key.
pub open spec fn key_view(key: Vec<String>) -> Seq<Seq<char>> {
    text::texts(key@)
}

/// The views of a list of keys.
pub open spec fn key_views(keys: Seq<Vec<String>>) -> Seq<Seq<Seq<char>>> {
    keys.map_values(|key: Vec<String>| key_view(key))
}

/// Of two texts, one comes before the other, and both only if they are the same.
pub proof fn text_leq_total(a: Seq<char>, b: Seq<char>)
    ensures
        text_leq(a, b) || text_leq(b, a),
        text_leq(a, b) && text_leq(b, a) ==> a == b,
    decreases a.len(),
{
    if a.len() > 0 && b.len() > 0 && a[0] == b[0] {
        text_leq_total(a.drop_first(), b.drop_first());
        if text_leq(a, b) && text_leq(b, a) {
            assert(a =~= seq![a[0]] + a.drop_first());
            assert(b =~= seq![b[0]] + b.drop_first());
        }
    } else if a.len() == 0 && b.len() == 0 {
        assert(a =~= b);
    }
}

/// What comes before an earlier text comes before a later one.
pub proof fn text_leq_transitive(a: Seq<char>, b: Seq<char>, c: Seq<char>)
    requires
        text_leq(a, b),
        text_leq(b, c),
    ensures
        text_leq(a, c),
    decreases a.len(),
{
    if a.len() > 0 && a[0] == b[0] && b[0] == c[0] {
        text_leq_transitive(a.drop_first(), b.drop_first(), c.drop_first());
    }
}

/// Of two keys, one comes before the other, and both only if they are the same.
pub proof fn key_leq_total(a: Seq<Seq<char>>, b: Seq<Seq<char>>, descending: bool)
    ensures
        key_leq(a, b, descending) || key_leq(b, a, descending),
        key_leq(a, b, descending) && key_leq(b, a, descending) ==> a == b,
    decreases a.len(),
{
    if a.len() > 0 && b.len() > 0 {
        if a[0] == b[0] {
            key_leq_total(a.drop_first(), b.drop_first(), false);
            if key_leq(a, b, descending) && key_leq(b, a, descending) {
                assert(a =~= seq![a[0]] + a.drop_first());
                assert(b =~= seq![b[0]] + b.drop_first());
            }
        } else {
            text_leq_total(a[0], b[0]);
        }
    } else if a.len() == 0 && b.len() == 0 {
        assert(a =~= b);
    }
}

/// What comes before an earlier key comes before a later one.
pub proof fn key_leq_transitive(
    a: Seq<Seq<char>>,
    b: Seq<Seq<char>>,
    c: Seq<Seq<char>>,
    descending: bool,
)
    requires
        key_leq(a, b, descending),
        key_leq(b, c, descending),
    ensures
        key_leq(a, c, descending),
    decreases a.len(),
{
    if a.len() > 0 {
        text_leq_total(a[0], b[0]);
        text_leq_total(b[0], c[0]);
        text_leq_total(a[0], c[0]);
        if a[0] == b[0] && b[0] == c[0] {
            key_leq_transitive(a.drop_first(), b.drop_first(), c.drop_first(), false);
        } else if a[0] != b[0] && b[0] != c[0] {
            if descending {
                text_leq_transitive(c[0], b[0], a[0]);
            } else {
                text_leq_transitive(a[0], b[0], c[0]);
            }
        }
    }
}

/// Whether one text comes before another, or is the same.
pub fn text_precedes(a: &str, b: &str) -> (answer: bool)
    ensures
        answer == text_leq(a@, b@),
{
    let x = text::chars_of(a);
    let y = text::chars_of(b);
    let mut i: usize = 0;
    assert(a@.skip(0) =~= a@);
    assert(b@.skip(0) =~= b@);
    while i < x.len()
        invariant
            x@ == a@,
            y@ == b@,
            i <= x@.len(),
            i <= y@.len(),
            text_leq(a@.skip(i as int), b@.skip(i as int)) == text_leq(a@, b@),
        decreases x@.len() - i,
    {
        if i == y.len() {
            return false;
        }
        if x[i] != y[i] {
            return x[i] < y[i];
        }
        assert(a@.skip(i as int).drop_first() =~= a@.skip(i + 1));
        assert(b@.skip(i as int).drop_first() =~= b@.skip(i + 1));
        i = i + 1;
    }
    true
}

/// Whether one key comes before another, or is the same.
pub fn key_precedes(a: &Vec<String>, b: &Vec<String>, descending: bool) -> (answer: bool)
    ensures
        answer == key_leq(key_view(*a), key_view(*b), descending),
{
    let mut i: usize = 0;
    let ghost x = key_view(*a);
    let ghost y = key_view(*b);
    assert(x.skip(0) =~= x);
    assert(y.skip(0) =~= y);
    while i < a.len()
        invariant
            x == key_view(*a),
            y == key_view(*b),
            i <= a@.len(),
            i <= b@.len(),
            key_leq(x.skip(i as int), y.skip(i as int), descending && i == 0) == key_leq(
                x,
                y,
                descending,
            ),
        decreases a@.len() - i,
    {
        if i == b.len() {
            return false;
        }
        assert(x.skip(i as int)[0] == a@[i as int]@);
        assert(y.skip(i as int)[0] == b@[i as int]@);
        if !text::same(a[i].as_str(), b[i].as_str()) {
            return if descending && i == 0 {
                text_precedes(b[i].as_str(), a[i].as_str())
            } else {
                text_precedes(a[i].as_str(), b[i].as_str())
            };
        }
        assert(x.skip(i as int).drop_first() =~= x.skip(i + 1));
        assert(y.skip(i as int).drop_first() =~= y.skip(i + 1));
        i = i + 1;
    }
    true
}

/// The numbers of an order.
pub open spec fn numbers(order: Seq<usize>) -> Seq<int> {
    order.map_values(|i: usize| i as int)
}

/// The order in which keys follow one another.
pub fn order_of(keys: &Vec<Vec<String>>, descending: bool) -> (order: Vec<usize>)
    ensures
        is_permutation(numbers(order@), keys@.len()),
        is_sorted(picked(key_views(keys@), numbers(order@)), descending),
{
    let mut order: Vec<usize> = Vec::new();
    let ghost all = key_views(keys@);
    for i in 0..keys.len()
        invariant
            all == key_views(keys@),
            is_permutation(numbers(order@), i as nat),
            is_sorted(picked(all, numbers(order@)), descending),
    {
        let mut at: usize = 0;
        assert forall|k: int| 0 <= k < order@.len() implies (#[trigger] order@[k]) < i by {
            assert(numbers(order@)[k] < i);
        }
        while at < order.len() && key_precedes(&keys[order[at]], &keys[i], descending)
            invariant
                i < keys@.len(),
                all == key_views(keys@),
                at <= order@.len(),
                is_permutation(numbers(order@), i as nat),
                is_sorted(picked(all, numbers(order@)), descending),
                forall|k: int|
                    0 <= k < order@.len() ==> (#[trigger] order@[k]) < i,
                forall|k: int|
                    0 <= k < at ==> key_leq(
                        all[#[trigger] order@[k] as int],
                        all[i as int],
                        descending,
                    ),
            decreases order@.len() - at,
        {
            at = at + 1;
        }
        let ghost before = order@;
        let ghost was = numbers(before);
        proof {
            assert forall|k: int| at <= k < before.len() implies key_leq(
                all[i as int],
                all[#[trigger] before[k] as int],
                descending,
            ) by {
                key_leq_total(all[before[at as int] as int], all[i as int], descending);
                if k > at {
                    let sorted = picked(all, was);
                    assert(key_leq(sorted[at as int], sorted[k], descending));
                    assert(sorted[at as int] == all[before[at as int] as int]);
                    assert(sorted[k] == all[before[k] as int]);
                    key_leq_transitive(
                        all[i as int],
                        all[before[at as int] as int],
                        all[before[k] as int],
                        descending,
                    );
                }
            }
        }
        order.insert(at, i);
        proof {
            let now = numbers(order@);
            assert(now =~= was.insert(at as int, i as int));
            assert forall|n: int| 0 <= n < i + 1 implies #[trigger] now.contains(n) by {
                if n == i {
                    assert(now[at as int] == n);
                } else {
                    assert(was.contains(n));
                    let k = choose|k: int| 0 <= k < was.len() && was[k] == n;
                    if k < at {
                        assert(now[k] == n);
                    } else {
                        assert(now[k + 1] == n);
                    }
                }
            }
            assert(now.no_duplicates()) by {
                assert forall|a: int, b: int| 0 <= a < b < now.len() implies now[a] != now[b] by {
                    if a < at && b < at {
                        assert(was[a] != was[b]);
                    } else if a < at && b > at {
                        assert(was[a] != was[b - 1]);
                    } else if a > at {
                        assert(was[a - 1] != was[b - 1]);
                    } else if a == at {
                        assert(was[b - 1] < i);
                    } else {
                        assert(was[a] < i);
                    }
                }
            }
            assert forall|k: int| 0 <= k < i + 1 implies 0 <= #[trigger] now[k] < i + 1 by {
                if k < at {
                    assert(was[k] < i);
                } else if k > at {
                    assert(was[k - 1] < i);
                }
            }
            let sorted = picked(all, was);
            let result = picked(all, now);
            assert forall|a: int, b: int| 0 <= a < b < result.len() implies key_leq(
                result[a],
                result[b],
                descending,
            ) by {
                if a < at && b < at {
                    assert(key_leq(sorted[a], sorted[b], descending));
                } else if a < at && b > at {
                    assert(key_leq(sorted[a], sorted[b - 1], descending));
                } else if a > at {
                    assert(key_leq(sorted[a - 1], sorted[b - 1], descending));
                } else if a == at {
                    assert(result[b] == all[before[b - 1] as int]);
                } else {
                    assert(result[a] == all[before[a] as int]);
                }
            }
        }
    }
    order
}

/// The records of a list in the order of their keys.
pub fn arranged<T: Record>(
    source: &Vec<T>,
    keys: &Vec<Vec<String>>,
    descending: bool,
) -> (result: Vec<T>)
    requires
        keys@.len() == source@.len(),
    ensures
        ordered(model::rows(result@), model::rows(source@), key_views(keys@), descending),
{
    let order = order_of(keys, descending);
    let mut result: Vec<T> = Vec::new();
    for k in 0..order.len()
        invariant
            is_permutation(numbers(order@), source@.len()),
            result@.len() == k,
            forall|j: int|
                0 <= j < k ==> (#[trigger] result@[j])@ == source@[order@[j] as int]@,
    {
        assert(numbers(order@)[k as int] == order@[k as int]);
        result.push(source[order[k]].duplicate());
    }
    proof {
        let numbers = numbers(order@);
        assert forall|j: int| 0 <= j < order@.len() implies 0 <= #[trigger] order@[j]
            < source@.len() by {
            assert(numbers[j] == order@[j]);
        }
        assert(model::rows(result@) =~= picked(model::rows(source@), numbers));
        assert(is_permutation(numbers, model::rows(source@).len()));
    }
    result
}

/// A listing holds what its source holds.
pub proof fn ordered_holds_same<R>(
    result: Seq<R>,
    source: Seq<R>,
    keys: Seq<Seq<Seq<char>>>,
    descending: bool,
)
    requires
        ordered(result, source, keys, descending),
    ensures
        result.len() == source.len(),
        forall|item: R| #[trigger] result.contains(item) <==> source.contains(item),
{
    let order = choose|order: Seq<int>| #[trigger]
        is_permutation(order, source.len()) && result == picked(source, order) && is_sorted(
            picked(keys, order),
            descending,
        );
    assert forall|item: R| #[trigger] result.contains(item) <==> source.contains(item) by {
        if result.contains(item) {
            let k = choose|k: int| 0 <= k < result.len() && result[k] == item;
            assert(source[order[k]] == item);
        }
        if source.contains(item) {
            let i = choose|i: int| 0 <= i < source.len() && source[i] == item;
            assert(order.contains(i));
            let k = choose|k: int| 0 <= k < order.len() && order[k] == i;
            assert(result[k] == item);
        }
    }
}

/// A listing by keys that all differ is determined: there is no second way to
/// put the same records in order.
pub proof fn listing_is_unique<R>(
    first: Seq<R>,
    second: Seq<R>,
    source: Seq<R>,
    keys: Seq<Seq<Seq<char>>>,
    descending: bool,
)
    requires
        keys.len() == source.len(),
        keys.no_duplicates(),
        ordered(first, source, keys, descending),
        ordered(second, source, keys, descending),
    ensures
        first == second,
{
    let a = choose|order: Seq<int>| #[trigger]
        is_permutation(order, source.len()) && first == picked(source, order) && is_sorted(
            picked(keys, order),
            descending,
        );
    let b = choose|order: Seq<int>| #[trigger]
        is_permutation(order, source.len()) && second == picked(source, order) && is_sorted(
            picked(keys, order),
            descending,
        );
    assert forall|k: int| 0 <= k < a.len() implies a[k] == b[k] by {
        orders_agree(a, b, keys, descending, k);
    }
    assert(a =~= b);
}

proof fn orders_agree(
    a: Seq<int>,
    b: Seq<int>,
    keys: Seq<Seq<Seq<char>>>,
    descending: bool,
    k: int,
)
    requires
        is_permutation(a, keys.len()),
        is_permutation(b, keys.len()),
        is_sorted(picked(keys, a), descending),
        is_sorted(picked(keys, b), descending),
        keys.no_duplicates(),
        0 <= k < keys.len(),
    ensures
        a[k] == b[k],
    decreases k,
{
    assert forall|j: int| 0 <= j < k implies a[j] == b[j] by {
        orders_agree(a, b, keys, descending, j);
    }
    assert(b.contains(a[k]));
    assert(a.contains(b[k]));
    let m = choose|m: int| 0 <= m < b.len() && b[m] == a[k];
    let n = choose|n: int| 0 <= n < a.len() && a[n] == b[k];
    if m < k {
        assert(a[m] == a[k]);
    }
    if n < k {
        assert(b[n] == b[k]);
    }
    if m != k {
        let x = picked(keys, a);
        let y = picked(keys, b);
        if n == k {
        } else {
            assert(key_leq(x[k], x[n], descending));
            assert(key_leq(y[k], y[m], descending));
            key_leq_total(keys[a[k]], keys[b[k]], descending);
        }
    }
}

} // verus!
