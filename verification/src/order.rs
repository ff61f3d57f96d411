//! Ordering texts by their characters, and sorting by such an order.
use crate::text::characters;
use crate::text::texts;
use vstd::prelude::*;

verus! {

/// Whether `left` comes before `right`: at the first difference its character
/// is the smaller one, or it is a proper prefix.
pub open spec fn comes_before(left: Seq<char>, right: Seq<char>) -> bool
    decreases left.len(),
{
    if right.len() == 0 {
        false
    } else if left.len() == 0 {
        true
    } else if left[0] != right[0] {
        (left[0] as u32) < (right[0] as u32)
    } else {
        comes_before(left.skip(1), right.skip(1))
    }
}

/// No text comes before itself.
pub proof fn lemma_not_before_itself(text: Seq<char>)
    ensures
        !comes_before(text, text),
    decreases text.len(),
{
    if text.len() > 0 {
        lemma_not_before_itself(text.skip(1));
    }
}

/// Of two different texts exactly one comes before the other.
pub proof fn lemma_one_comes_before(left: Seq<char>, right: Seq<char>)
    requires
        left != right,
    ensures
        comes_before(left, right) != comes_before(right, left),
    decreases left.len(),
{
    if left.len() > 0 && right.len() > 0 && left[0] == right[0] {
        if left.skip(1) == right.skip(1) {
            assert(left =~= seq![left[0]] + left.skip(1));
            assert(right =~= seq![right[0]] + right.skip(1));
        }
        lemma_one_comes_before(left.skip(1), right.skip(1));
    } else if left.len() == 0 && right.len() == 0 {
        assert(left =~= right);
    } else if left.len() > 0 && right.len() > 0 {
        vstd::utf8::char_u32_cast(left[0], left[0] as u32);
        vstd::utf8::char_u32_cast(right[0], right[0] as u32);
    }
}

/// The order is transitive.
pub proof fn lemma_before_is_transitive(left: Seq<char>, middle: Seq<char>, right: Seq<char>)
    requires
        comes_before(left, middle),
        comes_before(middle, right),
    ensures
        comes_before(left, right),
    decreases left.len(),
{
    if left.len() > 0 && left[0] == middle[0] && middle[0] == right[0] {
        lemma_before_is_transitive(left.skip(1), middle.skip(1), right.skip(1));
    }
}

/// Whether the key at `left` sorts ahead of the key at `right`: it comes
/// before it, or the keys are equal and it stands first.
pub open spec fn sorts_ahead(keys: Seq<Seq<char>>, left: int, right: int) -> bool {
    comes_before(keys[left], keys[right]) || (keys[left] == keys[right] && left < right)
}

proof fn lemma_sorts_ahead_is_transitive(keys: Seq<Seq<char>>, left: int, middle: int, right: int)
    requires
        sorts_ahead(keys, left, middle),
        sorts_ahead(keys, middle, right),
    ensures
        sorts_ahead(keys, left, right),
{
    if comes_before(keys[left], keys[middle]) && comes_before(keys[middle], keys[right]) {
        lemma_before_is_transitive(keys[left], keys[middle], keys[right]);
    }
}

/// Whether `order` lists the positions of `keys` in sorted order, each one
/// once, with equal keys in the order in which they stand.
pub open spec fn is_sorted_order(keys: Seq<Seq<char>>, order: Seq<usize>) -> bool {
    &&& order.len() == keys.len()
    &&& forall|i: int| 0 <= i < order.len() ==> (#[trigger] order[i]) < keys.len()
    &&& forall|k: int| 0 <= k < keys.len() ==> #[trigger] listed(order, k)
    &&& forall|i: int, j: int|
        0 <= i < j < order.len() ==> sorts_ahead(
            keys,
            (#[trigger] order[i]) as int,
            (#[trigger] order[j]) as int,
        )
}

/// Whether `order` holds the position `k`.
pub open spec fn listed(order: Seq<usize>, k: int) -> bool {
    exists|i: int| 0 <= i < order.len() && order[i] == k
}

/// The sorted order of `keys`.
pub open spec fn sorted_order(keys: Seq<Seq<char>>) -> Seq<usize> {
    choose|order: Seq<usize>| is_sorted_order(keys, order)
}

/// There is only one sorted order.
pub proof fn sorted_order_is_unique(keys: Seq<Seq<char>>, first: Seq<usize>, second: Seq<usize>)
    requires
        is_sorted_order(keys, first),
        is_sorted_order(keys, second),
    ensures
        first == second,
{
    lemma_orders_agree(keys, first, second, first.len() as int);
    assert(first =~= second);
}

proof fn lemma_orders_agree(
    keys: Seq<Seq<char>>,
    first: Seq<usize>,
    second: Seq<usize>,
    length: int,
)
    requires
        is_sorted_order(keys, first),
        is_sorted_order(keys, second),
        0 <= length <= first.len(),
    ensures
        forall|i: int| 0 <= i < length ==> first[i] == second[i],
    decreases length,
{
    if length > 0 {
        let last = length - 1;
        lemma_orders_agree(keys, first, second, last);
        let a = first[last] as int;
        let b = second[last] as int;
        if a != b {
            assert(listed(second, a));
            assert(listed(first, b));
            let at_second = choose|i: int| 0 <= i < second.len() && second[i] == a;
            let at_first = choose|i: int| 0 <= i < first.len() && first[i] == b;
            lemma_not_before_itself(keys[a]);
            lemma_not_before_itself(keys[b]);
            if keys[a] != keys[b] {
                lemma_one_comes_before(keys[a], keys[b]);
            }
            if at_second < last {
                assert(first[at_second] == a);
                assert(sorts_ahead(keys, first[at_second] as int, first[last] as int));
            } else if at_first < last {
                assert(second[at_first] == b);
                assert(sorts_ahead(keys, second[at_first] as int, second[last] as int));
            } else {
                assert(sorts_ahead(keys, second[last] as int, second[at_second] as int));
                assert(sorts_ahead(keys, first[last] as int, first[at_first] as int));
            }
        }
    }
}

/// Whether `left` comes before `right`.
fn is_before(left: &str, right: &str) -> (before: bool)
    ensures
        before == comes_before(left@, right@),
{
    let left_chars: Vec<char> = characters(left);
    let right_chars: Vec<char> = characters(right);
    let mut i: usize = 0;
    assert(left@.skip(0) == left@);
    assert(right@.skip(0) == right@);
    while i < left_chars.len() && i < right_chars.len()
        invariant
            left_chars@ == left@,
            right_chars@ == right@,
            i <= left@.len(),
            i <= right@.len(),
            comes_before(left@, right@) == comes_before(
                left@.skip(i as int),
                right@.skip(i as int),
            ),
        decreases left@.len() - i,
    {
        let l: u32 = left_chars[i] as u32;
        let r: u32 = right_chars[i] as u32;
        if l != r {
            return l < r;
        }
        proof {
            vstd::utf8::char_u32_cast(left@[i as int], l);
            vstd::utf8::char_u32_cast(right@[i as int], r);
        }
        assert(left@.skip(i as int).skip(1) == left@.skip(i + 1));
        assert(right@.skip(i as int).skip(1) == right@.skip(i + 1));
        i = i + 1;
    }
    i < right_chars.len()
}

proof fn lemma_insertion(keys: Seq<Seq<char>>, order: Seq<usize>, at: int, k: usize)
    requires
        order.len() == k < keys.len(),
        0 <= at <= order.len(),
        is_sorted_order(keys.take(k as int), order),
        forall|i: int|
            0 <= i < at ==> sorts_ahead(keys, (#[trigger] order[i]) as int, k as int),
        forall|i: int|
            at <= i < order.len() ==> sorts_ahead(keys, k as int, (#[trigger] order[i]) as int),
    ensures
        is_sorted_order(keys.take(k + 1), order.insert(at, k)),
{
    let longer = order.insert(at, k);
    let known = keys.take(k + 1);
    assert forall|i: int| 0 <= i < longer.len() implies (#[trigger] longer[i]) < known.len() by {
        if i < at {
            assert(longer[i] == order[i]);
        } else if i > at {
            assert(longer[i] == order[i - 1]);
        }
    }
    assert forall|p: int| 0 <= p < known.len() implies #[trigger] listed(longer, p) by {
        if p == k {
            assert(longer[at] == p);
        } else {
            assert(listed(order, p));
            let i = choose|i: int| 0 <= i < order.len() && order[i] == p;
            if i < at {
                assert(longer[i] == p);
            } else {
                assert(longer[i + 1] == p);
            }
        }
    }
    assert forall|i: int, j: int| 0 <= i < j < longer.len() implies sorts_ahead(
        known,
        (#[trigger] longer[i]) as int,
        (#[trigger] longer[j]) as int,
    ) by {
        let a = if i < at { i } else { i - 1 };
        let b = if j < at { j } else { j - 1 };
        if i != at && j != at {
            assert(longer[i] == order[a] && longer[j] == order[b]);
            assert(sorts_ahead(keys.take(k as int), order[a] as int, order[b] as int));
        } else if i == at {
            assert(longer[j] == order[b]);
        } else {
            assert(longer[i] == order[a]);
        }
    }
}

proof fn lemma_all_ahead(keys: Seq<Seq<char>>, order: Seq<usize>, at: int, k: usize)
    requires
        order.len() == k < keys.len(),
        0 <= at <= order.len(),
        is_sorted_order(keys.take(k as int), order),
        at > 0 ==> !comes_before(keys[k as int], keys[order[at - 1] as int]),
    ensures
        forall|i: int|
            0 <= i < at ==> sorts_ahead(keys, (#[trigger] order[i]) as int, k as int),
{
    assert forall|i: int| 0 <= i < at implies sorts_ahead(
        keys,
        (#[trigger] order[i]) as int,
        k as int,
    ) by {
        let near = order[at - 1] as int;
        if keys[near] != keys[k as int] {
            lemma_one_comes_before(keys[near], keys[k as int]);
        }
        assert(sorts_ahead(keys, near, k as int));
        if i < at - 1 {
            assert(sorts_ahead(keys.take(k as int), order[i] as int, order[at - 1] as int));
            lemma_sorts_ahead_is_transitive(keys, order[i] as int, near, k as int);
        }
    }
}

proof fn lemma_place(keys: Seq<Seq<char>>, order: Seq<usize>, at: int, k: usize) -> (place: int)
    requires
        order.len() == k < keys.len(),
        0 <= at <= order.len(),
        is_sorted_order(keys.take(k as int), order),
        forall|i: int|
            at <= i < order.len() ==> sorts_ahead(keys, k as int, (#[trigger] order[i]) as int),
    ensures
        0 <= place <= order.len(),
        is_sorted_order(keys.take(k + 1), order.insert(place, k)),
    decreases at,
{
    if at > 0 && comes_before(keys[k as int], keys[order[at - 1] as int]) {
        lemma_place(keys, order, at - 1, k)
    } else {
        lemma_all_ahead(keys, order, at, k);
        lemma_insertion(keys, order, at, k);
        at
    }
}

proof fn lemma_sorted_prefix(keys: Seq<Seq<char>>, length: usize) -> (order: Seq<usize>)
    requires
        length <= keys.len(),
    ensures
        is_sorted_order(keys.take(length as int), order),
    decreases length,
{
    if length == 0 {
        seq![]
    } else {
        let last = (length - 1) as usize;
        let order = lemma_sorted_prefix(keys, last);
        let place = lemma_place(keys, order, order.len() as int, last);
        order.insert(place, last)
    }
}

/// Any keys have a sorted order.
pub proof fn sorted_order_exists(keys: Seq<Seq<char>>)
    requires
        keys.len() <= usize::MAX,
    ensures
        is_sorted_order(keys, sorted_order(keys)),
{
    let order = lemma_sorted_prefix(keys, keys.len() as usize);
    assert(keys.take(keys.len() as int) == keys);
    assert(is_sorted_order(keys, order));
}

/// Sorts the positions of `keys` by their keys.
pub fn sort_positions(keys: &Vec<String>) -> (order: Vec<usize>)
    ensures
        is_sorted_order(texts(keys@), order@),
        order@ == sorted_order(texts(keys@)),
{
    let ghost all = texts(keys@);
    let mut order: Vec<usize> = Vec::new();
    let mut k: usize = 0;
    while k < keys.len()
        invariant
            k <= keys@.len(),
            all == texts(keys@),
            is_sorted_order(all.take(k as int), order@),
        decreases keys@.len() - k,
    {
        let mut at: usize = order.len();
        while at > 0 && is_before(keys[k].as_str(), keys[order[at - 1]].as_str())
            invariant
                k < keys@.len(),
                all == texts(keys@),
                is_sorted_order(all.take(k as int), order@),
                at <= order@.len(),
                forall|i: int|
                    at <= i < order@.len() ==> sorts_ahead(
                        all,
                        k as int,
                        (#[trigger] order@[i]) as int,
                    ),
            decreases at,
        {
            at = at - 1;
        }
        proof {
            lemma_all_ahead(all, order@, at as int, k);
            lemma_insertion(all, order@, at as int, k);
        }
        order.insert(at, k);
        k = k + 1;
    }
    proof {
        assert(all.take(k as int) == all);
        sorted_order_is_unique(all, order@, sorted_order(all));
    }
    order
}

/// One text comes before another exactly if, after a common beginning, it ends
/// and the other does not, or it goes on with the smaller character.
pub proof fn order_is_decided_at_the_first_difference(left: Seq<char>, right: Seq<char>)
    ensures
        comes_before(left, right) <==> exists|k: int|
            0 <= k <= left.len() && k < right.len() && #[trigger] left.take(k) == right.take(k) && (
            k == left.len() || (left[k] as u32) < (right[k] as u32)),
    decreases left.len(),
{
    if comes_before(left, right) {
        if left.len() == 0 || left[0] != right[0] {
            assert(left.take(0) =~= right.take(0));
        } else {
            let (l, r) = (left.skip(1), right.skip(1));
            order_is_decided_at_the_first_difference(l, r);
            let k = choose|k: int|
                0 <= k <= l.len() && k < r.len() && #[trigger] l.take(k) == r.take(k) && (k
                    == l.len() || (l[k] as u32) < (r[k] as u32));
            assert forall|i: int| 0 <= i < k + 1 implies left[i] == right[i] by {
                if i > 0 {
                    assert(l.take(k)[i - 1] == left[i]);
                    assert(r.take(k)[i - 1] == right[i]);
                }
            }
            assert(left.take(k + 1) =~= right.take(k + 1));
        }
    }
    if exists|k: int|
        0 <= k <= left.len() && k < right.len() && #[trigger] left.take(k) == right.take(k) && (k
            == left.len() || (left[k] as u32) < (right[k] as u32)) {
        let k = choose|k: int|
            0 <= k <= left.len() && k < right.len() && #[trigger] left.take(k) == right.take(k) && (
            k == left.len() || (left[k] as u32) < (right[k] as u32));
        if k > 0 {
            assert(left.take(k)[0] == left[0]);
            assert(right.take(k)[0] == right[0]);
            let (l, r) = (left.skip(1), right.skip(1));
            assert forall|i: int| 0 <= i < k - 1 implies l[i] == r[i] by {
                assert(left.take(k)[i + 1] == left[i + 1]);
                assert(right.take(k)[i + 1] == right[i + 1]);
            }
            assert(l.take(k - 1) =~= r.take(k - 1));
            order_is_decided_at_the_first_difference(l, r);
        }
    }
}

/// A sorted order names every position once, and of two positions the one that
/// is named first has the key that comes first, or, where the keys are equal,
/// stands first.
pub proof fn sorted_order_is_an_ascending_permutation(keys: Seq<Seq<char>>, i: int, j: int)
    requires
        keys.len() <= usize::MAX,
        0 <= i < j < keys.len(),
    ensures
        ({
            let order = sorted_order(keys);
            &&& order.len() == keys.len()
            &&& order[i] < keys.len() && order[j] < keys.len()
            &&& order[i] != order[j]
            &&& comes_before(keys[order[i] as int], keys[order[j] as int]) || (
            keys[order[i] as int] == keys[order[j] as int] && order[i] < order[j])
        }),
{
    sorted_order_exists(keys);
    let order = sorted_order(keys);
    assert(sorts_ahead(keys, order[i] as int, order[j] as int));
    lemma_not_before_itself(keys[order[i] as int]);
}

} // verus!
