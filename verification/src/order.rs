//! The order of texts, and sorting.
use crate::text::chars_of;
use crate::names::string_texts;
use vstd::prelude::*;

verus! {

/// Whether `a` comes before `b`, or is `b`, in the order of their code points.
pub open spec fn text_le(a: Seq<char>, b: Seq<char>) -> bool
    decreases a.len(),
{
    if a.len() == 0 {
        true
    } else if b.len() == 0 {
        false
    } else if a[0] != b[0] {
        a[0] < b[0]
    } else {
        text_le(a.drop_first(), b.drop_first())
    }
}

/// Any two texts stand in order one way or the other.
pub proof fn text_le_total(a: Seq<char>, b: Seq<char>)
    ensures
        text_le(a, b) || text_le(b, a),
    decreases a.len(),
{
    if a.len() > 0 && b.len() > 0 && a[0] == b[0] {
        text_le_total(a.drop_first(), b.drop_first());
    }
}

/// The order of texts is transitive.
pub proof fn text_le_transitive(a: Seq<char>, b: Seq<char>, c: Seq<char>)
    requires
        text_le(a, b),
        text_le(b, c),
    ensures
        text_le(a, c),
    decreases a.len(),
{
    if a.len() > 0 && a[0] == b[0] && b[0] == c[0] {
        text_le_transitive(a.drop_first(), b.drop_first(), c.drop_first());
    }
}

/// Two texts that stand in order both ways are the same text.
pub proof fn text_le_antisymmetric(a: Seq<char>, b: Seq<char>)
    requires
        text_le(a, b),
        text_le(b, a),
    ensures
        a == b,
    decreases a.len(),
{
    if a.len() > 0 {
        text_le_antisymmetric(a.drop_first(), b.drop_first());
        assert(a =~= seq![a[0]] + a.drop_first());
        assert(b =~= seq![b[0]] + b.drop_first());
    } else {
        assert(a =~= b);
    }
}

/// Whether `a` comes before `b`, or is `b`.
pub fn text_at_most(a: &str, b: &str) -> (le: bool)
    ensures
        le == text_le(a@, b@),
{
    let left = chars_of(a);
    let right = chars_of(b);
    let mut i: usize = 0;
    proof {
        assert(a@.skip(0) =~= a@);
        assert(b@.skip(0) =~= b@);
    }
    while i < left.len() && i < right.len()
        invariant
            left@ == a@,
            right@ == b@,
            i <= left@.len(),
            i <= right@.len(),
            text_le(a@, b@) == text_le(a@.skip(i as int), b@.skip(i as int)),
        decreases left.len() - i,
    {
        if left[i] != right[i] {
            return left[i] < right[i];
        }
        proof {
            assert(a@.skip(i as int).drop_first() =~= a@.skip(i + 1));
            assert(b@.skip(i as int).drop_first() =~= b@.skip(i + 1));
        }
        i = i + 1;
    }
    i == left.len()
}

/// Values that stand in a total order.
pub trait Ranked: Sized {
    /// Whether `self` may stand before `other`.
    spec fn ranks_before(&self, other: &Self) -> bool;

    /// Any two values may stand in order one way or the other.
    proof fn rank_total(a: &Self, b: &Self)
        ensures
            a.ranks_before(b) || b.ranks_before(a),
    ;

    /// The order is transitive.
    proof fn rank_transitive(a: &Self, b: &Self, c: &Self)
        requires
            a.ranks_before(b),
            b.ranks_before(c),
        ensures
            a.ranks_before(c),
    ;

    /// Whether `self` may stand before `other`.
    fn may_precede(&self, other: &Self) -> (before: bool)
        ensures
            before == self.ranks_before(other),
    ;
}

impl Ranked for String {
    open spec fn ranks_before(&self, other: &Self) -> bool {
        text_le(self@, other@)
    }

    proof fn rank_total(a: &Self, b: &Self) {
        text_le_total(a@, b@);
    }

    proof fn rank_transitive(a: &Self, b: &Self, c: &Self) {
        text_le_transitive(a@, b@, c@);
    }

    fn may_precede(&self, other: &Self) -> (before: bool) {
        text_at_most(self.as_str(), other.as_str())
    }
}

/// Whether the items of `items` stand in order.
pub open spec fn in_order<T: Ranked>(items: Seq<T>) -> bool {
    forall|i: int, j: int|
        #![trigger items[i], items[j]]
        0 <= i < j < items.len() ==> items[i].ranks_before(&items[j])
}

proof fn insert_counts<T>(items: Seq<T>, at: int, item: T)
    requires
        0 <= at <= items.len(),
    ensures
        items.insert(at, item).to_multiset() == items.to_multiset().insert(item),
{
    broadcast use vstd::seq_lib::group_to_multiset_ensures;

    let after = items.insert(at, item);
    assert(after.remove(at) =~= items);
    assert(after[at] == item);
    assert(after.contains(item));
    assert(items.to_multiset().insert(item) =~= after.to_multiset());
}

/// Puts one item in its place among items that stand in order.
fn insert_ranked<T: Ranked>(items: &mut Vec<T>, item: T)
    requires
        in_order(old(items)@),
    ensures
        in_order(final(items)@),
        final(items)@.to_multiset() == old(items)@.to_multiset().insert(item),
{
    let mut at: usize = items.len();
    while at > 0 && !items[at - 1].may_precede(&item)
        invariant
            at <= items@.len(),
            in_order(items@),
            forall|j: int| at <= j < items@.len() ==> !(#[trigger] items@[j]).ranks_before(&item),
        ensures
            at <= items@.len(),
            at > 0 ==> items@[at - 1].ranks_before(&item),
            forall|j: int| at <= j < items@.len() ==> !(#[trigger] items@[j]).ranks_before(&item),
        decreases at,
    {
        at = at - 1;
    }
    proof {
        insert_counts(items@, at as int, item);
        let after = items@.insert(at as int, item);
        assert forall|i: int, j: int|
            #![trigger after[i], after[j]]
            0 <= i < j < after.len() implies after[i].ranks_before(&after[j]) by {
            if j == at {
                if i < at - 1 {
                    T::rank_transitive(&items@[i], &items@[at - 1], &item);
                }
            } else if i == at {
                T::rank_total(&items@[j - 1], &item);
            }
        }
    }
    items.insert(at, item);
}

/// Sorts `items`: afterwards it holds the same items, in order.
pub fn sort_ranked<T: Ranked>(items: &mut Vec<T>)
    ensures
        in_order(final(items)@),
        final(items)@.to_multiset() == old(items)@.to_multiset(),
{
    broadcast use vstd::seq_lib::group_to_multiset_ensures;

    let mut sorted: Vec<T> = Vec::new();
    let ghost all = items@.to_multiset();
    proof {
        assert(items@.to_multiset().add(sorted@.to_multiset()) =~= all);
    }
    while items.len() > 0
        invariant
            in_order(sorted@),
            items@.to_multiset().add(sorted@.to_multiset()) == all,
        decreases items.len(),
    {
        let ghost before = items@;
        let ghost placed = sorted@;
        match items.pop() {
            Some(item) => {
                insert_ranked(&mut sorted, item);
                proof {
                    broadcast use vstd::seq_lib::group_to_multiset_ensures;

                    assert(before =~= items@.push(item));
                    assert(items@.push(item).to_multiset() == items@.to_multiset().insert(item));
                    assert(items@.to_multiset().add(sorted@.to_multiset())
                        =~= before.to_multiset().add(placed.to_multiset()));
                }
            },
            None => {},
        }
    }
    proof {
        assert(sorted@.to_multiset() =~= all);
    }
    *items = sorted;
}

/// Two sequences of the same items have, item for item, the same images.
pub proof fn images_of_same_items<A, B>(a: Seq<A>, b: Seq<A>, image: spec_fn(A) -> B)
    requires
        a.to_multiset() == b.to_multiset(),
    ensures
        a.map_values(image).to_multiset() == b.map_values(image).to_multiset(),
    decreases a.len(),
{
    broadcast use vstd::seq_lib::group_to_multiset_ensures;

    assert(a.len() == a.to_multiset().len());
    assert(b.len() == b.to_multiset().len());
    if a.len() > 0 {
        let item = a.last();
        let rest = a.drop_last();
        assert(a =~= rest.push(item));
        assert(a[a.len() - 1] == item);
        assert(a.contains(item));
        assert(b.to_multiset().count(item) > 0);
        let at = b.index_of(item);
        let others = b.remove(at);
        assert(others.to_multiset() == b.to_multiset().remove(item));
        assert(rest.to_multiset() =~= a.to_multiset().remove(item));
        images_of_same_items(rest, others, image);
        assert(a.map_values(image) =~= rest.map_values(image).push(image(item)));
        assert(b.map_values(image).remove(at) =~= others.map_values(image));
        assert(b.map_values(image)[at] == image(item));
        assert(b.map_values(image).contains(image(item)));
        assert(b.map_values(image).to_multiset() =~= others.map_values(image).to_multiset().insert(
            image(item),
        ));
    } else {
        assert(a.map_values(image) =~= b.map_values(image));
    }
}

/// Whether texts stand in order.
pub open spec fn texts_in_order(texts: Seq<Seq<char>>) -> bool {
    forall|i: int, j: int|
        #![trigger texts[i], texts[j]]
        0 <= i < j < texts.len() ==> text_le(texts[i], texts[j])
}

/// Sorts names: afterwards there are the same ones, in order.
pub fn sort_names(names: &mut Vec<String>)
    ensures
        texts_in_order(string_texts(final(names)@)),
        string_texts(final(names)@).to_multiset() == string_texts(old(names)@).to_multiset(),
{
    let ghost before = names@;
    sort_ranked(names);
    proof {
        images_of_same_items(names@, before, |s: String| s@);
        let texts = string_texts(names@);
        assert forall|i: int, j: int|
            #![trigger texts[i], texts[j]]
            0 <= i < j < texts.len() implies text_le(texts[i], texts[j]) by {
            assert(names@[i].ranks_before(&names@[j]));
        }
    }
}

} // verus!
