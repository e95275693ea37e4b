//! A map from names to values that remembers the order of its names.
use crate::text::same_text;
use vstd::prelude::*;

verus! {

/// A map whose keys are texts. Its names stand in the order in which they were
/// first inserted, and no name stands there twice.
#[derive(Debug)]
pub struct NameMap<V> {
    names: Vec<String>,
    values: Vec<V>,
}

/// The texts that a sequence of strings holds.
pub open spec fn string_texts(strings: Seq<String>) -> Seq<Seq<char>> {
    strings.map_values(|s: String| s@)
}

/// The items of `items` that are not `gone`, in order.
pub open spec fn without<T>(items: Seq<T>, gone: T) -> Seq<T> {
    items.filter(|item: T| item != gone)
}

/// In a sequence without duplicates, to filter one item out is to remove its place.
pub proof fn filter_one_out<T>(items: Seq<T>, i: int)
    requires
        items.no_duplicates(),
        0 <= i < items.len(),
    ensures
        without(items, items[i]) == items.remove(i),
{
    let gone = items[i];
    let keep = |item: T| item != gone;
    assert(without(items, gone) == items.filter(keep));
    let head = items.take(i);
    let tail = items.skip(i + 1);
    keep_all(head, keep);
    keep_all(tail, keep);
    let middle = seq![items[i]];
    assert(items =~= head + middle + tail);
    Seq::filter_distributes_over_add(head, middle, keep);
    Seq::filter_distributes_over_add(head + middle, tail, keep);
    assert(middle.filter(keep) =~= Seq::<T>::empty()) by {
        reveal_with_fuel(Seq::filter, 2);
        assert(middle.drop_last() =~= Seq::<T>::empty());
    }
    assert(items.remove(i) =~= head + tail);
    assert(head + Seq::<T>::empty() + tail =~= head + tail);
}

/// To filter out what is not there keeps the sequence.
pub proof fn nothing_to_filter_out<T>(items: Seq<T>, gone: T)
    requires
        !items.contains(gone),
    ensures
        without(items, gone) == items,
{
    let keep = |item: T| item != gone;
    assert(without(items, gone) == items.filter(keep));
    assert forall|i: int| 0 <= i < items.len() implies keep(#[trigger] items[i]) by {
        assert(items.contains(items[i]));
    }
    keep_all(items, keep);
}

/// A filter that keeps every item keeps the sequence.
pub proof fn keep_all<T>(items: Seq<T>, keep: spec_fn(T) -> bool)
    requires
        forall|i: int| 0 <= i < items.len() ==> keep(#[trigger] items[i]),
    ensures
        items.filter(keep) == items,
    decreases items.len(),
{
    reveal(Seq::filter);
    if items.len() > 0 {
        keep_all(items.drop_last(), keep);
        assert(items =~= items.drop_last().push(items.last()));
    }
}

impl<V> NameMap<V> {
    #[verifier::type_invariant]
    spec fn consistent(self) -> bool {
        &&& self.names@.len() == self.values@.len()
        &&& self.names().no_duplicates()
    }

    /// The names, in order.
    pub closed spec fn names(self) -> Seq<Seq<char>> {
        string_texts(self.names@)
    }

    /// What each name stands for.
    pub closed spec fn map(self) -> Map<Seq<char>, V> {
        Map::new(
            |name: Seq<char>| self.names().contains(name),
            |name: Seq<char>| self.values@[self.names().index_of(name)],
        )
    }

    /// What holds between the names and the map of every value of this type.
    pub open spec fn wf(self) -> bool {
        &&& self.names().no_duplicates()
        &&& forall|name: Seq<char>| #[trigger]
            self.map().contains_key(name) <==> self.names().contains(name)
    }

    proof fn value_of_index(self, i: int)
        requires
            self.consistent(),
            0 <= i < self.names().len(),
        ensures
            self.map().contains_key(self.names()[i]),
            self.map()[self.names()[i]] == self.values@[i],
    {
        assert(self.names().index_of(self.names()[i]) == i);
    }

    proof fn removed(self, i: int, after: Self)
        requires
            self.consistent(),
            0 <= i < self.names().len(),
            after.consistent(),
            after.names() == self.names().remove(i),
            after.values@ == self.values@.remove(i),
        ensures
            after.map() == self.map().remove(self.names()[i]),
            after.names() == without(self.names(), self.names()[i]),
    {
        let name = self.names()[i];
        assert forall|n: Seq<char>| after.names().contains(n) <==> (n != name
            && self.names().contains(n)) by {
            if after.names().contains(n) {
                let at = after.names().index_of(n);
                let from = if at < i { at } else { at + 1 };
                assert(self.names()[from] == n);
            }
            if n != name && self.names().contains(n) {
                let at = self.names().index_of(n);
                let to = if at < i { at } else { at - 1 };
                assert(after.names()[to] == n);
            }
        }
        assert forall|n: Seq<char>| after.names().contains(n) implies after.map()[n]
            == self.map()[n] by {
            let at = after.names().index_of(n);
            let from = if at < i { at } else { at + 1 };
            after.value_of_index(at);
            self.value_of_index(from);
        }
        assert(after.map() =~= self.map().remove(name));
        filter_one_out(self.names(), i);
    }

    /// The empty map.
    pub fn new() -> (map: Self)
        ensures
            map.wf(),
            map.names() == Seq::<Seq<char>>::empty(),
            map.map() == Map::<Seq<char>, V>::empty(),
    {
        let map = NameMap { names: Vec::new(), values: Vec::new() };
        proof {
            assert(map.map() =~= Map::<Seq<char>, V>::empty());
        }
        map
    }

    /// The number of names.
    pub fn len(&self) -> (len: usize)
        ensures
            len == self.names().len(),
            self.wf(),
    {
        proof {
            use_type_invariant(self);
        }
        self.names.len()
    }

    /// Whether there is no name.
    pub fn is_empty(&self) -> (empty: bool)
        ensures
            empty == (self.names().len() == 0),
            self.wf(),
    {
        self.len() == 0
    }

    /// The name at place `i` of the order.
    pub fn name_at(&self, i: usize) -> (name: &String)
        requires
            i < self.names().len(),
        ensures
            name@ == self.names()[i as int],
    {
        &self.names[i]
    }

    /// What the name at place `i` of the order stands for.
    pub fn value_at(&self, i: usize) -> (value: &V)
        requires
            i < self.names().len(),
        ensures
            self.map().contains_key(self.names()[i as int]),
            *value == self.map()[self.names()[i as int]],
    {
        proof {
            use_type_invariant(self);
            self.value_of_index(i as int);
        }
        &self.values[i]
    }

    fn position(&self, name: &str) -> (at: Option<usize>)
        ensures
            match at {
                Some(i) => {
                    &&& i < self.names().len()
                    &&& self.names()[i as int] == name@
                    &&& self.names().index_of(name@) == i
                    &&& self.map().contains_key(name@)
                    &&& self.map()[name@] == self.values@[i as int]
                },
                None => !self.names().contains(name@) && !self.map().contains_key(name@),
            },
    {
        proof {
            use_type_invariant(self);
        }
        for i in 0..self.names.len()
            invariant
                self.consistent(),
                forall|j: int| 0 <= j < i ==> self.names()[j] != name@,
        {
            if same_text(self.names[i].as_str(), name) {
                proof {
                    self.value_of_index(i as int);
                }
                return Some(i);
            }
        }
        None
    }

    /// Whether `name` is in the map.
    pub fn contains_key(&self, name: &str) -> (found: bool)
        ensures
            found == self.map().contains_key(name@),
            self.wf(),
    {
        proof {
            use_type_invariant(self);
        }
        self.position(name).is_some()
    }

    /// What `name` stands for.
    pub fn get(&self, name: &str) -> (value: Option<&V>)
        ensures
            self.wf(),
            match value {
                Some(v) => self.map().contains_key(name@) && *v == self.map()[name@],
                None => !self.map().contains_key(name@),
            },
    {
        proof {
            use_type_invariant(self);
        }
        match self.position(name) {
            Some(i) => Some(&self.values[i]),
            None => None,
        }
    }

    /// What `name` stands for, to be changed in place.
    pub fn get_mut(&mut self, name: &str) -> (value: Option<&mut V>)
        ensures
            old(self).wf(),
            final(self).wf(),
            final(self).names() == old(self).names(),
            match value {
                Some(v) => {
                    &&& old(self).map().contains_key(name@)
                    &&& *v == old(self).map()[name@]
                    &&& final(self).map() == old(self).map().insert(name@, *final(v))
                },
                None => {
                    &&& !old(self).map().contains_key(name@)
                    &&& final(self).map() == old(self).map()
                },
            },
    {
        proof {
            use_type_invariant(&*self);
        }
        match self.position(name) {
            Some(i) => Some(&mut self.values[i]),
            None => None,
        }
    }

    /// Lets `name` stand for `value`, and returns what it stood for before.
    pub fn insert(&mut self, name: String, value: V) -> (previous: Option<V>)
        ensures
            old(self).wf(),
            final(self).wf(),
            final(self).map() == old(self).map().insert(name@, value),
            final(self).names() == if old(self).map().contains_key(name@) {
                old(self).names()
            } else {
                old(self).names().push(name@)
            },
            match previous {
                Some(v) => old(self).map().contains_key(name@) && v == old(self).map()[name@],
                None => !old(self).map().contains_key(name@),
            },
    {
        proof {
            use_type_invariant(&*self);
        }
        match self.position(name.as_str()) {
            Some(i) => {
                let mut slot = value;
                std::mem::swap(&mut self.values[i], &mut slot);
                Some(slot)
            },
            None => {
                let mut whole = NameMap::new();
                std::mem::swap(self, &mut whole);
                let NameMap { mut names, mut values } = whole;
                let ghost before = whole;
                names.push(name);
                values.push(value);
                proof {
                    assert(string_texts(names@) =~= before.names().push(name@));
                }
                *self = NameMap { names, values };
                proof {
                    assert forall|n: Seq<char>| self.names().contains(n) implies self.map()[n]
                        == before.map().insert(name@, value)[n] by {
                        let at = self.names().index_of(n);
                        self.value_of_index(at);
                        if at < before.names().len() {
                            before.value_of_index(at);
                            assert(before.names()[at] == n);
                        }
                    }
                    assert forall|n: Seq<char>| before.names().push(name@).contains(n) <==> (n
                        == name@ || before.names().contains(n)) by {
                        assert(before.names().push(name@).last() == name@);
                        if before.names().contains(n) {
                            let at = before.names().index_of(n);
                            assert(before.names().push(name@)[at] == n);
                        }
                    }
                    assert(self.map() =~= before.map().insert(name@, value));
                }
                None
            },
        }
    }

    /// Takes `name` out of the map, and returns what it stood for.
    pub fn remove(&mut self, name: &str) -> (previous: Option<V>)
        ensures
            old(self).wf(),
            final(self).wf(),
            final(self).map() == old(self).map().remove(name@),
            final(self).names() == without(old(self).names(), name@),
            match previous {
                Some(v) => old(self).map().contains_key(name@) && v == old(self).map()[name@],
                None => !old(self).map().contains_key(name@),
            },
    {
        proof {
            use_type_invariant(&*self);
        }
        match self.position(name) {
            Some(i) => {
                let mut whole = NameMap::new();
                std::mem::swap(self, &mut whole);
                let NameMap { mut names, mut values } = whole;
                let ghost before = whole;
                let _ = names.remove(i);
                let value = values.remove(i);
                proof {
                    assert(string_texts(names@) =~= before.names().remove(i as int));
                }
                *self = NameMap { names, values };
                proof {
                    before.removed(i as int, *self);
                }
                Some(value)
            },
            None => {
                proof {
                    keep_all(self.names(), |n: Seq<char>| n != name@);
                    assert(self.map() =~= self.map().remove(name@));
                }
                None
            },
        }
    }
}

} // verus!
