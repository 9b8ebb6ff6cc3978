use std::collections::{BTreeMap, HashMap};
use std::hash::Hash;
use vstd::prelude::*;

verus! {

/// An append-only container that combinators build into.
///
/// Its contents are described by `Model`: `new` gives `empty_model()`, and
/// `add` applies `add_model`, wherever the element type obeys the laws that
/// `lawful` names.
pub trait Collection: Sized {
    type Item;

    type Model;

    spec fn model(&self) -> Self::Model;

    spec fn empty_model() -> Self::Model;

    spec fn add_model(m: Self::Model, item: Self::Item) -> Self::Model;

    /// Whether the element type behaves as the model assumes (sound hashing or ordering).
    spec fn lawful() -> bool;

    fn new() -> (r: Self)
        ensures
            r.model() == Self::empty_model(),
    ;

    fn add(&mut self, item: Self::Item)
        ensures
            Self::lawful() ==> final(self).model() == Self::add_model(old(self).model(), item),
    ;
}

/// What a collection holds after `new` followed by `add` of each of `items` in order.
pub open spec fn built<C: Collection>(items: Seq<C::Item>) -> C::Model
    decreases items.len(),
{
    if items.len() == 0 {
        C::empty_model()
    } else {
        C::add_model(built::<C>(items.drop_last()), items.last())
    }
}

/// Adding one more item to what `items` built is building from `items` with it.
pub proof fn lemma_built_push<C: Collection>(items: Seq<C::Item>, item: C::Item)
    ensures
        built::<C>(items.push(item)) == C::add_model(built::<C>(items), item),
{
    assert(items.push(item).drop_last() =~= items);
}

impl<T> Collection for Vec<T> {
    type Item = T;

    type Model = Seq<T>;

    open spec fn model(&self) -> Seq<T> {
        self@
    }

    open spec fn empty_model() -> Seq<T> {
        Seq::empty()
    }

    open spec fn add_model(m: Seq<T>, item: T) -> Seq<T> {
        m.push(item)
    }

    open spec fn lawful() -> bool {
        true
    }

    fn new() -> (r: Self) {
        Vec::new()
    }

    fn add(&mut self, item: T) {
        self.push(item);
    }
}

/// Keys are unique; a later item replaces an earlier one with an equal key.
impl<K: Eq + Hash, V> Collection for HashMap<K, V> {
    type Item = (K, V);

    type Model = Map<K, V>;

    open spec fn model(&self) -> Map<K, V> {
        self@
    }

    open spec fn empty_model() -> Map<K, V> {
        Map::empty()
    }

    open spec fn add_model(m: Map<K, V>, item: (K, V)) -> Map<K, V> {
        m.insert(item.0, item.1)
    }

    open spec fn lawful() -> bool {
        vstd::std_specs::hash::obeys_key_model::<K>()
            && vstd::std_specs::hash::builds_valid_hashers::<std::hash::RandomState>()
    }

    fn new() -> (r: Self) {
        HashMap::new()
    }

    fn add(&mut self, item: (K, V)) {
        let (k, v) = item;
        self.insert(k, v);
    }
}

/// Keys are ordered and unique; a later item replaces an earlier one with an equal key.
impl<K: Ord, V> Collection for BTreeMap<K, V> {
    type Item = (K, V);

    type Model = Map<K, V>;

    open spec fn model(&self) -> Map<K, V> {
        self@
    }

    open spec fn empty_model() -> Map<K, V> {
        Map::empty()
    }

    open spec fn add_model(m: Map<K, V>, item: (K, V)) -> Map<K, V> {
        m.insert(item.0, item.1)
    }

    open spec fn lawful() -> bool {
        vstd::std_specs::btree::key_obeys_cmp_spec::<K>()
    }

    fn new() -> (r: Self) {
        BTreeMap::new()
    }

    fn add(&mut self, item: (K, V)) {
        let (k, v) = item;
        self.insert(k, v);
    }
}

} // verus!
