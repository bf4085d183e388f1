use vstd::prelude::*;
use vstd::std_specs::hash::{builds_valid_hashers, obeys_key_model};
use std::collections::HashMap;
use std::collections::hash_map::RandomState;
use std::hash::Hash;
use std::marker::PhantomData;

verus! {

/// An object which may be assigned and associated by a 'name' of type N
pub trait Named<N> where N: Eq + Hash {
    /// The name of the object, if it has one.
    spec fn spec_name(&self) -> Option<N>;

    fn name(&self) -> (r: Option<&N>)
        ensures
            match r {
                Some(n) => self.spec_name() == Some(*n),
                None => self.spec_name() is None,
            },
    ;
}

#[derive(Debug, PartialEq, Hash)]
pub struct Id<T> {
    /// The index into the object registry containing the object referred to by this ID
    index: u32,
    _m: PhantomData<T>,
}

impl<T> Id<T> {
    /// The index into the registry.
    pub closed spec fn spec_index(&self) -> u32 {
        self.index
    }
}

impl<T> Clone for Id<T> {
    fn clone(&self) -> (r: Self)
        ensures
            r == *self,
    {
        Self { index: self.index, _m: PhantomData }
    }
}

impl<T> Copy for Id<T> {

}

impl<T> From<usize> for Id<T> {
    /// The index is truncated to 32 bits.
    fn from(value: usize) -> (r: Self) {
        Self { index: value as u32, _m: PhantomData }
    }
}

impl<T> vstd::std_specs::convert::FromSpecImpl<usize> for Id<T> {
    open spec fn obeys_from_spec() -> bool {
        true
    }

    closed spec fn from_spec(v: usize) -> Self {
        Id { index: v as u32, _m: PhantomData }
    }
}

/// An arena or registry which owns and identifies objects
pub trait Ids<T> {
    /// The objects, by their index.
    spec fn objects(&self) -> Seq<T>;

    fn get(&self, id: Id<T>) -> (r: &T)
        requires
            id.spec_index() < self.objects().len(),
        ensures
            *r == self.objects()[id.spec_index() as int],
    ;

    fn get_mut(&mut self, id: Id<T>) -> (r: &mut T)
        requires
            id.spec_index() < old(self).objects().len(),
        ensures
            *r == old(self).objects()[id.spec_index() as int],
            final(self).objects() == old(self).objects().update(
                id.spec_index() as int,
                *final(r),
            ),
    ;
}

/// A registry of nameless objects by type T, associated by an index (Id)
pub struct Arena<T> {
    list: Vec<T>,
}

impl<T> Arena<T> {
    pub closed spec fn spec_list(&self) -> Seq<T> {
        self.list@
    }

    pub fn new() -> (a: Self)
        ensures
            a.spec_list() == Seq::<T>::empty(),
    {
        Self { list: Vec::new() }
    }

    /// Adds `obj`; its id is its index (truncated to 32 bits).
    pub fn push(&mut self, obj: T) -> (r: (Id<T>, &mut T))
        ensures
            r.0.spec_index() == old(self).spec_list().len() as u32,
            *r.1 == obj,
            final(self).spec_list() == old(self).spec_list().push(*final(r.1)),
    {
        let n = self.list.len();
        self.list.push(obj);
        let id: Id<T> = Id::from(n);
        (id, &mut self.list[n])
    }

    pub fn create<F>(&mut self, constructor: F) -> (r: (Id<T>, &mut T)) where F: FnOnce() -> T
        requires
            call_requires(constructor, ()),
        ensures
            r.0.spec_index() == old(self).spec_list().len() as u32,
            call_ensures(constructor, (), *r.1),
            final(self).spec_list() == old(self).spec_list().push(*final(r.1)),
    {
        self.push(constructor())
    }
}

impl<T> Ids<T> for Arena<T> {
    open spec fn objects(&self) -> Seq<T> {
        self.spec_list()
    }

    fn get(&self, id: Id<T>) -> (r: &T) {
        &self.list[id.index as usize]
    }

    fn get_mut(&mut self, id: Id<T>) -> (r: &mut T) {
        &mut self.list[id.index as usize]
    }
}

/// The id that `push` hands out finds the object it was given, and the
/// objects pushed before it are unchanged (while the number of objects fits
/// in an id).
pub proof fn law_get_after_push<T>(before: Arena<T>, after: Arena<T>, id: Id<T>, obj: T)
    requires
        before.spec_list().len() < u32::MAX,
        id.spec_index() == before.spec_list().len() as u32,
        after.spec_list() == before.spec_list().push(obj),
    ensures
        id.spec_index() < after.objects().len(),
        after.objects()[id.spec_index() as int] == obj,
        forall|i: int|
            0 <= i < before.objects().len() ==> after.objects()[i] == before.objects()[i],
{
}

/// A registry of objects by type T, associated by an index (Id) a lookup by the associated name type.
/// It is a specific case of an Arena<T> where T is named
pub struct Registry<T, N> where N: Eq + Hash + Clone, T: Named<N> {
    arena: Arena<T>,
    lookup: HashMap<N, Id<T>>,
}

impl<T, N> Registry<T, N> where N: Eq + Hash + Clone, T: Named<N> {
    pub closed spec fn spec_list(&self) -> Seq<T> {
        self.arena.spec_list()
    }

    /// The ids of the named objects, by name.
    pub closed spec fn spec_lookup(&self) -> Map<N, Id<T>> {
        self.lookup@
    }

    pub fn new() -> (r: Self)
        ensures
            r.spec_list() == Seq::<T>::empty(),
            r.spec_lookup() == Map::<N, Id<T>>::empty(),
    {
        Self { arena: Arena::new(), lookup: HashMap::new() }
    }

    /// Adds `obj`; when it has a name, the name now looks up its id (when the
    /// name type hashes and compares as its model does).
    pub fn push(&mut self, obj: T) -> (r: (Id<T>, &mut T))
        ensures
            r.0.spec_index() == old(self).spec_list().len() as u32,
            *r.1 == obj,
            final(self).spec_list() == old(self).spec_list().push(*final(r.1)),
            obj.spec_name() is None ==> final(self).spec_lookup() == old(self).spec_lookup(),
            obeys_key_model::<N>() && builds_valid_hashers::<RandomState>() && obj.spec_name() is Some
                ==> exists|k: N| #[trigger]
                cloned(obj.spec_name()->0, k) && final(self).spec_lookup() == old(
                    self,
                ).spec_lookup().insert(k, r.0),
    {
        let n = self.arena.list.len();
        let id: Id<T> = Id::from(n);
        match obj.name() {
            Some(name) => {
                let k = name.clone();
                let ghost kk = k;
                let _ = self.lookup.insert(k, id);
                assert(cloned(*name, kk));
                assert(obeys_key_model::<N>() && builds_valid_hashers::<RandomState>() ==> self.lookup@ == old(self).lookup@.insert(kk, id));
                assert(obj.spec_name()->0 == *name);
                assert(obeys_key_model::<N>() && builds_valid_hashers::<RandomState>() && obj.spec_name() is Some
                ==> exists|k: N| #[trigger]
                cloned(obj.spec_name()->0, k) && self.lookup@ == old(
                    self,
                ).spec_lookup().insert(k, id));
                let (_, ret) = self.arena.push(obj);
                (id, ret)
            },
            None => {
                let (_, ret) = self.arena.push(obj);
                (id, ret)
            },
        }
    }

    pub fn create_anonymous<F>(&mut self, constructor: F) -> (r: (Id<T>, &mut T)) where
        F: FnOnce() -> T,
        requires
            call_requires(constructor, ()),
        ensures
            r.0.spec_index() == old(self).spec_list().len() as u32,
            call_ensures(constructor, (), *r.1),
            final(self).spec_list() == old(self).spec_list().push(*final(r.1)),
    {
        self.push(constructor())
    }

    pub fn create_named<F>(&mut self, name: N, constructor: F) -> (r: (Id<T>, &mut T)) where
        F: FnOnce(N) -> T,
        requires
            call_requires(constructor, (name,)),
        ensures
            r.0.spec_index() == old(self).spec_list().len() as u32,
            call_ensures(constructor, (name,), *r.1),
            final(self).spec_list() == old(self).spec_list().push(*final(r.1)),
    {
        self.push(constructor(name))
    }
}

/// The id that `Registry::push` hands out finds the object it was given, and
/// the objects pushed before it are unchanged (while the number of objects
/// fits in an id).
pub proof fn law_registry_get_after_push<T, N>(
    before: Registry<T, N>,
    after: Registry<T, N>,
    id: Id<T>,
    obj: T,
) where N: Eq + Hash + Clone, T: Named<N>
    requires
        before.spec_list().len() < u32::MAX,
        id.spec_index() == before.spec_list().len() as u32,
        after.spec_list() == before.spec_list().push(obj),
    ensures
        id.spec_index() < after.objects().len(),
        after.objects()[id.spec_index() as int] == obj,
        forall|i: int|
            0 <= i < before.objects().len() ==> after.objects()[i] == before.objects()[i],
{
}

impl<T, N> Ids<T> for Registry<T, N> where N: Eq + Hash + Clone, T: Named<N> {
    open spec fn objects(&self) -> Seq<T> {
        self.spec_list()
    }

    fn get(&self, id: Id<T>) -> (r: &T) {
        self.arena.get(id)
    }

    fn get_mut(&mut self, id: Id<T>) -> (r: &mut T) {
        self.arena.get_mut(id)
    }
}

} // verus!
