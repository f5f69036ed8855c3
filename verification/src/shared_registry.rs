//! The registry of shared objects: the objects that a node synchronizes,
//! kept by identifier in registration order.

use vstd::prelude::*;
use crate::error::ChaincraftError;
use crate::json::JsonValue;
use crate::shared::{SharedMessage, SharedObjectId};
use crate::state_memento::StateMemento;
use crate::text::str_equal;

verus! {

broadcast use vstd::string::group_string_axioms;

/// An object that can be shared and synchronized across nodes.
pub trait SharedObject: Sized {
    /// The object's identifier; it never changes.
    spec fn spec_id(&self) -> SharedObjectId;

    /// The object's type name.
    spec fn spec_object_type(&self) -> Seq<char>;

    fn id(&self) -> (r: SharedObjectId)
        ensures
            r == self.spec_id(),
    ;

    fn object_type(&self) -> (r: &'static str)
        ensures
            r@ == self.spec_object_type(),
    ;

    /// Whether `message` is valid for this object.
    fn is_valid(&self, message: &SharedMessage) -> Result<bool, ChaincraftError>;

    /// Applies a validated message, optionally emitting a snapshot.
    fn add_message(&mut self, message: SharedMessage, frontier_state: Option<StateMemento>) -> (r: Result<Option<StateMemento>, ChaincraftError>)
        ensures
            final(self).spec_id() == old(self).spec_id(),
            final(self).spec_object_type() == old(self).spec_object_type(),
    ;

    fn is_merkleized(&self) -> bool;

    fn get_latest_digest(&self) -> Result<String, ChaincraftError>;

    fn has_digest(&self, digest: &str) -> Result<bool, ChaincraftError>;

    fn is_valid_digest(&self, digest: &str) -> Result<bool, ChaincraftError>;

    fn add_digest(&mut self, digest: String) -> (r: Result<bool, ChaincraftError>)
        ensures
            final(self).spec_id() == old(self).spec_id(),
            final(self).spec_object_type() == old(self).spec_object_type(),
    ;

    fn gossip_messages(&self, digest: Option<&str>) -> Result<Vec<SharedMessage>, ChaincraftError>;

    fn get_messages_since_digest(&self, digest: &str) -> Result<Vec<SharedMessage>, ChaincraftError>;

    fn get_state(&self) -> Result<JsonValue, ChaincraftError>;

    fn reset(&mut self) -> (r: Result<(), ChaincraftError>)
        ensures
            final(self).spec_id() == old(self).spec_id(),
            final(self).spec_object_type() == old(self).spec_object_type(),
    ;

    /// The object as JSON.
    fn to_json(&self) -> Result<JsonValue, ChaincraftError>;

    /// Updates the object from JSON.
    fn apply_json(&mut self, data: JsonValue) -> (r: Result<(), ChaincraftError>)
        ensures
            final(self).spec_id() == old(self).spec_id(),
            final(self).spec_object_type() == old(self).spec_object_type(),
    ;

    /// Called when the object is accessed.
    fn on_access(&mut self) -> (r: Result<(), ChaincraftError>)
        ensures
            final(self).spec_id() == old(self).spec_id(),
            final(self).spec_object_type() == old(self).spec_object_type(),
    ;

    /// Called when the object is modified.
    fn on_modify(&mut self) -> (r: Result<(), ChaincraftError>)
        ensures
            final(self).spec_id() == old(self).spec_id(),
            final(self).spec_object_type() == old(self).spec_object_type(),
    ;

    /// Called when the object is deleted.
    fn on_delete(&mut self) -> (r: Result<(), ChaincraftError>)
        ensures
            final(self).spec_id() == old(self).spec_id(),
            final(self).spec_object_type() == old(self).spec_object_type(),
    ;

    /// Validates the object's current state.
    fn validate(&self) -> Result<bool, ChaincraftError>;

    /// The object's metadata as key/value pairs.
    fn metadata(&self) -> Vec<(String, String)>;
}

/// The identifiers of a sequence of objects.
pub open spec fn shared_ids_of<T: SharedObject>(objs: Seq<T>) -> Seq<SharedObjectId> {
    Seq::new(objs.len(), |i: int| objs[i].spec_id())
}

/// No two objects share an identifier.
pub open spec fn shared_ids_distinct<T: SharedObject>(objs: Seq<T>) -> bool {
    forall|i: int, j: int|
        0 <= i < objs.len() && 0 <= j < objs.len() && i != j ==> #[trigger] objs[i].spec_id() != #[trigger] objs[j].spec_id()
}

/// Some object has identifier `id`.
pub open spec fn shared_has_id<T: SharedObject>(objs: Seq<T>, id: SharedObjectId) -> bool {
    exists|i: int| 0 <= i < objs.len() && #[trigger] objs[i].spec_id() == id
}

/// The shared objects of a node, in registration order.
pub struct SharedObjectRegistry<T: SharedObject> {
    objects: Vec<T>,
}

impl<T: SharedObject> SharedObjectRegistry<T> {
    /// The registered objects, in registration order.
    pub closed spec fn spec_objects(&self) -> Seq<T> {
        self.objects@
    }

    pub closed spec fn wf(&self) -> bool {
        shared_ids_distinct(self.objects@)
    }

    /// An empty registry.
    pub fn new() -> (r: Self)
        ensures
            r.wf(),
            r.spec_objects().len() == 0,
    {
        SharedObjectRegistry { objects: Vec::new() }
    }

    fn position(&self, id: &SharedObjectId) -> (r: Option<usize>)
        requires
            self.wf(),
        ensures
            match r {
                Some(i) => i < self.spec_objects().len() && self.spec_objects()[i as int].spec_id() == *id,
                None => !shared_has_id(self.spec_objects(), *id),
            },
    {
        let mut i: usize = 0;
        while i < self.objects.len()
            invariant
                self.wf(),
                i <= self.objects@.len(),
                forall|k: int| 0 <= k < i ==> #[trigger] self.objects@[k].spec_id() != *id,
            decreases self.objects@.len() - i,
        {
            let oid = self.objects[i].id();
            if oid.0 == id.0 {
                return Some(i);
            }
            i += 1;
        }
        None
    }

    /// Registers `object` and returns its identifier; an object registered
    /// under the same identifier before is replaced in place.
    pub fn register(&mut self, object: T) -> (id: SharedObjectId)
        requires
            old(self).wf(),
        ensures
            final(self).wf(),
            id == object.spec_id(),
            shared_has_id(old(self).spec_objects(), id) ==> exists|i: int|
                0 <= i < old(self).spec_objects().len() && old(self).spec_objects()[i].spec_id() == id
                    && final(self).spec_objects() == old(self).spec_objects().update(i, object),
            !shared_has_id(old(self).spec_objects(), id) ==> final(self).spec_objects() == old(self).spec_objects().push(object),
    {
        let id = object.id();
        match self.position(&id) {
            Some(i) => {
                let ghost before = self.objects@;
                self.objects.remove(i);
                self.objects.insert(i, object);
                proof {
                    assert(self.objects@ =~= before.update(i as int, object));
                }
            },
            None => {
                self.objects.push(object);
            },
        }
        id
    }

    /// The object registered under `id`.
    pub fn get(&self, id: &SharedObjectId) -> (r: Option<&T>)
        requires
            self.wf(),
        ensures
            match r {
                Some(o) => exists|i: int| 0 <= i < self.spec_objects().len() && *o == self.spec_objects()[i] && o.spec_id() == *id,
                None => !shared_has_id(self.spec_objects(), *id),
            },
    {
        match self.position(id) {
            Some(i) => Some(&self.objects[i]),
            None => None,
        }
    }

    /// The objects whose type name is `kind_name`, in registration order.
    pub fn get_by_type(&self, kind_name: &str) -> (r: Vec<&T>)
        requires
            self.wf(),
        ensures
            r@.len() == self.spec_objects().filter(|o: T| o.spec_object_type() == kind_name@).len(),
            forall|k: int| 0 <= k < r@.len() ==> *r@[k] == self.spec_objects().filter(|o: T| o.spec_object_type() == kind_name@)[k],
    {
        let ghost pred = |o: T| o.spec_object_type() == kind_name@;
        let mut out: Vec<&T> = Vec::new();
        let mut i: usize = 0;
        while i < self.objects.len()
            invariant
                self.wf(),
                i <= self.objects@.len(),
                pred == (|o: T| o.spec_object_type() == kind_name@),
                out@.len() == self.objects@.take(i as int).filter(pred).len(),
                forall|k: int| 0 <= k < out@.len() ==> *out@[k] == self.objects@.take(i as int).filter(pred)[k],
            decreases self.objects@.len() - i,
        {
            let ghost prefix = self.objects@.take(i as int);
            let ghost next = self.objects@.take(i + 1);
            proof {
                assert(next.drop_last() =~= prefix);
                assert(next.last() == self.objects@[i as int]);
                reveal(Seq::filter);
            }
            let t = self.objects[i].object_type();
            if str_equal(t, kind_name) {
                out.push(&self.objects[i]);
            }
            i += 1;
        }
        proof {
            assert(self.objects@.take(i as int) =~= self.objects@);
        }
        out
    }

    /// Removes and returns the object registered under `id`.
    pub fn remove(&mut self, id: &SharedObjectId) -> (r: Option<T>)
        requires
            old(self).wf(),
        ensures
            final(self).wf(),
            match r {
                Some(o) => exists|i: int|
                    0 <= i < old(self).spec_objects().len() && o == old(self).spec_objects()[i] && o.spec_id() == *id
                        && final(self).spec_objects() == old(self).spec_objects().remove(i),
                None => !shared_has_id(old(self).spec_objects(), *id) && final(self).spec_objects() == old(self).spec_objects(),
            },
    {
        match self.position(id) {
            Some(i) => {
                let ghost before = self.objects@;
                let o = self.objects.remove(i);
                proof {
                    assert forall|a: int, b: int|
                        0 <= a < self.objects@.len() && 0 <= b < self.objects@.len() && a != b implies
                        #[trigger] self.objects@[a].spec_id() != #[trigger] self.objects@[b].spec_id() by {
                        let a2 = if a < i { a } else { a + 1 };
                        let b2 = if b < i { b } else { b + 1 };
                        assert(self.objects@[a] == before[a2]);
                        assert(self.objects@[b] == before[b2]);
                    }
                }
                Some(o)
            },
            None => None,
        }
    }

    /// The identifiers, in registration order.
    pub fn ids(&self) -> (r: Vec<SharedObjectId>)
        requires
            self.wf(),
        ensures
            r@ == shared_ids_of(self.spec_objects()),
    {
        let mut out: Vec<SharedObjectId> = Vec::new();
        let mut i: usize = 0;
        while i < self.objects.len()
            invariant
                self.wf(),
                i <= self.objects@.len(),
                out@ == shared_ids_of(self.objects@).take(i as int),
            decreases self.objects@.len() - i,
        {
            out.push(self.objects[i].id());
            proof {
                assert(shared_ids_of(self.objects@).take(i + 1) =~= shared_ids_of(self.objects@).take(i as int).push(self.objects@[i as int].spec_id()));
            }
            i += 1;
        }
        proof {
            assert(shared_ids_of(self.objects@).take(i as int) =~= shared_ids_of(self.objects@));
        }
        out
    }

    pub fn len(&self) -> (n: usize)
        ensures
            n == self.spec_objects().len(),
    {
        self.objects.len()
    }

    /// The registered objects, in registration order.
    pub fn objects(&self) -> (r: &Vec<T>)
        ensures
            r@ == self.spec_objects(),
    {
        &self.objects
    }

    pub fn is_empty(&self) -> (b: bool)
        ensures
            b == (self.spec_objects().len() == 0),
    {
        self.objects.len() == 0
    }

    pub fn clear(&mut self)
        ensures
            final(self).wf(),
            final(self).spec_objects().len() == 0,
    {
        self.objects.clear();
    }

    /// Whether an object is registered under `id`.
    pub fn contains(&self, id: &SharedObjectId) -> (b: bool)
        requires
            self.wf(),
        ensures
            b == shared_has_id(self.spec_objects(), *id),
    {
        self.position(id).is_some()
    }
}

} // verus!
