//! Minimal document model: objects, placements, visibility.
//!
//! The placement of an object is carried as an opaque value of type `P`:
//! nothing in the model reads it, so the model is stated for every choice of
//! placement representation.

use vstd::prelude::*;

use crate::text::{concat, decimal, decimal_string};

verus! {

#[derive(Debug, Clone, Copy, PartialEq, Eq, PartialOrd, Ord, Hash, Default, Structural)]
pub struct ObjectId(pub u32);

impl ObjectId {
    /// Text form of the id, `obj#<n>`.
    pub fn to_string(&self) -> (s: String)
        ensures
            s@ == "obj#"@ + decimal(self.0 as nat),
    {
        let digits = decimal_string(self.0 as u64);
        concat("obj#", digits.as_str())
    }
}

/// A document-level scene object referencing a kernel shape by index.
#[derive(Debug, Clone)]
pub struct SceneObject<P> {
    pub id: ObjectId,
    pub label: String,
    pub object_type: String,
    /// Index into the scene mesh list (`None` for non-geometric objects).
    pub shape_index: Option<usize>,
    pub placement: P,
    pub visible: bool,
}

/// Whether an object is drawn.
pub open spec fn is_visible<P>(o: SceneObject<P>) -> bool {
    o.visible
}

/// Whether an object is drawn and carries geometry.
pub open spec fn is_visible_shape<P>(o: SceneObject<P>) -> bool {
    o.visible && o.shape_index is Some
}

/// Index of the first object with the given id, if any.
pub open spec fn first_with_id<P>(objects: Seq<SceneObject<P>>, id: ObjectId) -> Option<int>
    decreases objects.len(),
{
    if objects.len() == 0 {
        None
    } else if objects[0].id == id {
        Some(0)
    } else {
        match first_with_id(objects.drop_first(), id) {
            Some(i) => Some(i + 1),
            None => None,
        }
    }
}

pub proof fn lemma_first_with_id<P>(objects: Seq<SceneObject<P>>, id: ObjectId)
    ensures
        match first_with_id(objects, id) {
            Some(i) => 0 <= i < objects.len() && objects[i].id == id && forall|j: int|
                0 <= j < i ==> objects[j].id != id,
            None => forall|j: int| 0 <= j < objects.len() ==> objects[j].id != id,
        },
    decreases objects.len(),
{
    if objects.len() > 0 {
        lemma_first_with_id(objects.drop_first(), id);
        if objects[0].id != id {
            assert forall|j: int| 1 <= j < objects.len() implies objects[j] == objects.drop_first()[j
                - 1] by {}
        }
    }
}

/// The objects referenced by `refs`, dereferenced.
pub open spec fn deref_all<P>(refs: Seq<&SceneObject<P>>) -> Seq<SceneObject<P>> {
    refs.map_values(|r: &SceneObject<P>| *r)
}

/// The document: an ordered list of scene objects.
#[derive(Debug, Clone)]
pub struct Document<P> {
    pub objects: Vec<SceneObject<P>>,
}

impl<P> Default for Document<P> {
    fn default() -> (d: Self)
        ensures
            d.objects@ == Seq::<SceneObject<P>>::empty(),
    {
        Document { objects: Vec::new() }
    }
}

impl<P> Document<P> {
    pub fn new() -> (d: Self)
        ensures
            d.objects@ == Seq::<SceneObject<P>>::empty(),
    {
        Document { objects: Vec::new() }
    }

    /// Appends an object and returns its id.
    pub fn add(&mut self, obj: SceneObject<P>) -> (id: ObjectId)
        ensures
            id == obj.id,
            final(self).objects@ == old(self).objects@.push(obj),
    {
        let id = obj.id;
        self.objects.push(obj);
        id
    }

    /// The first object carrying `id`.
    pub fn find(&self, id: ObjectId) -> (r: Option<&SceneObject<P>>)
        ensures
            match first_with_id(self.objects@, id) {
                Some(i) => r == Some(&self.objects@[i]),
                None => r is None,
            },
    {
        proof {
            lemma_first_with_id(self.objects@, id);
        }
        let mut i: usize = 0;
        while i < self.objects.len()
            invariant
                i <= self.objects@.len(),
                forall|j: int| 0 <= j < i ==> self.objects@[j].id != id,
                match first_with_id(self.objects@, id) {
                    Some(k) => 0 <= k < self.objects@.len() && self.objects@[k].id == id && forall|
                        j: int,
                    | 0 <= j < k ==> self.objects@[j].id != id,
                    None => forall|j: int| 0 <= j < self.objects@.len() ==> self.objects@[j].id != id,
                },
            decreases self.objects@.len() - i,
        {
            if self.objects[i].id == id {
                return Some(&self.objects[i]);
            }
            i = i + 1;
        }
        None
    }

    /// The visible objects, in document order.
    pub fn visible_objects(&self) -> (r: Vec<&SceneObject<P>>)
        ensures
            deref_all(r@) == self.objects@.filter(|o: SceneObject<P>| is_visible(o)),
    {
        let ghost pred = |o: SceneObject<P>| is_visible(o);
        let mut out: Vec<&SceneObject<P>> = Vec::new();
        let mut i: usize = 0;
        while i < self.objects.len()
            invariant
                i <= self.objects@.len(),
                pred == (|o: SceneObject<P>| is_visible(o)),
                deref_all(out@) == self.objects@.take(i as int).filter(pred),
            decreases self.objects@.len() - i,
        {
            proof {
                reveal(Seq::filter);
                assert(self.objects@.take(i + 1).drop_last() =~= self.objects@.take(i as int));
            }
            let o = &self.objects[i];
            if o.visible {
                out.push(o);
            }
            assert(deref_all(out@) =~= self.objects@.take(i + 1).filter(pred));
            i = i + 1;
        }
        assert(self.objects@.take(self.objects@.len() as int) =~= self.objects@);
        out
    }

    /// The visible objects that carry geometry, in document order.
    pub fn shape_objects(&self) -> (r: Vec<&SceneObject<P>>)
        ensures
            deref_all(r@) == self.objects@.filter(|o: SceneObject<P>| is_visible_shape(o)),
    {
        let ghost pred = |o: SceneObject<P>| is_visible_shape(o);
        let mut out: Vec<&SceneObject<P>> = Vec::new();
        let mut i: usize = 0;
        while i < self.objects.len()
            invariant
                i <= self.objects@.len(),
                pred == (|o: SceneObject<P>| is_visible_shape(o)),
                deref_all(out@) == self.objects@.take(i as int).filter(pred),
            decreases self.objects@.len() - i,
        {
            proof {
                reveal(Seq::filter);
                assert(self.objects@.take(i + 1).drop_last() =~= self.objects@.take(i as int));
            }
            let o = &self.objects[i];
            if o.visible && o.shape_index.is_some() {
                out.push(o);
            }
            assert(deref_all(out@) =~= self.objects@.take(i + 1).filter(pred));
            i = i + 1;
        }
        assert(self.objects@.take(self.objects@.len() as int) =~= self.objects@);
        out
    }
}

} // verus!
