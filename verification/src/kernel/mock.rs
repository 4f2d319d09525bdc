//! In-memory reference kernel used by tests and as the concrete first user of
//! the kernel contract before any native backend is linked.
//!
//! It tracks which shape handles are alive, hands out fresh handles in
//! increasing order and logs every operation that allocated one. Operations
//! whose inputs are floating-point numbers (primitive sizes, translations,
//! bounds) check those numbers in the application layer and call `allocate`
//! or `check_live` here.

use vstd::prelude::*;

use crate::ids::ShapeId;
use crate::kernel::error::{KernelError, KernelErrorKind};
use crate::kernel::ShapeStats;
use crate::mesh::{FaceRange, MeshBuffer};
use crate::text::{
    ascii_bytes, ascii_seq, concat, contains_chars, decimal, has_prefix, starts_with, str_contains,
    str_from_utf8,
};

verus! {

/// The message reported for a handle that is not alive.
pub open spec fn dead_handle_message(shape: ShapeId) -> Seq<char> {
    "shape#"@ + decimal(shape.0 as nat) + " does not exist or was destroyed"@
}

/// The error reported for a handle that is not alive.
pub open spec fn dead_handle(e: KernelError, shape: ShapeId) -> bool {
    e.kind == KernelErrorKind::InvalidInput && e.message@ == dead_handle_message(shape)
}

#[derive(Debug)]
pub struct MockKernel {
    next_id: u64,
    live_shapes: Vec<ShapeId>,
    op_log: Vec<&'static str>,
}

impl MockKernel {
    /// The handle the next allocation returns.
    pub closed spec fn next(self) -> nat {
        self.next_id as nat
    }

    /// The handles alive, in allocation order.
    pub closed spec fn live(self) -> Seq<ShapeId> {
        self.live_shapes@
    }

    /// The operations that allocated a handle, in order.
    pub closed spec fn log(self) -> Seq<&'static str> {
        self.op_log@
    }

    /// Every live handle was handed out before, and none is alive twice.
    #[verifier::type_invariant]
    spec fn wf(self) -> bool {
        &&& forall|i: int| 0 <= i < self.live_shapes@.len() ==> (#[trigger] self.live_shapes@[i]).0 < self.next_id
        &&& forall|i: int, j: int|
            0 <= i < j < self.live_shapes@.len() ==> self.live_shapes@[i] != self.live_shapes@[j]
    }

    /// Whether one more handle can be handed out.
    pub open spec fn can_allocate(self) -> bool {
        self.next() < u64::MAX
    }

    pub fn new() -> (k: Self)
        ensures
            k.next() == 0,
            k.live() == Seq::<ShapeId>::empty(),
            k.log() == Seq::<&'static str>::empty(),
    {
        MockKernel { next_id: 0, live_shapes: Vec::new(), op_log: Vec::new() }
    }

    pub fn live_shape_count(&self) -> (n: usize)
        ensures
            n == self.live().len(),
    {
        self.live_shapes.len()
    }

    pub fn op_log(&self) -> (log: &[&'static str])
        ensures
            log@ == self.log(),
    {
        self.op_log.as_slice()
    }

    /// Whether one more handle can be handed out.
    pub fn has_free_handle(&self) -> (b: bool)
        ensures
            b == self.can_allocate(),
    {
        self.next_id < u64::MAX
    }

    /// Hands out the next handle, marks it alive and logs `op`.
    pub fn allocate(&mut self, op: &'static str) -> (id: ShapeId)
        requires
            old(self).can_allocate(),
        ensures
            id.0 == old(self).next(),
            !old(self).live().contains(id),
            final(self).next() == old(self).next() + 1,
            final(self).live() == old(self).live().push(id),
            final(self).log() == old(self).log().push(op),
    {
        proof {
            use_type_invariant(&*self);
        }
        let id = ShapeId(self.next_id);
        assert(!self.live_shapes@.contains(id)) by {
            if self.live_shapes@.contains(id) {
                let i = choose|i: int| 0 <= i < self.live_shapes@.len() && self.live_shapes@[i] == id;
                assert(self.live_shapes@[i].0 < self.next_id);
            }
        }
        let mut live: Vec<ShapeId> = Vec::new();
        std::mem::swap(&mut live, &mut self.live_shapes);
        let mut log: Vec<&'static str> = Vec::new();
        std::mem::swap(&mut log, &mut self.op_log);
        live.push(id);
        log.push(op);
        self.next_id = self.next_id + 1;
        self.live_shapes = live;
        self.op_log = log;
        id
    }

    /// Succeeds exactly when `shape` is alive.
    pub fn check_live(&self, shape: ShapeId) -> (r: Result<(), KernelError>)
        ensures
            r is Ok <==> self.live().contains(shape),
            r matches Err(e) ==> dead_handle(e, shape),
    {
        let mut i: usize = 0;
        while i < self.live_shapes.len()
            invariant
                i <= self.live_shapes@.len(),
                forall|j: int| 0 <= j < i ==> self.live_shapes@[j] != shape,
            decreases self.live_shapes@.len() - i,
        {
            if self.live_shapes[i] == shape {
                assert(self.live_shapes@[i as int] == shape);
                return Ok(());
            }
            i = i + 1;
        }
        let text = shape.to_string();
        let message = concat(text.as_str(), " does not exist or was destroyed");
        Err(KernelError::new(KernelErrorKind::InvalidInput, message.as_str()))
    }

    /// Copies `shape` (the translation itself is geometry the mock does not
    /// keep): the source stays alive and a fresh handle is returned.
    pub fn move_by(&mut self, shape: &ShapeId) -> (r: Result<ShapeId, KernelError>)
        requires
            old(self).can_allocate(),
        ensures
            old(self).live().contains(*shape) ==> r == Ok::<ShapeId, KernelError>(ShapeId(old(self).next() as u64))
                && final(self).live() == old(self).live().push(ShapeId(old(self).next() as u64))
                && final(self).log() == old(self).log().push("move_by") && final(self).next()
                == old(self).next() + 1,
            !old(self).live().contains(*shape) ==> (r matches Err(e) && dead_handle(e, *shape))
                && final(self).live() == old(self).live() && final(self).log() == old(self).log()
                && final(self).next() == old(self).next(),
    {
        self.check_live(*shape)?;
        Ok(self.allocate("move_by"))
    }

    /// Accepts text that is valid UTF-8 and carries the STEP header marker.
    pub fn read_step(&mut self, data: &[u8]) -> (r: Result<ShapeId, KernelError>)
        requires
            old(self).can_allocate(),
        ensures
            !vstd::utf8::valid_utf8(data@) ==> (r matches Err(e) && e.kind == KernelErrorKind::Parse
                && e.message@ == "step payload is not utf-8"@) && *final(self) == *old(self),
            vstd::utf8::valid_utf8(data@) && !contains_chars(vstd::utf8::decode_utf8(data@), "ISO-10303-21"@)
                ==> (r matches Err(e) && e.kind == KernelErrorKind::Parse && e.message@
                == "payload lacks ISO-10303-21 STEP header"@) && *final(self) == *old(self),
            vstd::utf8::valid_utf8(data@) && contains_chars(vstd::utf8::decode_utf8(data@), "ISO-10303-21"@)
                ==> r == Ok::<ShapeId, KernelError>(ShapeId(old(self).next() as u64))
                && final(self).live() == old(self).live().push(ShapeId(old(self).next() as u64))
                && final(self).log() == old(self).log().push("read_step") && final(self).next()
                == old(self).next() + 1,
    {
        let text = match str_from_utf8(data) {
            Some(t) => t,
            None => return Err(KernelError::parse("step payload is not utf-8")),
        };
        if !str_contains(text, "ISO-10303-21") {
            return Err(KernelError::parse("payload lacks ISO-10303-21 STEP header"));
        }
        Ok(self.allocate("read_step"))
    }

    /// Accepts payloads that begin with an OCCT BREP signature.
    pub fn read_brep(&mut self, data: &[u8]) -> (r: Result<ShapeId, KernelError>)
        requires
            old(self).can_allocate(),
        ensures
            (has_prefix(data@, ascii_seq("DBRep"@)) || has_prefix(data@, ascii_seq("CASCADE Topology V"@)))
                ==> r == Ok::<ShapeId, KernelError>(ShapeId(old(self).next() as u64))
                && final(self).live() == old(self).live().push(ShapeId(old(self).next() as u64))
                && final(self).log() == old(self).log().push("read_brep") && final(self).next()
                == old(self).next() + 1,
            !(has_prefix(data@, ascii_seq("DBRep"@)) || has_prefix(data@, ascii_seq("CASCADE Topology V"@)))
                ==> (r matches Err(e) && e.kind == KernelErrorKind::Parse && e.message@
                == "payload lacks OCCT BREP signature"@) && *final(self) == *old(self),
    {
        proof {
            reveal_strlit("DBRep");
            reveal_strlit("CASCADE Topology V");
        }
        let dbrep = ascii_bytes("DBRep");
        let cascade = ascii_bytes("CASCADE Topology V");
        if !starts_with(data, dbrep) && !starts_with(data, cascade) {
            return Err(KernelError::parse("payload lacks OCCT BREP signature"));
        }
        Ok(self.allocate("read_brep"))
    }

    /// A minimal STEP document for a live shape.
    pub fn write_step(&mut self, shape: &ShapeId) -> (r: Result<Vec<u8>, KernelError>)
        ensures
            *final(self) == *old(self),
            old(self).live().contains(*shape) ==> (r matches Ok(bytes) && bytes@ == ascii_seq(
                "ISO-10303-21;\nDATA;\nEND-ISO-10303-21;\n"@,
            )),
            !old(self).live().contains(*shape) ==> (r matches Err(e) && dead_handle(e, *shape)),
    {
        self.check_live(*shape)?;
        proof {
            reveal_strlit("ISO-10303-21;\nDATA;\nEND-ISO-10303-21;\n");
        }
        let bytes = ascii_bytes("ISO-10303-21;\nDATA;\nEND-ISO-10303-21;\n");
        Ok(vstd::slice::slice_to_vec(bytes))
    }

    /// A minimal BREP document for a live shape.
    pub fn write_brep(&mut self, shape: &ShapeId) -> (r: Result<Vec<u8>, KernelError>)
        ensures
            *final(self) == *old(self),
            old(self).live().contains(*shape) ==> (r matches Ok(bytes) && bytes@ == ascii_seq(
                "DBRep Drawer\nCASCADE Topology V3\nEnd\n"@,
            )),
            !old(self).live().contains(*shape) ==> (r matches Err(e) && dead_handle(e, *shape)),
    {
        self.check_live(*shape)?;
        proof {
            reveal_strlit("DBRep Drawer\nCASCADE Topology V3\nEnd\n");
        }
        let bytes = ascii_bytes("DBRep Drawer\nCASCADE Topology V3\nEnd\n");
        Ok(vstd::slice::slice_to_vec(bytes))
    }

    /// Shared body of the boolean operations: both operands must be alive
    /// (`a` is checked first), then a fresh handle is logged under `op`.
    fn boolean(&mut self, a: &ShapeId, b: &ShapeId, op: &'static str) -> (r: Result<ShapeId, KernelError>)
        requires
            old(self).can_allocate(),
        ensures
            boolean_outcome(*old(self), *final(self), *a, *b, op, r),
    {
        self.check_live(*a)?;
        self.check_live(*b)?;
        Ok(self.allocate(op))
    }

    pub fn fuse(&mut self, a: &ShapeId, b: &ShapeId) -> (r: Result<ShapeId, KernelError>)
        requires
            old(self).can_allocate(),
        ensures
            boolean_outcome(*old(self), *final(self), *a, *b, "fuse", r),
    {
        self.boolean(a, b, "fuse")
    }

    pub fn cut(&mut self, a: &ShapeId, b: &ShapeId) -> (r: Result<ShapeId, KernelError>)
        requires
            old(self).can_allocate(),
        ensures
            boolean_outcome(*old(self), *final(self), *a, *b, "cut", r),
    {
        self.boolean(a, b, "cut")
    }

    pub fn common(&mut self, a: &ShapeId, b: &ShapeId) -> (r: Result<ShapeId, KernelError>)
        requires
            old(self).can_allocate(),
        ensures
            boolean_outcome(*old(self), *final(self), *a, *b, "common", r),
    {
        self.boolean(a, b, "common")
    }

    /// The tessellation of a live shape: the mock always answers with the unit
    /// cube mesh it is handed, its face ids shifted by 100 so that they cannot
    /// be mistaken for the ids of a freshly built cube.
    pub fn tessellate<V: Copy>(&mut self, shape: &ShapeId, unit_cube: MeshBuffer<V>) -> (r: Result<MeshBuffer<V>, KernelError>)
        requires
            forall|i: int| 0 <= i < unit_cube.faces@.len() ==> #[trigger] unit_cube.faces@[i].face_id + 100 <= u32::MAX,
        ensures
            *final(self) == *old(self),
            !old(self).live().contains(*shape) ==> (r matches Err(e) && dead_handle(e, *shape)),
            old(self).live().contains(*shape) ==> (r matches Ok(mesh) && {
                &&& mesh.positions@ == unit_cube.positions@
                &&& mesh.normals@ == unit_cube.normals@
                &&& mesh.indices@ == unit_cube.indices@
                &&& mesh.faces@.len() == unit_cube.faces@.len()
                &&& forall|i: int| 0 <= i < mesh.faces@.len() ==> #[trigger] mesh.faces@[i] == (FaceRange {
                    face_id: (unit_cube.faces@[i].face_id + 100) as u32,
                    ..unit_cube.faces@[i]
                })
            }),
    {
        self.check_live(*shape)?;
        let MeshBuffer { positions, normals, indices, faces } = unit_cube;
        let mut shifted: Vec<FaceRange> = Vec::with_capacity(faces.len());
        let mut i: usize = 0;
        while i < faces.len()
            invariant
                i <= faces@.len(),
                forall|i: int| 0 <= i < faces@.len() ==> #[trigger] faces@[i].face_id + 100 <= u32::MAX,
                shifted@.len() == i,
                forall|k: int| 0 <= k < i ==> #[trigger] shifted@[k] == (FaceRange {
                    face_id: (faces@[k].face_id + 100) as u32,
                    ..faces@[k]
                }),
            decreases faces@.len() - i,
        {
            let f = faces[i];
            shifted.push(FaceRange { face_id: f.face_id + 100, ..f });
            i = i + 1;
        }
        Ok(MeshBuffer { positions, normals, indices, faces: shifted })
    }

    /// Marks `shape` dead; other handles are untouched.
    pub fn destroy(&mut self, shape: ShapeId)
        ensures
            final(self).live() == old(self).live().filter(|s: ShapeId| s != shape),
            !final(self).live().contains(shape),
            old(self).live().contains(shape) ==> final(self).live().len() + 1 == old(self).live().len(),
            final(self).log() == old(self).log(),
            final(self).next() == old(self).next(),
    {
        proof {
            use_type_invariant(&*self);
        }
        let ghost pred = |s: ShapeId| s != shape;
        let mut kept: Vec<ShapeId> = Vec::new();
        let mut i: usize = 0;
        while i < self.live_shapes.len()
            invariant
                i <= self.live_shapes@.len(),
                pred == (|s: ShapeId| s != shape),
                kept@ == self.live_shapes@.take(i as int).filter(pred),
            decreases self.live_shapes@.len() - i,
        {
            proof {
                reveal(Seq::filter);
                assert(self.live_shapes@.take(i + 1).drop_last() =~= self.live_shapes@.take(i as int));
            }
            let s = self.live_shapes[i];
            if s != shape {
                kept.push(s);
            }
            assert(kept@ =~= self.live_shapes@.take(i + 1).filter(pred));
            i = i + 1;
        }
        proof {
            assert(self.live_shapes@.take(self.live_shapes@.len() as int) =~= self.live_shapes@);
            lemma_filter_out_unique(self.live_shapes@, shape);
            kept@.lemma_filter_len(pred);
        }
        let ghost old_live = self.live_shapes@;
        let next = self.next_id;
        proof {
            assert forall|i: int| 0 <= i < kept@.len() implies (#[trigger] kept@[i]).0 < next by {
                lemma_filter_subset(old_live, pred, i);
                let w = choose|w: int| 0 <= w < old_live.len() && old_live[w] == kept@[i];
                assert(old_live[w].0 < next);
            }
            lemma_filter_no_dup(old_live, pred);
        }
        self.live_shapes = kept;
    }

    /// Topology counts of a live shape (the mock always reports a box).
    pub fn stats(&self, shape: &ShapeId) -> (r: Result<ShapeStats, KernelError>)
        ensures
            self.live().contains(*shape) ==> r == Ok::<ShapeStats, KernelError>(
                ShapeStats { vertices: 8, edges: 12, faces: 6, solids: 1 },
            ),
            !self.live().contains(*shape) ==> (r matches Err(e) && dead_handle(e, *shape)),
    {
        self.check_live(*shape)?;
        Ok(ShapeStats { vertices: 8, edges: 12, faces: 6, solids: 1 })
    }
}

/// What a boolean operation `op` on `a` and `b` does: with both alive it
/// allocates the next handle; otherwise it reports the first dead operand
/// and changes nothing.
pub open spec fn boolean_outcome(
    before: MockKernel,
    after: MockKernel,
    a: ShapeId,
    b: ShapeId,
    op: &'static str,
    r: Result<ShapeId, KernelError>,
) -> bool {
    if !before.live().contains(a) {
        (r matches Err(e) && dead_handle(e, a)) && after == before
    } else if !before.live().contains(b) {
        (r matches Err(e) && dead_handle(e, b)) && after == before
    } else {
        &&& r == Ok::<ShapeId, KernelError>(ShapeId(before.next() as u64))
        &&& after.live() == before.live().push(ShapeId(before.next() as u64))
        &&& after.log() == before.log().push(op)
        &&& after.next() == before.next() + 1
    }
}

/// Every element of a filtered sequence comes from the original one.
proof fn lemma_filter_subset<A>(s: Seq<A>, pred: spec_fn(A) -> bool, i: int)
    requires
        0 <= i < s.filter(pred).len(),
    ensures
        s.contains(s.filter(pred)[i]),
    decreases s.len(),
{
    reveal(Seq::filter);
    let rest = s.drop_last().filter(pred);
    if pred(s.last()) && i == rest.len() {
        assert(s[s.len() - 1] == s.last());
    } else {
        lemma_filter_subset(s.drop_last(), pred, i);
        let w = choose|w: int| 0 <= w < s.drop_last().len() && s.drop_last()[w] == rest[i];
        assert(s[w] == s.drop_last()[w]);
    }
}

/// Filtering out a value that occurs at most once removes one element when
/// it occurs and none otherwise.
proof fn lemma_filter_out_unique(s: Seq<ShapeId>, x: ShapeId)
    requires
        forall|i: int, j: int| 0 <= i < j < s.len() ==> s[i] != s[j],
    ensures
        s.contains(x) ==> s.filter(|v: ShapeId| v != x).len() + 1 == s.len(),
        !s.contains(x) ==> s.filter(|v: ShapeId| v != x).len() == s.len(),
    decreases s.len(),
{
    reveal(Seq::filter);
    if s.len() > 0 {
        let d = s.drop_last();
        assert forall|i: int, j: int| 0 <= i < j < d.len() implies d[i] != d[j] by {
            assert(d[i] == s[i] && d[j] == s[j]);
        }
        lemma_filter_out_unique(d, x);
        if s.last() == x {
            assert(!d.contains(x)) by {
                if d.contains(x) {
                    let w = choose|w: int| 0 <= w < d.len() && d[w] == x;
                    assert(s[w] == s[s.len() - 1]);
                }
            }
        } else {
            assert(s.contains(x) ==> d.contains(x)) by {
                if s.contains(x) {
                    let w = choose|w: int| 0 <= w < s.len() && s[w] == x;
                    assert(w != s.len() - 1);
                    assert(d[w] == x);
                }
            }
            assert(d.contains(x) ==> s.contains(x)) by {
                if d.contains(x) {
                    let w = choose|w: int| 0 <= w < d.len() && d[w] == x;
                    assert(s[w] == x);
                }
            }
        }
    }
}

/// Filtering keeps a sequence free of repeated elements.
proof fn lemma_filter_no_dup<A>(s: Seq<A>, pred: spec_fn(A) -> bool)
    requires
        forall|i: int, j: int| 0 <= i < j < s.len() ==> s[i] != s[j],
    ensures
        forall|i: int, j: int| 0 <= i < j < s.filter(pred).len() ==> s.filter(pred)[i] != s.filter(pred)[j],
    decreases s.len(),
{
    reveal(Seq::filter);
    if s.len() > 0 {
        let d = s.drop_last();
        assert forall|i: int, j: int| 0 <= i < j < d.len() implies d[i] != d[j] by {
            assert(d[i] == s[i] && d[j] == s[j]);
        }
        lemma_filter_no_dup(d, pred);
        let f = d.filter(pred);
        if pred(s.last()) {
            assert forall|i: int| 0 <= i < f.len() implies f[i] != s.last() by {
                lemma_filter_subset(d, pred, i);
                let w = choose|w: int| 0 <= w < d.len() && d[w] == f[i];
                assert(s[w] == d[w]);
            }
        }
    }
}

} // verus!
