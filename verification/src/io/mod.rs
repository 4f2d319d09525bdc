//! File formats: recognising a format by its file extension, writing binary
//! STL, and reading FreeCAD documents.

use vstd::prelude::*;

use crate::io::fcstd::FcStdError;
use crate::kernel::error::{KernelError, KernelErrorKind};
use crate::mesh::MeshBuffer;
use crate::text::{ascii_bytes, ascii_lower, str_equal, to_ascii_lowercase};

pub mod entry_order;
pub mod fcstd;
pub mod xml;
pub mod zip_archive;

verus! {

#[derive(Debug, Clone, Copy, PartialEq, Eq, Structural)]
pub enum Format {
    Step,
    Brep,
    /// FreeCAD document (shapes only).
    FcStd,
}

/// The format of a file whose (already lower-cased) extension is `ext`.
pub open spec fn format_of_lowercase(ext: Seq<char>) -> Option<Format> {
    if ext == "step"@ || ext == "stp"@ {
        Some(Format::Step)
    } else if ext == "brep"@ || ext == "brp"@ || ext == "brep.gz"@ {
        Some(Format::Brep)
    } else if ext == "fcstd"@ {
        Some(Format::FcStd)
    } else {
        None
    }
}

/// The extensions of each format, written out: `step` and `stp` are STEP,
/// `brep`, `brp` and `brep.gz` are BREP, `fcstd` is a FreeCAD document, and
/// nothing else names a format.
pub proof fn lemma_format_extensions(e: Seq<char>)
    ensures
        format_of_lowercase(e) == Some(Format::Step) <==> (e == "step"@ || e == "stp"@),
        format_of_lowercase(e) == Some(Format::Brep) <==> (e == "brep"@ || e == "brp"@ || e == "brep.gz"@),
        format_of_lowercase(e) == Some(Format::FcStd) <==> e == "fcstd"@,
        format_of_lowercase(e) is None <==> !(e == "step"@ || e == "stp"@ || e == "brep"@ || e == "brp"@ || e
            == "brep.gz"@ || e == "fcstd"@),
{
    reveal_strlit("step");
    reveal_strlit("stp");
    reveal_strlit("brep");
    reveal_strlit("brp");
    reveal_strlit("brep.gz");
    reveal_strlit("fcstd");
    assert("step"@[0] != "brep"@[0] && "stp"@[0] != "brp"@[0]);
    assert("step"@ != "brep"@ && "stp"@ != "brp"@);
    assert("fcstd"@.len() == 5 && "step"@.len() == 4 && "stp"@.len() == 3 && "brep"@.len() == 4 && "brp"@.len()
        == 3 && "brep.gz"@.len() == 7);
    assert("fcstd"@ != "step"@ && "fcstd"@ != "stp"@ && "fcstd"@ != "brep"@ && "fcstd"@ != "brp"@ && "fcstd"@
        != "brep.gz"@);
}

impl Format {
    /// The format named by a file extension, compared without regard to ASCII
    /// case.
    pub fn from_extension(ext: &str) -> (r: Option<Format>)
        ensures
            r == format_of_lowercase(ext@.map_values(|c: char| ascii_lower(c))),
            r == Some(Format::Step) <==> (ext@.map_values(|c: char| ascii_lower(c)) == "step"@ || ext@.map_values(
                |c: char| ascii_lower(c),
            ) == "stp"@),
            r == Some(Format::Brep) <==> (ext@.map_values(|c: char| ascii_lower(c)) == "brep"@ || ext@.map_values(
                |c: char| ascii_lower(c),
            ) == "brp"@ || ext@.map_values(|c: char| ascii_lower(c)) == "brep.gz"@),
            r == Some(Format::FcStd) <==> ext@.map_values(|c: char| ascii_lower(c)) == "fcstd"@,
    {
        proof {
            lemma_format_extensions(ext@.map_values(|c: char| ascii_lower(c)));
        }
        let lower = to_ascii_lowercase(ext);
        let e = lower.as_str();
        if str_equal(e, "step") || str_equal(e, "stp") {
            Some(Format::Step)
        } else if str_equal(e, "brep") || str_equal(e, "brp") || str_equal(e, "brep.gz") {
            Some(Format::Brep)
        } else if str_equal(e, "fcstd") {
            Some(Format::FcStd)
        } else {
            None
        }
    }
}

/// A document-reading failure as the kernel reports it: every such failure is
/// a parse-class problem, described by the reader's message.
pub fn fcstd_kernel_error(e: &FcStdError) -> (k: KernelError)
    ensures
        k.kind == KernelErrorKind::Parse,
        k.message@ == e.message(),
{
    let text = e.to_string();
    KernelError::new(KernelErrorKind::Parse, text.as_str())
}

/// Little-endian bytes of a 32-bit value.
pub open spec fn le_bytes(x: u32) -> Seq<u8> {
    seq![(x % 256) as u8, ((x / 256) % 256) as u8, ((x / 65536) % 256) as u8, (x / 16777216) as u8]
}

/// Big-endian bytes of a 32-bit value.
pub open spec fn be_bytes(x: u32) -> Seq<u8> {
    le_bytes(x).reverse()
}

/// `u32::to_ne_bytes`: the value's bytes in the machine's byte order, which
/// is little- or big-endian.
#[verifier::external_body]
pub fn u32_ne_bytes(x: u32) -> (b: [u8; 4])
    ensures
        b@ == le_bytes(x) || b@ == be_bytes(x),
{
    x.to_ne_bytes()
}

/// The 80-byte STL header: the exporter's name padded with spaces.
pub open spec fn stl_header() -> Seq<u8> {
    "FreeCAD Rust STL export"@.map_values(|c: char| c as u8) + Seq::new(57, |i: int| 32u8)
}

/// Triangles `0 .. n` of `mesh` whose indices and positions all exist, in order.
pub open spec fn present_triangles<V>(mesh: MeshBuffer<V>, n: nat) -> Seq<int>
    decreases n,
{
    if n == 0 {
        Seq::empty()
    } else {
        let rest = present_triangles(mesh, (n - 1) as nat);
        if mesh.triangle_spec(n - 1) is Some {
            rest.push(n - 1)
        } else {
            rest
        }
    }
}

/// Byte offset of the `i`-th facet record of an STL body.
pub open spec fn facet_offset(i: int) -> int {
    84 + 50 * i
}

/// Whether `out` holds, at facet slot `i`, a record that `facet` produced for
/// the corners of `triangle`, followed by a zero attribute word.
pub open spec fn facet_at<V, F: Fn([V; 3]) -> [u8; 48]>(
    out: Seq<u8>,
    i: int,
    mesh: MeshBuffer<V>,
    triangle: int,
    facet: F,
) -> bool {
    exists|c: [V; 3], rec: [u8; 48]|
        c@ == mesh.triangle_spec(triangle).unwrap() && rec@ == out.subrange(facet_offset(i), facet_offset(i) + 48)
            && #[trigger] facet.ensures((c,), rec) && out[facet_offset(i) + 48] == 0 && out[facet_offset(i) + 49] == 0
}

/// Little-endian bytes of `x`.
fn le_u32(x: u32) -> (b: [u8; 4])
    ensures
        b@ == le_bytes(x),
{
    let b = [(x % 256) as u8, ((x / 256) % 256) as u8, ((x / 65536) % 256) as u8, (x / 16777216) as u8];
    assert(b@ =~= le_bytes(x));
    b
}

/// The number of triangles of `mesh` whose indices and positions all exist.
fn present_count<V: Copy>(mesh: &MeshBuffer<V>) -> (c: usize)
    ensures
        c == present_triangles(*mesh, mesh.indices@.len() / 3).len(),
{
    let n = mesh.triangle_count();
    let mut c: usize = 0;
    let mut t: usize = 0;
    while t < n
        invariant
            t <= n,
            n == mesh.indices@.len() / 3,
            c == present_triangles(*mesh, t as nat).len(),
            c <= t,
        decreases n - t,
    {
        if mesh.triangle_at(t).is_some() {
            c = c + 1;
        }
        t = t + 1;
    }
    c
}

/// Binary STL export from a tessellated mesh buffer.
///
/// Layout: the 80-byte header, the number of facet records as a
/// little-endian 32-bit integer, then one 50-byte record per triangle whose
/// corners exist: the 48 bytes `facet` makes of its three corners (normal
/// and vertices) and a zero attribute word.
pub fn export_stl<V: Copy, F: Fn([V; 3]) -> [u8; 48]>(mesh: &MeshBuffer<V>, facet: F) -> (out: Vec<u8>)
    requires
        forall|c: [V; 3]| facet.requires((c,)),
    ensures
        out@.len() == 84 + 50 * present_triangles(*mesh, mesh.indices@.len() / 3).len(),
        out@.subrange(0, 80) == stl_header(),
        out@.subrange(80, 84) == le_bytes(present_triangles(*mesh, mesh.indices@.len() / 3).len() as u32),
        forall|i: int|
            0 <= i < present_triangles(*mesh, mesh.indices@.len() / 3).len() ==> facet_at(
                out@,
                i,
                *mesh,
                #[trigger] present_triangles(*mesh, mesh.indices@.len() / 3)[i],
                facet,
            ),
{
    let n = mesh.triangle_count();
    let records = present_count(mesh);
    let tris = #[verifier::truncate] (records as u32);
    let mut out: Vec<u8> = Vec::new();
    proof {
        reveal_strlit("FreeCAD Rust STL export");
    }
    let name = ascii_bytes("FreeCAD Rust STL export");
    let mut i: usize = 0;
    while i < name.len()
        invariant
            i <= name@.len(),
            name@ == "FreeCAD Rust STL export"@.map_values(|c: char| c as u8),
            out@ == name@.take(i as int),
        decreases name@.len() - i,
    {
        out.push(name[i]);
        i = i + 1;
        assert(out@ =~= name@.take(i as int));
    }
    assert(name@.take(name@.len() as int) =~= name@);
    while out.len() < 80
        invariant
            name@.len() == 23,
            23 <= out@.len() <= 80,
            out@ == name@ + Seq::new((out@.len() - 23) as nat, |k: int| 32u8),
        decreases 80 - out@.len(),
    {
        out.push(32u8);
        assert(out@ =~= name@ + Seq::new((out@.len() - 23) as nat, |k: int| 32u8));
    }
    let count = le_u32(tris);
    let mut k: usize = 0;
    while k < 4
        invariant
            k <= 4,
            out@ == stl_header() + count@.take(k as int),
        decreases 4 - k,
    {
        out.push(count[k]);
        k = k + 1;
        assert(out@ =~= stl_header() + count@.take(k as int));
    }
    assert(out@.subrange(0, 80) =~= stl_header());
    assert(out@.subrange(80, 84) =~= count@);
    let ghost head = out@;
    let mut t: usize = 0;
    while t < n
        invariant
            t <= n,
            n == mesh.indices@.len() / 3,
            forall|c: [V; 3]| facet.requires((c,)),
            head.len() == 84,
            out@.subrange(0, 84) == head,
            out@.len() == 84 + 50 * present_triangles(*mesh, t as nat).len(),
            forall|i: int|
                0 <= i < present_triangles(*mesh, t as nat).len() ==> facet_at(
                    out@,
                    i,
                    *mesh,
                    #[trigger] present_triangles(*mesh, t as nat)[i],
                    facet,
                ),
        decreases n - t,
    {
        let ghost before = out@;
        let ghost p = present_triangles(*mesh, t as nat);
        match mesh.triangle_at(t) {
            Some(corners) => {
                let rec = facet(corners);
                let mut b: usize = 0;
                while b < 48
                    invariant
                        b <= 48,
                        out@ == before + rec@.take(b as int),
                    decreases 48 - b,
                {
                    out.push(rec[b]);
                    b = b + 1;
                    assert(out@ =~= before + rec@.take(b as int));
                }
                out.push(0u8);
                out.push(0u8);
                proof {
                    assert(rec@.take(48) =~= rec@);
                    let q = present_triangles(*mesh, (t + 1) as nat);
                    assert(q == p.push(t as int));
                    assert(out@.subrange(0, 84) =~= head);
                    assert forall|i: int| 0 <= i < q.len() implies facet_at(out@, i, *mesh, #[trigger] q[i], facet) by {
                        if i < p.len() {
                            assert(facet_at(before, i, *mesh, p[i], facet));
                            let (c, r) = choose|c: [V; 3], r: [u8; 48]|
                                c@ == mesh.triangle_spec(p[i]).unwrap() && r@ == before.subrange(
                                    facet_offset(i),
                                    facet_offset(i) + 48,
                                ) && #[trigger] facet.ensures((c,), r) && before[facet_offset(i) + 48] == 0
                                    && before[facet_offset(i) + 49] == 0;
                            assert(r@ =~= out@.subrange(facet_offset(i), facet_offset(i) + 48));
                            assert(facet.ensures((c,), r));
                        } else {
                            assert(rec@ =~= out@.subrange(facet_offset(i), facet_offset(i) + 48));
                            assert(facet.ensures((corners,), rec));
                        }
                    }
                }
            },
            None => {
                assert(present_triangles(*mesh, (t + 1) as nat) == p);
            },
        }
        t = t + 1;
    }
    out
}

} // verus!
