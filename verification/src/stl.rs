//! Binary STL encoder.
//!
//! Format (little-endian throughout):
//!   80 bytes: header (zero-filled, reserved for vendor strings)
//!   4 bytes : uint32 triangle count
//!   per triangle (50 bytes):
//!       12 bytes: normal vec3 (f32 x 3)
//!       36 bytes: three vertex vec3 (f32 x 3 x 3)
//!       2 bytes : uint16 attribute byte count (0)
//!
//! Total size = 84 + 50 * triangle_count. Deterministic.
//!
//! Coordinates and normals are handed in as the bit patterns of their `f32`
//! values; the encoder copies them byte for byte.

use vstd::prelude::*;
use crate::bytes::{le_u16, le_u32, push_le_u16, push_le_u32};

verus! {

#[verifier::external_type_specification]
#[verifier::external_body]
pub struct ExIoError(std::io::Error);

/// A triangle mesh: flat xyz triples (f32 bit patterns), flat face index
/// triples, and u,v pairs (f32 bit patterns).
pub struct MeshData {
    pub vertices: Vec<u32>,
    pub faces: Vec<i32>,
    pub tex_coords: Vec<u32>,
}

/// Why an STL encoding failed.
#[derive(Debug)]
pub enum StlError {
    /// A face refers to a vertex that does not exist.
    InvalidFaceIndex,
    /// Writing the encoded bytes failed.
    Io(std::io::Error),
}

impl From<std::io::Error> for StlError {
    fn from(e: std::io::Error) -> (r: Self) {
        StlError::Io(e)
    }
}

impl vstd::std_specs::convert::FromSpecImpl<std::io::Error> for StlError {
    open spec fn obeys_from_spec() -> bool {
        true
    }

    open spec fn from_spec(v: std::io::Error) -> StlError {
        StlError::Io(v)
    }
}

/// Number of complete triangles described by a face index array.
pub open spec fn triangle_count(faces: Seq<i32>) -> nat {
    faces.len() / 3
}

/// Number of complete vertices in a flat coordinate array.
pub open spec fn vertex_count(vertices: Seq<u32>) -> nat {
    vertices.len() / 3
}

/// A face index refers to an existing vertex.
pub open spec fn index_in_range(i: i32, vcount: nat) -> bool {
    0 <= i && i < vcount
}

/// All three indices of triangle `k` refer to existing vertices.
pub open spec fn face_valid(vertices: Seq<u32>, faces: Seq<i32>, k: int) -> bool {
    &&& index_in_range(faces[3 * k], vertex_count(vertices))
    &&& index_in_range(faces[3 * k + 1], vertex_count(vertices))
    &&& index_in_range(faces[3 * k + 2], vertex_count(vertices))
}

/// The twelve bytes of the vec3 stored at triple `i` of a flat array.
pub open spec fn vec3_bytes(flat: Seq<u32>, i: int) -> Seq<u8> {
    le_u32(flat[3 * i]) + le_u32(flat[3 * i + 1]) + le_u32(flat[3 * i + 2])
}

/// The 50-byte record of triangle `k`: normal, three vertices, attribute 0.
pub open spec fn triangle_record(
    vertices: Seq<u32>,
    faces: Seq<i32>,
    normals: Seq<u32>,
    k: int,
) -> Seq<u8> {
    vec3_bytes(normals, k)
        + vec3_bytes(vertices, faces[3 * k] as int)
        + vec3_bytes(vertices, faces[3 * k + 1] as int)
        + vec3_bytes(vertices, faces[3 * k + 2] as int)
        + le_u16(0)
}

/// The records of the first `k` triangles, in order.
#[verifier::opaque]
pub open spec fn triangle_records(
    vertices: Seq<u32>,
    faces: Seq<i32>,
    normals: Seq<u32>,
    k: nat,
) -> Seq<u8>
    decreases k,
{
    if k == 0 {
        Seq::empty()
    } else {
        triangle_records(vertices, faces, normals, (k - 1) as nat) + triangle_record(
            vertices,
            faces,
            normals,
            k - 1,
        )
    }
}

/// The 84-byte preamble: 80 zero bytes, then the triangle count.
pub open spec fn stl_preamble(count: nat) -> Seq<u8> {
    Seq::new(80, |i: int| 0u8) + le_u32(count as u32)
}

/// The full binary STL encoding of a mesh whose faces are all valid.
pub open spec fn stl_bytes(vertices: Seq<u32>, faces: Seq<i32>, normals: Seq<u32>) -> Seq<u8> {
    stl_preamble(triangle_count(faces)) + triangle_records(
        vertices,
        faces,
        normals,
        triangle_count(faces),
    )
}

/// Expected file size for a triangle count.
pub open spec fn spec_expected_size(triangle_count: nat) -> nat {
    84 + 50 * triangle_count
}

/// Every triangle record is 50 bytes long.
pub proof fn lemma_triangle_records_len(
    vertices: Seq<u32>,
    faces: Seq<i32>,
    normals: Seq<u32>,
    k: nat,
)
    ensures
        triangle_records(vertices, faces, normals, k).len() == 50 * k,
    decreases k,
{
    reveal(triangle_records);
    if k > 0 {
        lemma_triangle_records_len(vertices, faces, normals, (k - 1) as nat);
    }
}

/// Size law: the encoding of a mesh whose faces are all valid is
/// `84 + 50 * triangle_count` bytes long, whatever the coordinates are.
pub proof fn lemma_stl_size(vertices: Seq<u32>, faces: Seq<i32>, normals: Seq<u32>)
    ensures
        stl_bytes(vertices, faces, normals).len() == spec_expected_size(triangle_count(faces)),
{
    lemma_triangle_records_len(vertices, faces, normals, triangle_count(faces));
}

/// The 50 bytes at record position `k` of an encoded file.
pub open spec fn record_at(out: Seq<u8>, k: int) -> Seq<u8> {
    out.subrange(84 + 50 * k, 84 + 50 * k + 50)
}

/// The records of the first `m` triangles hold record `k` at bytes
/// `50 * k .. 50 * k + 50`.
proof fn lemma_records_slice(
    vertices: Seq<u32>,
    faces: Seq<i32>,
    normals: Seq<u32>,
    m: nat,
    k: int,
)
    requires
        0 <= k < m,
    ensures
        triangle_records(vertices, faces, normals, m).subrange(50 * k, 50 * k + 50)
            == triangle_record(vertices, faces, normals, k),
    decreases m,
{
    reveal(triangle_records);
    let prev = triangle_records(vertices, faces, normals, (m - 1) as nat);
    let last = triangle_record(vertices, faces, normals, m - 1);
    lemma_triangle_records_len(vertices, faces, normals, (m - 1) as nat);
    assert(triangle_records(vertices, faces, normals, m) == prev + last);
    if k < m - 1 {
        lemma_records_slice(vertices, faces, normals, (m - 1) as nat, k);
        assert((prev + last).subrange(50 * k, 50 * k + 50) =~= prev.subrange(50 * k, 50 * k + 50));
    } else {
        assert((prev + last).subrange(50 * k, 50 * k + 50) =~= last);
    }
}

/// Layout law: the encoding starts with 80 zero bytes and the triangle count
/// (little-endian), and record `k` holds, in order, the three words of
/// triangle `k`'s own normal, the three words of each of its three vertices
/// as its face entries name them, and a zero attribute count.
pub proof fn lemma_stl_layout(vertices: Seq<u32>, faces: Seq<i32>, normals: Seq<u32>)
    ensures
        ({
            let out = stl_bytes(vertices, faces, normals);
            &&& out.len() == 84 + 50 * triangle_count(faces)
            &&& forall|i: int| 0 <= i < 80 ==> out[i] == 0u8
            &&& out.subrange(80, 84) == le_u32(triangle_count(faces) as u32)
            &&& forall|k: int|
                0 <= k < triangle_count(faces) ==> #[trigger] record_at(out, k) == le_u32(
                    normals[3 * k],
                ) + le_u32(normals[3 * k + 1]) + le_u32(normals[3 * k + 2]) + le_u32(
                    vertices[3 * faces[3 * k]],
                ) + le_u32(vertices[3 * faces[3 * k] + 1]) + le_u32(vertices[3 * faces[3 * k] + 2])
                    + le_u32(vertices[3 * faces[3 * k + 1]]) + le_u32(
                    vertices[3 * faces[3 * k + 1] + 1],
                ) + le_u32(vertices[3 * faces[3 * k + 1] + 2]) + le_u32(
                    vertices[3 * faces[3 * k + 2]],
                ) + le_u32(vertices[3 * faces[3 * k + 2] + 1]) + le_u32(
                    vertices[3 * faces[3 * k + 2] + 2],
                ) + seq![0u8, 0u8]
        }),
{
    let count = triangle_count(faces);
    let pre = stl_preamble(count);
    let recs = triangle_records(vertices, faces, normals, count);
    let out = stl_bytes(vertices, faces, normals);
    lemma_stl_size(vertices, faces, normals);
    lemma_triangle_records_len(vertices, faces, normals, count);
    assert(out == pre + recs);
    assert forall|i: int| 0 <= i < 80 implies out[i] == 0u8 by {
        assert(out[i] == pre[i]);
    }
    assert(out.subrange(80, 84) =~= le_u32(count as u32));
    assert forall|k: int| 0 <= k < count implies #[trigger] record_at(out, k) == le_u32(
        normals[3 * k],
    ) + le_u32(normals[3 * k + 1]) + le_u32(normals[3 * k + 2]) + le_u32(
        vertices[3 * faces[3 * k]],
    ) + le_u32(vertices[3 * faces[3 * k] + 1]) + le_u32(vertices[3 * faces[3 * k] + 2]) + le_u32(
        vertices[3 * faces[3 * k + 1]],
    ) + le_u32(vertices[3 * faces[3 * k + 1] + 1]) + le_u32(vertices[3 * faces[3 * k + 1] + 2])
        + le_u32(vertices[3 * faces[3 * k + 2]]) + le_u32(vertices[3 * faces[3 * k + 2] + 1])
        + le_u32(vertices[3 * faces[3 * k + 2] + 2]) + seq![0u8, 0u8] by {
        lemma_records_slice(vertices, faces, normals, count, k);
        assert(k < count);
        assert(50 * k + 50 <= 50 * count) by (nonlinear_arith)
            requires
                k < count,
        ;
        assert(record_at(out, k) =~= recs.subrange(50 * k, 50 * k + 50));
        assert(le_u16(0) =~= seq![0u8, 0u8]);
        let f0 = faces[3 * k] as int;
        let f1 = faces[3 * k + 1] as int;
        let f2 = faces[3 * k + 2] as int;
        assert(vertices[3 * faces[3 * k]] == vertices[3 * f0]);
        assert(vertices[3 * faces[3 * k + 1]] == vertices[3 * f1]);
        assert(vertices[3 * faces[3 * k + 2]] == vertices[3 * f2]);
        assert(triangle_record(vertices, faces, normals, k) =~= le_u32(normals[3 * k]) + le_u32(
            normals[3 * k + 1],
        ) + le_u32(normals[3 * k + 2]) + le_u32(vertices[3 * faces[3 * k]]) + le_u32(
            vertices[3 * faces[3 * k] + 1],
        ) + le_u32(vertices[3 * faces[3 * k] + 2]) + le_u32(vertices[3 * faces[3 * k + 1]])
            + le_u32(vertices[3 * faces[3 * k + 1] + 1]) + le_u32(
            vertices[3 * faces[3 * k + 1] + 2],
        ) + le_u32(vertices[3 * faces[3 * k + 2]]) + le_u32(vertices[3 * faces[3 * k + 2] + 1])
            + le_u32(vertices[3 * faces[3 * k + 2] + 2]) + seq![0u8, 0u8]);
    }
}

/// Triple `t` of a flat array holding at least `count` triples is in bounds.
pub proof fn lemma_triple_in_bounds(t: int, count: int, len: int)
    requires
        0 <= t < count,
        count == len / 3,
        len >= 0,
    ensures
        3 * t + 2 < len,
{
    assert(3 * t + 2 < len) by (nonlinear_arith)
        requires
            0 <= t < count,
            count == len / 3,
            len >= 0,
    ;
}

/// Expected binary STL size in bytes given the triangle count.
pub fn expected_size(triangle_count: usize) -> (n: u64)
    requires
        spec_expected_size(triangle_count as nat) <= u64::MAX,
    ensures
        n == spec_expected_size(triangle_count as nat),
{
    84 + 50 * triangle_count as u64
}

/// Appends the vec3 stored at triple `i` of `flat`.
fn write_vec3(w: &mut Vec<u8>, flat: &Vec<u32>, i: usize)
    requires
        3 * i + 2 < flat.len(),
    ensures
        final(w)@ == old(w)@ + vec3_bytes(flat@, i as int),
{
    let base = i * 3;
    push_le_u32(w, flat[base]);
    push_le_u32(w, flat[base + 1]);
    push_le_u32(w, flat[base + 2]);
    assert(final(w)@ =~= old(w)@ + vec3_bytes(flat@, i as int));
}

/// Appends the 50-byte record of triangle `t` whose vertices are `i0`, `i1`, `i2`.
fn write_triangle(
    w: &mut Vec<u8>,
    vertices: &Vec<u32>,
    normals: &Vec<u32>,
    t: usize,
    i0: usize,
    i1: usize,
    i2: usize,
)
    requires
        3 * t + 2 < normals.len(),
        3 * i0 + 2 < vertices.len(),
        3 * i1 + 2 < vertices.len(),
        3 * i2 + 2 < vertices.len(),
    ensures
        final(w)@ == old(w)@ + (vec3_bytes(normals@, t as int) + vec3_bytes(vertices@, i0 as int)
            + vec3_bytes(vertices@, i1 as int) + vec3_bytes(vertices@, i2 as int) + le_u16(0)),
{
    write_vec3(w, normals, t);
    write_vec3(w, vertices, i0);
    write_vec3(w, vertices, i1);
    write_vec3(w, vertices, i2);
    push_le_u16(w, 0u16);
    assert(w@ =~= old(w)@ + (vec3_bytes(normals@, t as int) + vec3_bytes(vertices@, i0 as int)
        + vec3_bytes(vertices@, i1 as int) + vec3_bytes(vertices@, i2 as int) + le_u16(0)));
}

/// Index of a face entry as a vertex number, if it names an existing vertex.
fn checked_index(i: i32, vcount: usize) -> (r: Option<usize>)
    ensures
        r is Some <==> index_in_range(i, vcount as nat),
        r matches Some(j) ==> j == i,
{
    if i < 0 {
        None
    } else if (i as usize) < vcount {
        Some(i as usize)
    } else {
        None
    }
}

/// Appends the binary STL representation of `mesh` to `w` and returns the
/// number of bytes written; `normals` holds one normal (three f32 bit
/// patterns) per triangle. Trailing face entries that do not form a full
/// triangle are ignored. On a face that names a missing vertex the encoding
/// stops with `InvalidFaceIndex`, after the preamble and the records of the
/// triangles before it.
pub fn write_binary(mesh: &MeshData, normals: &Vec<u32>, w: &mut Vec<u8>) -> (r: Result<
    u64,
    StlError,
>)
    requires
        normals@.len() == 3 * triangle_count(mesh.faces@),
        spec_expected_size(triangle_count(mesh.faces@)) <= u64::MAX,
    ensures
        r is Ok <==> (forall|k: int|
            0 <= k < triangle_count(mesh.faces@) ==> face_valid(mesh.vertices@, mesh.faces@, k)),
        r matches Ok(n) ==> {
            &&& n == spec_expected_size(triangle_count(mesh.faces@))
            &&& final(w)@ == old(w)@ + stl_bytes(mesh.vertices@, mesh.faces@, normals@)
            &&& final(w)@.len() == old(w)@.len() + n
        },
        r is Err ==> r matches Err(StlError::InvalidFaceIndex),
        r is Err ==> exists|k: int|
            0 <= k < triangle_count(mesh.faces@) && !face_valid(mesh.vertices@, mesh.faces@, k)
                && (forall|j: int| 0 <= j < k ==> face_valid(mesh.vertices@, mesh.faces@, j))
                && final(w)@ == old(w)@ + stl_preamble(triangle_count(mesh.faces@))
                + triangle_records(mesh.vertices@, mesh.faces@, normals@, k as nat),
{
    let ghost vs = mesh.vertices@;
    let ghost fs = mesh.faces@;
    let ghost ns = normals@;
    let ghost start = w@;
    let mut k: usize = 0;
    while k < 80
        invariant
            k <= 80,
            w@ == start + Seq::new(k as nat, |i: int| 0u8),
        decreases 80 - k,
    {
        w.push(0u8);
        k = k + 1;
        assert(w@ =~= start + Seq::new(k as nat, |i: int| 0u8));
    }
    let nfaces = mesh.faces.len();
    let count = nfaces / 3;
    #[verifier::truncate]
    let count32 = count as u32;
    push_le_u32(w, count32);
    let ghost prefix = start + stl_preamble(count as nat);
    assert(w@ =~= prefix);
    let vcount = mesh.vertices.len() / 3;
    let mut written: u64 = 84;
    let mut t: usize = 0;
    assert(prefix + triangle_records(vs, fs, ns, 0) =~= prefix) by {
        reveal(triangle_records);
    }
    while t < count
        invariant
            vs == mesh.vertices@,
            fs == mesh.faces@,
            ns == normals@,
            count == triangle_count(fs),
            nfaces == fs.len(),
            prefix == start + stl_preamble(count as nat),
            start == old(w)@,
            vcount == vertex_count(vs),
            ns.len() == 3 * count,
            spec_expected_size(count as nat) <= u64::MAX,
            t <= count,
            written == spec_expected_size(t as nat),
            forall|j: int| 0 <= j < t ==> face_valid(vs, fs, j),
            w@ == prefix + triangle_records(vs, fs, ns, t as nat),
        decreases count - t,
    {
        proof {
            lemma_triple_in_bounds(t as int, count as int, fs.len() as int);
            lemma_triple_in_bounds(t as int, count as int, ns.len() as int);
        }
        let o0 = checked_index(mesh.faces[3 * t], vcount);
        let o1 = checked_index(mesh.faces[3 * t + 1], vcount);
        let o2 = checked_index(mesh.faces[3 * t + 2], vcount);
        match (o0, o1, o2) {
            (Some(i0), Some(i1), Some(i2)) => {
                proof {
                    lemma_triple_in_bounds(i0 as int, vcount as int, vs.len() as int);
                    lemma_triple_in_bounds(i1 as int, vcount as int, vs.len() as int);
                    lemma_triple_in_bounds(i2 as int, vcount as int, vs.len() as int);
                }
                write_triangle(w, &mesh.vertices, normals, t, i0, i1, i2);
                proof {
                    let rec = triangle_record(vs, fs, ns, t as int);
                    let recs = triangle_records(vs, fs, ns, t as nat);
                    assert(triangle_records(vs, fs, ns, (t + 1) as nat) == recs + rec) by {
                        reveal(triangle_records);
                    }
                    assert(prefix + recs + rec =~= prefix + (recs + rec));
                    assert(w@ == prefix + triangle_records(vs, fs, ns, (t + 1) as nat));
                }
                written = written + 50;
                t = t + 1;
            },
            _ => {
                assert(!face_valid(vs, fs, t as int));
                assert(w@ == start + stl_preamble(count as nat) + triangle_records(
                    vs,
                    fs,
                    ns,
                    t as nat,
                ));
                return Err(StlError::InvalidFaceIndex);
            },
        }
    }
    assert(prefix + triangle_records(vs, fs, ns, count as nat) =~= start + stl_bytes(vs, fs, ns));
    proof {
        lemma_stl_size(vs, fs, ns);
    }
    Ok(written)
}

} // verus!
