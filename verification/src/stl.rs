//! Reader for binary STL files.
//!
//! Layout: an 80-byte header, the triangle count as a little-endian `u32`,
//! then 50 bytes per triangle: a 12-byte facet normal, three corners of
//! three little-endian `f32` each, and a 2-byte attribute word.
use vstd::prelude::*;
use crate::mesh::{MeshVertex, bare_vertex};

verus! {

/// Why a binary STL file could not be read.
#[derive(Debug, Clone, Copy, PartialEq, Eq, Structural)]
pub enum StlError {
    /// The file is shorter than the 80-byte header.
    Header,
    /// The file ends before the 4-byte triangle count.
    TriangleCount,
    /// The file ends inside the triangle with this index.
    Triangle(u32),
}

pub const STL_HEADER_LEN: usize = 80;
pub const STL_TRIANGLES_START: usize = 84;
pub const STL_TRIANGLE_LEN: usize = 50;

/// The little-endian `u32` stored in `b[off..off + 4]`.
pub open spec fn le_u32(b: Seq<u8>, off: int) -> int {
    b[off] + b[off + 1] * 256 + b[off + 2] * 65536 + b[off + 3] * 16777216
}

/// The triangle count stored after the header.
pub open spec fn stl_triangle_count(b: Seq<u8>) -> int {
    le_u32(b, 80)
}

/// Offset of coordinate `c` of corner `v` of triangle `t`.
pub open spec fn corner_offset(t: int, v: int, c: int) -> int {
    84 + 50 * t + 12 + 12 * v + 4 * c
}

/// Vertex `k` of the file: corner `k % 3` of triangle `k / 3`.
pub open spec fn stl_vertex(b: Seq<u8>, k: int) -> MeshVertex {
    let t = k / 3;
    let v = k % 3;
    bare_vertex(
        [
            le_u32(b, corner_offset(t, v, 0)) as u32,
            le_u32(b, corner_offset(t, v, 1)) as u32,
            le_u32(b, corner_offset(t, v, 2)) as u32,
        ],
    )
}

/// What reading the binary STL file `b` gives: the corners of its triangles
/// in file order, three per triangle, or the first part that is cut short.
/// Bytes after the last triangle are not read.
pub open spec fn stl_parse(b: Seq<u8>) -> Result<Seq<MeshVertex>, StlError> {
    if b.len() < 80 {
        Err(StlError::Header)
    } else if b.len() < 84 {
        Err(StlError::TriangleCount)
    } else if b.len() < 84 + 50 * stl_triangle_count(b) {
        Err(StlError::Triangle(((b.len() - 84) / 50) as u32))
    } else {
        Ok(Seq::new((3 * stl_triangle_count(b)) as nat, |k: int| stl_vertex(b, k)))
    }
}

/// Reads the little-endian `u32` at `bytes[off..off + 4]`.
fn read_u32_le(bytes: &[u8], off: usize) -> (r: u32)
    requires
        off + 4 <= bytes@.len(),
    ensures
        r as int == le_u32(bytes@, off as int),
{
    let b0 = bytes[off] as u32;
    let b1 = bytes[off + 1] as u32;
    let b2 = bytes[off + 2] as u32;
    let b3 = bytes[off + 3] as u32;
    b0 + b1 * 256 + b2 * 65536 + b3 * 16777216
}

/// Reads a binary STL file. On success the result holds the three corners
/// of every triangle, in file order, with zero normals and texture
/// coordinates; bytes after the last triangle are ignored.
pub fn parse_stl(bytes: &[u8]) -> (r: Result<Vec<MeshVertex>, StlError>)
    ensures
        match r {
            Ok(v) => stl_parse(bytes@) == Ok::<Seq<MeshVertex>, StlError>(v@),
            Err(e) => stl_parse(bytes@) == Err::<Seq<MeshVertex>, StlError>(e),
        },
{
    let ghost b = bytes@;
    if bytes.len() < STL_HEADER_LEN {
        return Err(StlError::Header);
    }
    if bytes.len() < STL_TRIANGLES_START {
        return Err(StlError::TriangleCount);
    }
    let count = read_u32_le(bytes, STL_HEADER_LEN);
    let mut vertices: Vec<MeshVertex> = Vec::new();
    let mut t: u32 = 0;
    let mut base: usize = STL_TRIANGLES_START;
    while t < count
        invariant
            b == bytes@,
            count as int == stl_triangle_count(b),
            b.len() >= 84,
            t <= count,
            base as int == 84 + 50 * t,
            base <= bytes@.len(),
            vertices@.len() == 3 * t,
            forall|k: int| 0 <= k < 3 * t ==> #[trigger] vertices@[k] == stl_vertex(b, k),
        decreases count - t,
    {
        if bytes.len() - base < STL_TRIANGLE_LEN {
            proof {
                vstd::arithmetic::div_mod::lemma_fundamental_div_mod_converse(
                    b.len() - 84,
                    50,
                    t as int,
                    b.len() - base,
                );
            }
            return Err(StlError::Triangle(t));
        }
        let mut v: usize = 0;
        while v < 3
            invariant
                b == bytes@,
                base as int == 84 + 50 * t,
                base + 50 <= bytes@.len(),
                bytes@.len() <= usize::MAX,
                v <= 3,
                vertices@.len() == 3 * t + v,
                forall|k: int| 0 <= k < 3 * t + v ==> #[trigger] vertices@[k] == stl_vertex(b, k),
            decreases 3 - v,
        {
            let off = base + 12 + 12 * v;
            let x = read_u32_le(bytes, off);
            let y = read_u32_le(bytes, off + 4);
            let z = read_u32_le(bytes, off + 8);
            let vertex = MeshVertex { position: [x, y, z], normal: [0, 0, 0], tex_coord: [0, 0] };
            proof {
                let k = 3 * t + v;
                assert(k / 3 == t && k % 3 == v);
                assert(vertex == stl_vertex(b, k));
            }
            vertices.push(vertex);
            v = v + 1;
        }
        base = base + STL_TRIANGLE_LEN;
        t = t + 1;
    }
    assert(vertices@ =~= Seq::new((3 * stl_triangle_count(b)) as nat, |k: int| stl_vertex(b, k)));
    Ok(vertices)
}


/// A file that reads without error yields three vertices per triangle that
/// its header announces.
pub proof fn lemma_stl_three_vertices_per_triangle(b: Seq<u8>)
    requires
        stl_parse(b) is Ok,
    ensures
        stl_parse(b).unwrap().len() == 3 * stl_triangle_count(b),
{
}

/// Bytes after the last triangle change nothing: a file that reads
/// without error reads the same with anything appended to it.
pub proof fn lemma_stl_ignores_trailing_bytes(b: Seq<u8>, extra: Seq<u8>)
    requires
        stl_parse(b) is Ok,
    ensures
        stl_parse(b + extra) == stl_parse(b),
{
    let b2 = b + extra;
    let n = stl_triangle_count(b);
    assert(stl_triangle_count(b2) == n);
    let s1 = Seq::new((3 * n) as nat, |k: int| stl_vertex(b, k));
    let s2 = Seq::new((3 * n) as nat, |k: int| stl_vertex(b2, k));
    assert forall|k: int| 0 <= k < 3 * n implies #[trigger] s2[k] == s1[k] by {
        let t = k / 3;
        let v = k % 3;
        assert(0 <= t < n);
        assert(corner_offset(t, v, 2) + 3 < 84 + 50 * n) by (nonlinear_arith)
            requires
                0 <= t < n,
                0 <= v < 3,
        ;
    }
    assert(s2 =~= s1);
}


/// The vertex count of a file that reads without error, taken as a `u32`
/// (as the index list of its model counts it), is three per announced
/// triangle: the model shows the file's triangle count.
pub proof fn lemma_stl_model_triangle_count(b: Seq<u8>)
    requires
        stl_parse(b) is Ok,
        3 * stl_triangle_count(b) <= u32::MAX,
    ensures
        ((stl_parse(b).unwrap().len() as u32) as int) / 3 == stl_triangle_count(b),
{
}


/// A complete file is read whole: when the file holds every triangle that
/// the four little-endian count bytes 80..84 announce, reading succeeds
/// with three vertices per announced triangle, and corner `v` of triangle
/// `t` has as coordinates the little-endian words at byte
/// `84 + 50 * t + 12 + 12 * v` and the two words after it.
pub proof fn lemma_stl_reads_every_announced_triangle(b: Seq<u8>)
    requires
        b.len() >= 84,
        b.len() >= 84 + 50 * (b[80] + 256 * b[81] + 65536 * b[82] + 16777216 * b[83]),
    ensures
        stl_parse(b) matches Ok(vs) && {
            let n = b[80] + 256 * b[81] + 65536 * b[82] + 16777216 * b[83];
            &&& vs.len() == 3 * n
            &&& forall|t: int, v: int, c: int|
                0 <= t < n && 0 <= v < 3 && 0 <= c < 3 ==> {
                    let o = 84 + 50 * t + 12 + 12 * v + 4 * c;
                    #[trigger] vs[3 * t + v].position[c] as int
                        == b[o] + 256 * b[o + 1] + 65536 * b[o + 2] + 16777216 * b[o + 3]
                }
        },
{
    let n = b[80] + 256 * b[81] + 65536 * b[82] + 16777216 * b[83];
    assert(stl_triangle_count(b) == n);
    let vs = stl_parse(b).unwrap();
    assert forall|t: int, v: int, c: int|
        0 <= t < n && 0 <= v < 3 && 0 <= c < 3 implies {
            let o = 84 + 50 * t + 12 + 12 * v + 4 * c;
            #[trigger] vs[3 * t + v].position[c] as int
                == b[o] + 256 * b[o + 1] + 65536 * b[o + 2] + 16777216 * b[o + 3]
        } by {
        let k = 3 * t + v;
        assert(k / 3 == t && k % 3 == v);
        assert(0 <= k < 3 * n);
        let o = corner_offset(t, v, c);
        assert(corner_offset(t, v, 2) + 3 < 84 + 50 * n) by (nonlinear_arith)
            requires
                0 <= t < n,
                0 <= v < 3,
        ;
        assert(0 <= le_u32(b, o) < 0x1_0000_0000);
        assert(vs[k] == stl_vertex(b, k));
        if c == 0 {
            assert(vs[k].position[0] as int == le_u32(b, corner_offset(t, v, 0)));
        } else if c == 1 {
            assert(vs[k].position[1] as int == le_u32(b, corner_offset(t, v, 1)));
        } else {
            assert(vs[k].position[2] as int == le_u32(b, corner_offset(t, v, 2)));
        }
    }
}

} // verus!
