//! Mesh vertices and the assembly of vertex lists from indexed attributes.
use vstd::prelude::*;

verus! {

/// One vertex of a mesh. Every coordinate is the bit pattern of an `f32`.
#[derive(Debug, Clone, Copy, PartialEq, Eq)]
pub struct MeshVertex {
    pub position: [u32; 3],
    pub normal: [u32; 3],
    pub tex_coord: [u32; 2],
}

/// A vertex at `position` whose normal and texture coordinate are zero
/// (`0.0` has the bit pattern `0`).
pub open spec fn bare_vertex(position: [u32; 3]) -> MeshVertex {
    MeshVertex { position, normal: [0u32, 0u32, 0u32], tex_coord: [0u32, 0u32] }
}


/// A loaded model: its vertices, and the index list that draws them.
#[derive(Debug)]
pub struct ModelObj {
    pub vertices: Vec<MeshVertex>,
    pub indices: Vec<u32>,
}

/// `idx` is the sequence `0, 1, ..., n - 1`.
pub open spec fn is_sequential(idx: Seq<u32>, n: int) -> bool {
    &&& idx.len() == n
    &&& forall|i: int| 0 <= i < n ==> #[trigger] idx[i] == i
}

/// The indices `0, 1, ..., count - 1`: every vertex drawn once, in order.
pub fn sequential_indices(count: u32) -> (r: Vec<u32>)
    ensures
        is_sequential(r@, count as int),
{
    let mut r: Vec<u32> = Vec::new();
    let mut i: u32 = 0;
    while i < count
        invariant
            i <= count,
            is_sequential(r@, i as int),
        decreases count - i,
    {
        r.push(i);
        i = i + 1;
    }
    r
}

impl ModelObj {
    /// A model that draws `vertices` in order, three to a triangle. The
    /// vertex count is taken as a `u32`, as the GPU index format is.
    pub fn from_vertices(vertices: Vec<MeshVertex>) -> (r: ModelObj)
        ensures
            r.vertices@ == vertices@,
            is_sequential(r.indices@, (vertices@.len() as u32) as int),
    {
        #[verifier::truncate]
        let count = vertices.len() as u32;
        let indices = sequential_indices(count);
        ModelObj { vertices, indices }
    }
}

// ---------------------------------------------------------------- OBJ ----

/// The vertex that index `i` selects from flat OBJ attribute lists: three
/// position coordinates, three normal coordinates when there are normals,
/// two texture coordinates when there are texture coordinates; missing
/// attributes are zero.
pub open spec fn obj_vertex(positions: Seq<u32>, normals: Seq<u32>, tex: Seq<u32>, i: int) -> MeshVertex {
    MeshVertex {
        position: [positions[3 * i], positions[3 * i + 1], positions[3 * i + 2]],
        normal: if normals.len() == 0 {
            [0u32, 0u32, 0u32]
        } else {
            [normals[3 * i], normals[3 * i + 1], normals[3 * i + 2]]
        },
        tex_coord: if tex.len() == 0 {
            [0u32, 0u32]
        } else {
            [tex[2 * i], tex[2 * i + 1]]
        },
    }
}

/// Every index selects whole attributes inside the lists.
pub open spec fn obj_indices_in_range(indices: Seq<u32>, positions: Seq<u32>, normals: Seq<u32>, tex: Seq<u32>) -> bool {
    forall|j: int|
        0 <= j < indices.len() ==> {
            &&& 3 * (#[trigger] indices[j]) + 2 < positions.len()
            &&& normals.len() != 0 ==> 3 * indices[j] + 2 < normals.len()
            &&& tex.len() != 0 ==> 2 * indices[j] + 1 < tex.len()
        }
}

/// Expands an indexed OBJ mesh (flat coordinate lists, one index list
/// shared by all attributes) into one vertex per index, in index order.
pub fn obj_vertices(indices: &Vec<u32>, positions: &Vec<u32>, normals: &Vec<u32>, tex: &Vec<u32>) -> (r: Vec<MeshVertex>)
    requires
        obj_indices_in_range(indices@, positions@, normals@, tex@),
    ensures
        r@.len() == indices@.len(),
        forall|j: int| 0 <= j < indices@.len() ==>
            #[trigger] r@[j] == obj_vertex(positions@, normals@, tex@, indices@[j] as int),
{
    let (n_positions, n_normals, n_tex) = (positions.len(), normals.len(), tex.len());
    let mut r: Vec<MeshVertex> = Vec::new();
    let mut j: usize = 0;
    while j < indices.len()
        invariant
            j <= indices@.len(),
            n_positions == positions@.len(),
            n_normals == normals@.len(),
            n_tex == tex@.len(),
            obj_indices_in_range(indices@, positions@, normals@, tex@),
            r@.len() == j,
            forall|k: int| 0 <= k < j ==>
                #[trigger] r@[k] == obj_vertex(positions@, normals@, tex@, indices@[k] as int),
        decreases indices@.len() - j,
    {
        let i = indices[j] as usize;
        assert(3 * indices@[j as int] + 2 < positions@.len());
        let position = [positions[3 * i], positions[3 * i + 1], positions[3 * i + 2]];
        let normal = if normals.len() == 0 {
            [0u32, 0u32, 0u32]
        } else {
            [normals[3 * i], normals[3 * i + 1], normals[3 * i + 2]]
        };
        let tex_coord = if tex.len() == 0 {
            [0u32, 0u32]
        } else {
            [tex[2 * i], tex[2 * i + 1]]
        };
        let v = MeshVertex { position, normal, tex_coord };
        assert(v == obj_vertex(positions@, normals@, tex@, indices@[j as int] as int));
        r.push(v);
        j = j + 1;
    }
    r
}


// --------------------------------------------------------------- glTF ----

/// The attributes of one glTF primitive as its accessors give them; an
/// attribute the primitive lacks is `None`.
#[derive(Debug)]
pub struct GltfPrimitive {
    pub positions: Option<Vec<[u32; 3]>>,
    pub normals: Option<Vec<[u32; 3]>>,
    pub tex_coords: Option<Vec<[u32; 2]>>,
    pub indices: Option<Vec<u32>>,
}

/// Why a glTF document yields no model.
#[derive(Debug, Clone, Copy, PartialEq, Eq, Structural)]
pub enum GltfError {
    /// A primitive has no positions.
    NoPositions,
    /// A primitive has no index list.
    NoIndices,
    /// The document has no primitive at all.
    NoMeshes,
}

/// The bit pattern of `-x` for the `f32` whose bit pattern is `x`:
/// negation flips the sign bit.
pub open spec fn neg_bits(x: u32) -> u32 {
    x ^ 0x8000_0000u32
}

/// Converts a glTF vector (right-handed, `-Z` forward) to the viewer's
/// axes (`+Z` forward) by negating its Z coordinate.
pub open spec fn flip_z(p: [u32; 3]) -> [u32; 3] {
    [p[0], p[1], neg_bits(p[2])]
}

/// The vertex that index `i` selects from a primitive's attribute lists:
/// position and normal with Z negated (when there are no normals, the zero
/// normal with its Z negated, i.e. `-0.0`), and the texture coordinate when the list has one for `i`.
pub open spec fn gltf_vertex(p: GltfPrimitive, i: int) -> MeshVertex {
    MeshVertex {
        position: flip_z(p.positions.unwrap()@[i]),
        normal: match p.normals {
            Some(n) => flip_z(n@[i]),
            None => flip_z([0u32, 0u32, 0u32]),
        },
        tex_coord: match p.tex_coords {
            Some(t) => if 0 <= i < t@.len() {
                t@[i]
            } else {
                [0u32, 0u32]
            },
            None => [0u32, 0u32],
        },
    }
}

/// The vertices of a primitive that has positions and indices: one per
/// index, in index order.
pub open spec fn gltf_primitive_vertices(p: GltfPrimitive) -> Seq<MeshVertex> {
    Seq::new(p.indices.unwrap()@.len(), |j: int| gltf_vertex(p, p.indices.unwrap()@[j] as int))
}

/// The primitive has positions and an index list.
pub open spec fn gltf_primitive_complete(p: GltfPrimitive) -> bool {
    p.positions is Some && p.indices is Some
}

/// Every index of a complete primitive selects a position, and a normal
/// when the primitive has normals.
pub open spec fn gltf_indices_in_range(p: GltfPrimitive) -> bool {
    forall|j: int|
        0 <= j < p.indices.unwrap()@.len() ==> {
            &&& (#[trigger] p.indices.unwrap()@[j]) < p.positions.unwrap()@.len()
            &&& p.normals is Some ==> p.indices.unwrap()@[j] < p.normals.unwrap()@.len()
        }
}

/// Every primitive that is reached (all before it complete) and is itself
/// complete has its indices in range.
pub open spec fn gltf_reached_in_range(prims: Seq<GltfPrimitive>) -> bool {
    forall|i: int|
        0 <= i < prims.len() ==> ((forall|j: int| 0 <= j < i ==> gltf_primitive_complete(#[trigger] prims[j]))
            && gltf_primitive_complete(#[trigger] prims[i]) ==> gltf_indices_in_range(prims[i]))
}

/// The error of the first incomplete primitive at or after `from`, if any:
/// a missing position list is reported before a missing index list.
pub open spec fn gltf_first_error(prims: Seq<GltfPrimitive>, from: int) -> Option<GltfError>
    decreases prims.len() - from,
{
    if from >= prims.len() || from < 0 {
        None
    } else if prims[from].positions is None {
        Some(GltfError::NoPositions)
    } else if prims[from].indices is None {
        Some(GltfError::NoIndices)
    } else {
        gltf_first_error(prims, from + 1)
    }
}

/// What the primitives of a glTF document give: the first incomplete
/// primitive's error; `NoMeshes` when there is no primitive; otherwise the
/// vertices of each primitive.
pub open spec fn gltf_assemble(prims: Seq<GltfPrimitive>) -> Result<Seq<Seq<MeshVertex>>, GltfError> {
    match gltf_first_error(prims, 0) {
        Some(e) => Err(e),
        None => if prims.len() == 0 {
            Err(GltfError::NoMeshes)
        } else {
            Ok(Seq::new(prims.len(), |i: int| gltf_primitive_vertices(prims[i])))
        },
    }
}

/// Expands one complete glTF primitive into one vertex per index.
fn primitive_vertices(p: &GltfPrimitive) -> (r: Vec<MeshVertex>)
    requires
        gltf_primitive_complete(*p),
        gltf_indices_in_range(*p),
    ensures
        r@ == gltf_primitive_vertices(*p),
{
    let positions = p.positions.as_ref().unwrap();
    let indices = p.indices.as_ref().unwrap();
    let mut r: Vec<MeshVertex> = Vec::new();
    let mut j: usize = 0;
    while j < indices.len()
        invariant
            gltf_primitive_complete(*p),
            gltf_indices_in_range(*p),
            positions@ == p.positions.unwrap()@,
            indices@ == p.indices.unwrap()@,
            j <= indices@.len(),
            r@.len() == j,
            forall|k: int| 0 <= k < j ==> #[trigger] r@[k] == gltf_vertex(*p, indices@[k] as int),
        decreases indices@.len() - j,
    {
        let i = indices[j] as usize;
        assert(indices@[j as int] < positions@.len());
        let pos = positions[i];
        let position = [pos[0], pos[1], pos[2] ^ 0x8000_0000u32];
        let normal = match &p.normals {
            Some(n) => {
                let nv = n[i];
                [nv[0], nv[1], nv[2] ^ 0x8000_0000u32]
            },
            None => [0u32, 0u32, 0x8000_0000u32],
        };
        let tex_coord = match &p.tex_coords {
            Some(t) => if i < t.len() {
                t[i]
            } else {
                [0u32, 0u32]
            },
            None => [0u32, 0u32],
        };
        let v = MeshVertex { position, normal, tex_coord };
        assert(0u32 ^ 0x8000_0000u32 == 0x8000_0000u32) by (bit_vector);
        assert(v == gltf_vertex(*p, indices@[j as int] as int));
        r.push(v);
        j = j + 1;
    }
    assert(r@ =~= gltf_primitive_vertices(*p));
    r
}

/// Assembles the primitives of a glTF document, in document order, into
/// one vertex list per primitive. Fails on the first primitive without
/// positions or indices, or when there is no primitive at all.
pub fn assemble_gltf(prims: &Vec<GltfPrimitive>) -> (r: Result<Vec<Vec<MeshVertex>>, GltfError>)
    requires
        gltf_reached_in_range(prims@),
    ensures
        match r {
            Ok(lists) => gltf_assemble(prims@) matches Ok(s) && lists@.len() == s.len()
                && forall|i: int| 0 <= i < s.len() ==> (#[trigger] lists@[i])@ == s[i],
            Err(e) => gltf_assemble(prims@) == Err::<Seq<Seq<MeshVertex>>, GltfError>(e),
        },
{
    let mut lists: Vec<Vec<MeshVertex>> = Vec::new();
    let mut i: usize = 0;
    while i < prims.len()
        invariant
            gltf_reached_in_range(prims@),
            i <= prims@.len(),
            forall|j: int| 0 <= j < i ==> gltf_primitive_complete(#[trigger] prims@[j]),
            gltf_first_error(prims@, 0) == gltf_first_error(prims@, i as int),
            lists@.len() == i,
            forall|j: int| 0 <= j < i ==> (#[trigger] lists@[j])@ == gltf_primitive_vertices(prims@[j]),
        decreases prims@.len() - i,
    {
        let p = &prims[i];
        if p.positions.is_none() {
            return Err(GltfError::NoPositions);
        }
        if p.indices.is_none() {
            return Err(GltfError::NoIndices);
        }
        assert(gltf_primitive_complete(prims@[i as int]));
        let v = primitive_vertices(p);
        lists.push(v);
        i = i + 1;
    }
    if prims.len() == 0 {
        return Err(GltfError::NoMeshes);
    }
    Ok(lists)
}


// ----------------------------------------------------------------- laws --

/// Each attribute of an expanded OBJ vertex comes from its own list alone:
/// the position from the positions, the normal from the normals (zero when
/// there are none), and the texture coordinate from the texture list (zero
/// when it is empty), whatever the other lists hold.
pub proof fn lemma_obj_attributes_independent(positions: Seq<u32>, normals: Seq<u32>, tex: Seq<u32>, i: int)
    ensures
        obj_vertex(positions, normals, tex, i).position == [positions[3 * i], positions[3 * i + 1], positions[3 * i + 2]],
        normals.len() != 0 ==> obj_vertex(positions, normals, tex, i).normal == [normals[3 * i], normals[3 * i + 1], normals[3 * i + 2]],
        normals.len() == 0 ==> obj_vertex(positions, normals, tex, i).normal == [0u32, 0u32, 0u32],
        tex.len() != 0 ==> obj_vertex(positions, normals, tex, i).tex_coord == [tex[2 * i], tex[2 * i + 1]],
        tex.len() == 0 ==> obj_vertex(positions, normals, tex, i).tex_coord == [0u32, 0u32],
{
}

/// The vertex lists of a glTF document carry every attribute the file
/// gives: vertex `j` of primitive `i` has the position its index selects
/// with the Z sign bit flipped, the normal the index selects with the Z
/// sign bit flipped whenever the primitive has normals (and `[0, 0, -0.0]`
/// otherwise), and the texture coordinate the index selects when the
/// primitive has one for it (zero otherwise), each independently of the
/// other attributes.
pub proof fn lemma_gltf_attributes_carried(prims: Seq<GltfPrimitive>)
    requires
        gltf_assemble(prims) is Ok,
    ensures
        ({
            let lists = gltf_assemble(prims).unwrap();
            &&& lists.len() == prims.len()
            &&& forall|i: int| 0 <= i < prims.len() ==> (#[trigger] lists[i]).len() == prims[i].indices.unwrap()@.len()
            &&& forall|i: int, j: int| 0 <= i < prims.len() && 0 <= j < prims[i].indices.unwrap()@.len() ==> {
                let p = prims[i];
                let x = p.indices.unwrap()@[j] as int;
                let v = #[trigger] lists[i][j];
                &&& v.position == [p.positions.unwrap()@[x][0], p.positions.unwrap()@[x][1], p.positions.unwrap()@[x][2] ^ 0x8000_0000u32]
                &&& p.normals is Some ==> v.normal == [p.normals.unwrap()@[x][0], p.normals.unwrap()@[x][1], p.normals.unwrap()@[x][2] ^ 0x8000_0000u32]
                &&& p.normals is None ==> v.normal == [0u32, 0u32, 0x8000_0000u32]
                &&& (p.tex_coords is Some && x < p.tex_coords.unwrap()@.len()) ==> v.tex_coord == p.tex_coords.unwrap()@[x]
                &&& (p.tex_coords is None || x >= p.tex_coords.unwrap()@.len()) ==> v.tex_coord == [0u32, 0u32]
            }
        }),
{
    assert(0u32 ^ 0x8000_0000u32 == 0x8000_0000u32) by (bit_vector);
    let lists = gltf_assemble(prims).unwrap();
    assert forall|i: int, j: int| 0 <= i < prims.len() && 0 <= j < prims[i].indices.unwrap()@.len() implies {
        let p = prims[i];
        let x = p.indices.unwrap()@[j] as int;
        let v = #[trigger] lists[i][j];
        &&& v.position == [p.positions.unwrap()@[x][0], p.positions.unwrap()@[x][1], p.positions.unwrap()@[x][2] ^ 0x8000_0000u32]
        &&& p.normals is Some ==> v.normal == [p.normals.unwrap()@[x][0], p.normals.unwrap()@[x][1], p.normals.unwrap()@[x][2] ^ 0x8000_0000u32]
        &&& p.normals is None ==> v.normal == [0u32, 0u32, 0x8000_0000u32]
        &&& (p.tex_coords is Some && x < p.tex_coords.unwrap()@.len()) ==> v.tex_coord == p.tex_coords.unwrap()@[x]
        &&& (p.tex_coords is None || x >= p.tex_coords.unwrap()@.len()) ==> v.tex_coord == [0u32, 0u32]
    } by {
        let p = prims[i];
        let x = p.indices.unwrap()@[j] as int;
        assert(lists[i] == gltf_primitive_vertices(p));
        assert(lists[i][j] == gltf_vertex(p, x));
    }
}

// ------------------------------------------------------ default model ----

/// Bit pattern of `0.5`, half the side of the default quad.
pub const DEFAULT_VERTEX_HALF_SIZE_BITS: u32 = 0x3F00_0000;

/// Bit pattern of `1.0`.
pub const ONE_BITS: u32 = 0x3F80_0000;

/// A vertex of the default quad: in the `z = 0` plane, facing `+Z`.
pub open spec fn quad_vertex(x: u32, y: u32, u: u32, v: u32) -> MeshVertex {
    MeshVertex { position: [x, y, 0u32], normal: [0u32, 0u32, ONE_BITS], tex_coord: [u, v] }
}

/// The default model: a square of side `1.0` centred at the origin in the
/// `z = 0` plane, as two triangles, with the texture mapped onto it
/// (`v` grows downwards).
pub open spec fn default_quad() -> Seq<MeshVertex> {
    let h = DEFAULT_VERTEX_HALF_SIZE_BITS;
    let mh = neg_bits(DEFAULT_VERTEX_HALF_SIZE_BITS);
    seq![
        quad_vertex(mh, h, 0, 0),
        quad_vertex(mh, mh, 0, ONE_BITS),
        quad_vertex(h, mh, ONE_BITS, ONE_BITS),
        quad_vertex(h, mh, ONE_BITS, ONE_BITS),
        quad_vertex(h, h, ONE_BITS, 0),
        quad_vertex(mh, h, 0, 0),
    ]
}

/// The vertices of the default quad.
pub fn default_vertices() -> (r: Vec<MeshVertex>)
    ensures
        r@ == default_quad(),
{
    let h = DEFAULT_VERTEX_HALF_SIZE_BITS;
    let mh = DEFAULT_VERTEX_HALF_SIZE_BITS ^ 0x8000_0000u32;
    let n = [0u32, 0u32, ONE_BITS];
    let mut r: Vec<MeshVertex> = Vec::new();
    r.push(MeshVertex { position: [mh, h, 0], normal: n, tex_coord: [0, 0] });
    r.push(MeshVertex { position: [mh, mh, 0], normal: n, tex_coord: [0, ONE_BITS] });
    r.push(MeshVertex { position: [h, mh, 0], normal: n, tex_coord: [ONE_BITS, ONE_BITS] });
    r.push(MeshVertex { position: [h, mh, 0], normal: n, tex_coord: [ONE_BITS, ONE_BITS] });
    r.push(MeshVertex { position: [h, h, 0], normal: n, tex_coord: [ONE_BITS, 0] });
    r.push(MeshVertex { position: [mh, h, 0], normal: n, tex_coord: [0, 0] });
    assert(r@ =~= default_quad());
    r
}

/// The model shown when no model could be loaded: the default quad, drawn
/// in order.
pub fn default_model_obj() -> (r: ModelObj)
    ensures
        r.vertices@ == default_quad(),
        is_sequential(r.indices@, 6),
{
    let vertices = default_vertices();
    ModelObj::from_vertices(vertices)
}

} // verus!
