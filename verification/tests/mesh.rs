use std::io::Cursor;

use tmv::mesh::{
    assemble_gltf, default_model_obj, default_vertices, obj_vertices, sequential_indices, GltfError,
    GltfPrimitive, MeshVertex, ModelObj,
};

fn bits3(v: [f32; 3]) -> [u32; 3] {
    [v[0].to_bits(), v[1].to_bits(), v[2].to_bits()]
}

fn floats3(v: [u32; 3]) -> [f32; 3] {
    [f32::from_bits(v[0]), f32::from_bits(v[1]), f32::from_bits(v[2])]
}

fn to_bits(v: &[f32]) -> Vec<u32> {
    v.iter().map(|x| x.to_bits()).collect()
}

#[test]
fn obj_parses_triangles() {
    let obj = "v 0 0 0\nv 1 0 0\nv 0 1 0\nf 1 2 3\n";
    let options = tobj::LoadOptions { single_index: true, triangulate: true, ..Default::default() };
    let (models, _materials) =
        tobj::load_obj_buf(&mut Cursor::new(obj.as_bytes()), &options, |_| Err(tobj::LoadError::OpenFileFailed))
            .expect("OBJ should parse");
    let mesh = &models.first().expect("No meshes in OBJ file").mesh;
    let vertices = obj_vertices(&mesh.indices, &to_bits(&mesh.positions), &to_bits(&mesh.normals), &to_bits(&mesh.texcoords));
    let model = ModelObj::from_vertices(vertices);
    assert_eq!(model.vertices.len(), 3);
    assert_eq!(model.indices.len(), 3);
}

#[test]
fn obj_vertices_follow_indices() {
    let positions = to_bits(&[0.0, 0.0, 0.0, 1.0, 2.0, 3.0, 4.0, 5.0, 6.0]);
    let normals = to_bits(&[0.0, 0.0, 1.0, 0.0, 1.0, 0.0, 1.0, 0.0, 0.0]);
    let tex = to_bits(&[0.0, 0.5, 0.25, 0.75, 1.0, 1.0]);
    let indices = vec![2, 0, 1, 2];
    let v = obj_vertices(&indices, &positions, &normals, &tex);
    assert_eq!(v.len(), 4);
    assert_eq!(floats3(v[0].position), [4.0, 5.0, 6.0]);
    assert_eq!(floats3(v[0].normal), [1.0, 0.0, 0.0]);
    assert_eq!(v[0].tex_coord, [1.0f32.to_bits(), 1.0f32.to_bits()]);
    assert_eq!(floats3(v[1].position), [0.0, 0.0, 0.0]);
    assert_eq!(v[1].tex_coord, [0.0f32.to_bits(), 0.5f32.to_bits()]);
    assert_eq!(floats3(v[2].position), [1.0, 2.0, 3.0]);
    assert_eq!(v[3], v[0]);
}

#[test]
fn obj_vertices_without_normals_or_uvs_are_zero() {
    let positions = to_bits(&[1.0, 2.0, 3.0]);
    let v = obj_vertices(&vec![0, 0], &positions, &Vec::new(), &Vec::new());
    assert_eq!(v.len(), 2);
    assert_eq!(v[0].normal, [0, 0, 0]);
    assert_eq!(v[0].tex_coord, [0, 0]);
}

#[test]
fn sequential_indices_count_up() {
    assert_eq!(sequential_indices(0), Vec::<u32>::new());
    assert_eq!(sequential_indices(5), vec![0, 1, 2, 3, 4]);
}

#[test]
fn model_indices_are_sequential() {
    let model = ModelObj::from_vertices(default_vertices());
    assert_eq!(model.indices, vec![0, 1, 2, 3, 4, 5]);
    assert_eq!(model.indices.len() / 3, 2);
}

#[test]
fn default_model_is_unit_quad() {
    let model = default_model_obj();
    assert_eq!(model.vertices.len(), 6);
    assert_eq!(model.indices, vec![0, 1, 2, 3, 4, 5]);
    let expected = [
        ([-0.5f32, 0.5, 0.0], [0.0f32, 0.0]),
        ([-0.5, -0.5, 0.0], [0.0, 1.0]),
        ([0.5, -0.5, 0.0], [1.0, 1.0]),
        ([0.5, -0.5, 0.0], [1.0, 1.0]),
        ([0.5, 0.5, 0.0], [1.0, 0.0]),
        ([-0.5, 0.5, 0.0], [0.0, 0.0]),
    ];
    for (v, (p, t)) in model.vertices.iter().zip(expected.iter()) {
        assert_eq!(floats3(v.position), *p);
        assert_eq!(floats3(v.normal), [0.0, 0.0, 1.0]);
        assert_eq!([f32::from_bits(v.tex_coord[0]), f32::from_bits(v.tex_coord[1])], *t);
    }
}

fn primitive(positions: Option<Vec<[f32; 3]>>, normals: Option<Vec<[f32; 3]>>, tex: Option<Vec<[f32; 2]>>, indices: Option<Vec<u32>>) -> GltfPrimitive {
    GltfPrimitive {
        positions: positions.map(|ps| ps.into_iter().map(bits3).collect()),
        normals: normals.map(|ns| ns.into_iter().map(bits3).collect()),
        tex_coords: tex.map(|ts| ts.into_iter().map(|t| [t[0].to_bits(), t[1].to_bits()]).collect()),
        indices,
    }
}

#[test]
fn gltf_flips_z_and_follows_indices() {
    let prims = vec![primitive(
        Some(vec![[1.0, 2.0, 3.0], [4.0, 5.0, -6.0]]),
        Some(vec![[0.0, 0.0, 1.0], [0.0, 1.0, 0.0]]),
        Some(vec![[0.5, 0.25]]),
        Some(vec![1, 0, 1]),
    )];
    let lists = assemble_gltf(&prims).unwrap();
    assert_eq!(lists.len(), 1);
    let v = &lists[0];
    assert_eq!(v.len(), 3);
    assert_eq!(floats3(v[0].position), [4.0, 5.0, 6.0]);
    assert_eq!(floats3(v[0].normal), [0.0, 1.0, -0.0]);
    // Index 1 has no texture coordinate: it falls back to zero.
    assert_eq!(v[0].tex_coord, [0, 0]);
    assert_eq!(floats3(v[1].position), [1.0, 2.0, -3.0]);
    assert_eq!(floats3(v[1].normal), [0.0, 0.0, -1.0]);
    assert_eq!(v[1].tex_coord, [0.5f32.to_bits(), 0.25f32.to_bits()]);
}

#[test]
fn gltf_without_normals_gives_zero_normals() {
    let prims = vec![
        primitive(Some(vec![[1.0, 1.0, 1.0]]), None, None, Some(vec![0])),
        primitive(Some(vec![[2.0, 2.0, 2.0]]), None, None, Some(vec![0, 0])),
    ];
    let lists = assemble_gltf(&prims).unwrap();
    assert_eq!(lists.len(), 2);
    assert_eq!(lists[1].len(), 2);
    // The missing normal is zero with its Z negated: -0.0.
    assert_eq!(lists[1][0].normal, [0, 0, (-0.0f32).to_bits()]);
    assert_eq!(floats3(lists[1][0].position), [2.0, 2.0, -2.0]);
}

#[test]
fn gltf_errors() {
    assert_eq!(assemble_gltf(&Vec::new()).unwrap_err(), GltfError::NoMeshes);
    let no_pos = vec![primitive(None, None, None, None)];
    assert_eq!(assemble_gltf(&no_pos).unwrap_err(), GltfError::NoPositions);
    let no_idx = vec![primitive(Some(vec![[0.0; 3]]), None, None, None)];
    assert_eq!(assemble_gltf(&no_idx).unwrap_err(), GltfError::NoIndices);
    // The first incomplete primitive decides; later ones are not read.
    let mixed = vec![
        primitive(Some(vec![[0.0; 3]]), None, None, Some(vec![0])),
        primitive(Some(vec![[0.0; 3]]), None, None, None),
        primitive(None, None, None, Some(vec![7])),
    ];
    assert_eq!(assemble_gltf(&mixed).unwrap_err(), GltfError::NoIndices);
}

#[test]
fn vertex_is_plain_data() {
    let v = MeshVertex { position: [1, 2, 3], normal: [4, 5, 6], tex_coord: [7, 8] };
    let w = v;
    assert_eq!(v, w);
}
