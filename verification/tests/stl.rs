use tmv::mesh::ModelObj;
use tmv::stl::{parse_stl, StlError};

fn triangle_file(corners: &[[f32; 3]]) -> Vec<u8> {
    let mut bytes = Vec::new();
    bytes.extend_from_slice(&[0u8; 80]);
    bytes.extend_from_slice(&((corners.len() / 3) as u32).to_le_bytes());
    for tri in corners.chunks(3) {
        for v in [0.0f32; 3] {
            bytes.extend_from_slice(&v.to_le_bytes());
        }
        for p in tri {
            for c in p {
                bytes.extend_from_slice(&c.to_le_bytes());
            }
        }
        bytes.extend_from_slice(&[0u8; 2]);
    }
    bytes
}

fn position(v: &tmv::mesh::MeshVertex) -> [f32; 3] {
    [f32::from_bits(v.position[0]), f32::from_bits(v.position[1]), f32::from_bits(v.position[2])]
}

#[test]
fn stl_binary_parses_triangles() {
    let mut bytes = Vec::new();
    bytes.extend_from_slice(&[0u8; 80]);
    bytes.extend_from_slice(&1u32.to_le_bytes());
    let mut tri = Vec::new();
    tri.extend_from_slice(&[0.0f32; 3].into_iter().flat_map(|v| v.to_le_bytes()).collect::<Vec<_>>());
    for p in [[0.0f32, 0.0, 0.0], [1.0, 0.0, 0.0], [0.0, 1.0, 0.0]] {
        for c in p {
            tri.extend_from_slice(&c.to_le_bytes());
        }
    }
    tri.extend_from_slice(&[0u8; 2]);
    bytes.extend_from_slice(&tri);

    let model = ModelObj::from_vertices(parse_stl(&bytes).expect("STL should parse"));
    assert_eq!(model.vertices.len(), 3);
    assert_eq!(model.indices.len(), 3);
    assert_eq!(position(&model.vertices[0]), [0.0, 0.0, 0.0]);
}

#[test]
fn stl_corners_in_file_order() {
    let corners = [
        [1.5f32, -2.0, 3.25],
        [4.0, 5.0, 6.0],
        [-7.0, 8.5, 9.0],
        [10.0, 11.0, 12.0],
        [13.0, 14.0, -15.0],
        [16.0, 17.0, 18.0],
    ];
    let bytes = triangle_file(&corners);
    let vertices = parse_stl(&bytes).unwrap();
    assert_eq!(vertices.len(), 6);
    for (v, c) in vertices.iter().zip(corners.iter()) {
        assert_eq!(position(v), *c);
        assert_eq!(v.normal, [0, 0, 0]);
        assert_eq!(v.tex_coord, [0, 0]);
    }
}

#[test]
fn stl_empty_triangle_list() {
    let bytes = triangle_file(&[]);
    assert_eq!(parse_stl(&bytes).unwrap().len(), 0);
}

#[test]
fn stl_short_header_is_an_error() {
    assert_eq!(parse_stl(&[0u8; 79]).unwrap_err(), StlError::Header);
    assert_eq!(parse_stl(&[]).unwrap_err(), StlError::Header);
}

#[test]
fn stl_missing_count_is_an_error() {
    assert_eq!(parse_stl(&[0u8; 80]).unwrap_err(), StlError::TriangleCount);
    assert_eq!(parse_stl(&[0u8; 83]).unwrap_err(), StlError::TriangleCount);
}

#[test]
fn stl_truncated_triangle_is_reported_by_index() {
    let corners = [[0.0f32; 3]; 9];
    let mut bytes = triangle_file(&corners);
    // Drop the attribute word of the last triangle.
    bytes.truncate(bytes.len() - 1);
    assert_eq!(parse_stl(&bytes).unwrap_err(), StlError::Triangle(2));
    // A count larger than the data: the first missing triangle is named.
    let mut bytes = triangle_file(&corners[..3]);
    bytes[80..84].copy_from_slice(&5u32.to_le_bytes());
    assert_eq!(parse_stl(&bytes).unwrap_err(), StlError::Triangle(1));
}

#[test]
fn stl_trailing_bytes_are_ignored() {
    let corners = [[1.0f32, 2.0, 3.0], [4.0, 5.0, 6.0], [7.0, 8.0, 9.0]];
    let bytes = triangle_file(&corners);
    let mut longer = bytes.clone();
    longer.extend_from_slice(&[0xAB; 37]);
    assert_eq!(parse_stl(&bytes).unwrap(), parse_stl(&longer).unwrap());
}

#[test]
fn stl_count_is_little_endian() {
    let mut bytes = vec![0u8; 80];
    bytes.extend_from_slice(&[2, 0, 0, 0]);
    bytes.extend_from_slice(&[0u8; 100]);
    assert_eq!(parse_stl(&bytes).unwrap().len(), 6);
    bytes[81] = 1; // 258 triangles announced
    assert_eq!(parse_stl(&bytes).unwrap_err(), StlError::Triangle(2));
}
