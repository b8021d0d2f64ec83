use tmv::format::ModelFormat;

#[test]
fn format_from_extension() {
    assert_eq!(ModelFormat::from_path("model.obj"), ModelFormat::Obj);
    assert_eq!(ModelFormat::from_path("scene.gltf"), ModelFormat::Gltf);
    assert_eq!(ModelFormat::from_path("scene.glb"), ModelFormat::Glb);
    assert_eq!(ModelFormat::from_path("part.stl"), ModelFormat::Stl);
    assert_eq!(ModelFormat::from_path("image.png"), ModelFormat::Unknown);
}

#[test]
fn format_ignores_case() {
    assert_eq!(ModelFormat::from_path("MODEL.OBJ"), ModelFormat::Obj);
    assert_eq!(ModelFormat::from_path("Scene.GlTf"), ModelFormat::Gltf);
    assert_eq!(ModelFormat::from_path("x.GLB"), ModelFormat::Glb);
    assert_eq!(ModelFormat::from_path("x.Stl"), ModelFormat::Stl);
}

#[test]
fn format_uses_last_extension_of_file_name() {
    assert_eq!(ModelFormat::from_path("archive.obj.stl"), ModelFormat::Stl);
    assert_eq!(ModelFormat::from_path("dir.obj/file"), ModelFormat::Unknown);
    assert_eq!(ModelFormat::from_path("models/cube.obj"), ModelFormat::Obj);
    assert_eq!(ModelFormat::from_path("/abs/path/to/cube.glb"), ModelFormat::Glb);
}

#[test]
fn format_path_edge_cases() {
    // Hidden file without extension.
    assert_eq!(ModelFormat::from_path(".obj"), ModelFormat::Unknown);
    assert_eq!(ModelFormat::from_path("dir/.stl"), ModelFormat::Unknown);
    // Trailing separators and `.` components are skipped.
    assert_eq!(ModelFormat::from_path("cube.obj/"), ModelFormat::Obj);
    assert_eq!(ModelFormat::from_path("cube.obj/."), ModelFormat::Obj);
    assert_eq!(ModelFormat::from_path("cube.obj/.//"), ModelFormat::Obj);
    // A parent-directory component has no file name.
    assert_eq!(ModelFormat::from_path("cube.obj/.."), ModelFormat::Unknown);
    assert_eq!(ModelFormat::from_path(""), ModelFormat::Unknown);
    assert_eq!(ModelFormat::from_path("/"), ModelFormat::Unknown);
    assert_eq!(ModelFormat::from_path("noext"), ModelFormat::Unknown);
    assert_eq!(ModelFormat::from_path("trailingdot."), ModelFormat::Unknown);
    assert_eq!(ModelFormat::from_path("..obj"), ModelFormat::Obj);
    assert_eq!(ModelFormat::from_path("a.objx"), ModelFormat::Unknown);
    assert_eq!(ModelFormat::from_path("a.ob"), ModelFormat::Unknown);
}

#[test]
fn format_agrees_with_std_path_extension() {
    let paths = [
        "a.obj", "a/b.STL", ".glb", "x/.gltf", "y.obj/", "y.obj/.", "y.obj/..", "", "/", ".", "..",
        "a..b.obj", "c.d/e", "f.g.h.glb", "néé.obj", "Ünï.GLTF", "sp ace.stl",
    ];
    for p in paths {
        let ext = std::path::Path::new(p)
            .extension()
            .and_then(|e| e.to_str())
            .map(|e| e.to_lowercase())
            .unwrap_or_default();
        let expected = match ext.as_str() {
            "obj" => ModelFormat::Obj,
            "gltf" => ModelFormat::Gltf,
            "glb" => ModelFormat::Glb,
            "stl" => ModelFormat::Stl,
            _ => ModelFormat::Unknown,
        };
        assert_eq!(ModelFormat::from_path(p), expected, "path {:?}", p);
    }
}
