# tmv

A small 3D model viewer (OBJ, glTF/GLB and binary STL; orbital camera, ground
grid, status panel), split in two:

- `src/` — the verified library (Verus): model-format detection from a path,
  the binary STL reader, assembly of vertex lists from indexed OBJ and glTF
  attributes, the default model, texture mip-chain preparation (decoding,
  halving, row padding for GPU copies), and the status-panel state with its
  frame counter. Coordinates are carried as `f32` bit patterns (`u32`).
- `app/` — the program around it: window, GPU, egui panel, file reading,
  camera and the floating-point parts (face normals, model centring).
- `tests/` — tests of the library.
