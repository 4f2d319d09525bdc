# freecad

A small CAD stack whose core is verified with Verus.

- `src/` is the verified library: the document model and its undo history,
  indexed triangle meshes (validation, face ranges, the reference cube
  layout), face extraction and the 24-bit pick encoding, the reference
  geometry kernel's bookkeeping, binary STL layout, the `.FCStd` reader
  (`Document.xml` reading rules over quick-xml events, ZIP entries through
  the `zip` crate), and the interaction rules of the modelling UI (chamfer
  types, assembly joint names, sketch edge import). Geometry coordinates are
  generic parameters there: nothing in the library reads a floating-point
  value.
- `app/` holds what works on floating-point numbers or on the platform: the
  `GeometryKernel` contract and its implementation for the reference kernel,
  placements and bounds, file loading, the wgpu viewer with its orbit camera
  and ray picking, the measuring and snapping arithmetic, and the Android JNI
  entry points.
- `tests/` exercises the library on concrete values.
