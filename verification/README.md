# sheaf_agents

Cellular sheaves on graphs for multi-agent coordination, written in Verus.

- `src/` is the verified library, generic over the scalar type:
  - `matrix.rs`: row-major matrices (construction, entry access, transpose, columns)
    with the index arithmetic proved in bounds and injective;
  - `sheaf.rs`: the sheaf itself (stalk dimensions, edges with restriction maps,
    cochain offsets, stalk extraction and update, validation, and the block layout of
    the coboundary matrix);
  - `laws.rs`: properties that relate several operations (stalks tile the cochain,
    a stalk reads back what was written, an added edge is found, neighbour lists match
    edges, transposing twice is the identity);
  - `error.rs`: the error type.
- `app/` is ordinary Rust over `f64`: matrix and vector algebra, the sheaf Laplacian,
  the spectral estimate of cohomology, diffusion and disagreement detection.
- `tests/` runs the library on concrete values.
