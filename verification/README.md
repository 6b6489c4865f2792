# draco_core

Core building blocks of the Draco geometry compression library, written in
Verus: every function under `src/` carries a contract that Verus proves.

- `src/` — the verified library: bit and integer utilities, typed indices,
  byte and bit buffers (encoder and decoder), data buffers and attributes,
  point clouds and meshes, the corner table, Edgebreaker connectivity
  decoding with its traversal symbols and topology split events, the
  valence traversal decoder, the rebuilding of a mesh's faces from its
  symbols, mesh traversal orders, metadata skipping, the octahedron
  transform's parameters, parallelogram prediction with its transforms, and
  the choice of a prediction scheme.
- `tests/` — tests of the library on concrete values.
- `app/` — what cannot be verified: the C interface, floating-point vectors
  and interpolation, floating-point reads, and stream output.

Laws of the library are public proof functions named `lemma_*` next to the
functions they speak of, for example `lemma_bits_read_back` (decoder
buffer), `lemma_bit_sequence_read_back` and `lemma_bit_section_end_position`
(decoder buffer), `lemma_bit_section_size` and `lemma_bit_section_calls`
(encoder buffer), `lemma_bit_section_read_back`, `lemma_bit_section_reads`
and `lemma_bit_round_trip` (`bit_sections`: whole bit sections written and
read by sequences of calls), `lemma_opposite_in_other_face` (corner table),
`lemma_parallelogram_round_trip` (prediction) and
`lemma_bit_reversal32_involution` (bit utilities).

The corner table states, for consistent opposite corners, that each
vertex's recorded corner maps to it, that opposite corners stay consistent
with the vertex map after non-manifold vertices are split, and that the
isolated-vertex count is the number of vertices without a corner. The
generic connectivity decoder (`EdgebreakerConnectivityDecoder`) takes its
symbols, split events and start-face answers from a traversal decoder; each
step that uses an answer is a public function with an exact contract
(`decode_symbol_step`, `record_split_event`, `close_start_face`,
`compact_vertex`).

The rebuilding of an Edgebreaker mesh is specified exactly: `rebuilt_mesh`
(in `mesh_edgebreaker_reconstruction`) gives the faces, points, vertex
corners and seams that the symbols, split events, start-face bits and seam
bits make, and `decoded_connectivity` (in `mesh_edgebreaker_decoder`) the
whole connectivity read from a stream.

The entropy-coded parts of a stream (the start-face and seam bits of the
Edgebreaker connectivity, attribute values) are rANS coded. The rANS coder
itself, the symbol coding built on it, the sequential attribute decoders and
the mesh and point cloud decoders and encoders that drive them are not in
this crate: the functions that use entropy-coded data take it as decoded
values, and a caller decodes it first.
