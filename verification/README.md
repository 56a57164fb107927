# asset_parsers

Verified readers and writers for the binary formats of a game-modding toolkit:

- G1T texture archives, decoded to PNG data URLs;
- G1M models: header, chunks, geometry, skeleton joints, the checks their mesh data
  must pass, display names, KTID and KidsObj tables, and the checks and ordering that
  replacing their meshes with imported ones needs;
- AINB AI graphs: headers, commands, property and parameter tables, attachments, and
  the string pool of the writer;
- ASB animation sequences: headers, commands, node parameters, node bodies with their
  connections, local blackboards, the writer's string pool, and their EXB expression
  programs, read and written;
- AMTA material-animation metadata, BNTX texture containers and Havok cloth packfiles;
- EVFL event flows: the writer's primitives, dictionaries, string pool and relocation
  table, and the relocation lookup;
- the parameter sections of BPHCL files.

Floats that these formats store are carried by their bit patterns, and tables that
the formats key by type name are lists of (name, entries) pairs in name order.

Every function in `src/` is verified with Verus, but for six small wrappers around
calls into std and the `base64`, `image` and `image_dds` crates, whose contracts are
trusted. The parsers state, over the input
bytes, when they succeed and what they return; where a texture goes through the DDS
decoder and the PNG encoder of outside crates, the contracts speak of their results
by name, and they state the base64 text built from them. The writers state the
bytes they produce. Laws that relate functions stand as public proof functions, among
them:

- `evfl::writer::lemma_lookup_reports_registered_pointers`: the relocation table the
  EVFL writer emits makes the pointer lookup report exactly the registered pointers;
- `ainb::guid::lemma_guid_roundtrip`: a GUID read as text is written back as the same
  sixteen bytes;
- `asb::writer::StringPool::lemma_pool_reads_back` and
  `ainb::common::lemma_pool_placement`: a pooled string lies, zero-terminated, at the
  offset handed out for it once the pool is written;
- `ainb::parameter::lemma_canonical_flags_roundtrip`: parameter flags in canonical
  form come back unchanged from their raw word;
- `asb::node_type::lemma_node_type_names_distinct`: node type names are distinct, so
  `NodeType::from_name` inverts `NodeType::name`;
- the encoding round trips in `binary`, the code tables of the ASB enums, the DDS
  header layout of G1T textures and the triangle lists of G1M strips.

Layout:

- `src/` — the verified library, one module per format, with `binary`, `text` and
  `fmt` for byte order, UTF-8 and number formatting;
- `tests/` — tests on concrete files built byte by byte;
- `app/` — a command-line inspector that reads a file and prints a JSON description;
  it also holds the texture preview's downscaling, which computes in floating point.
