# road-drawing

Reading and writing road drawing data, verified with Verus.

The library (`src/`) holds the data handling, each function with a contract
proved by Verus:

- `dxf`, `dxf_reader`, `dxf_writer`: DXF entities (LINE, TEXT, CIRCLE,
  LWPOLYLINE) with numbers kept as literals; the reader of the ENTITIES
  section; the writer, which gives each entity a handle (group code 5,
  numbered from 1), with the proof that reading back what it wrote gives
  the drawing.
- `dxf_index`, `crosswalk`, `comparator`: lookup by layer and station name,
  layer lists, and normalization of DXF text for comparison (handles removed,
  entities sorted), with proofs that it ignores entity order and handles.
- `sections`, `survey`, `road_section`, `grid`, `triangle_csv`: the CSV
  formats of survey sections, road section stations, the grid editor and
  triangle lists.
- `marking`, `params`: marking commands read from JSON text.
- `app_state`: the viewer's state when a file is dropped.
- `text`, `fields`, `number`: the character-level model these are stated in.

`app/` is the command-line tool and the floating-point geometry (road section
layout, triangle placement, distance transformation), which the library does
not model.
