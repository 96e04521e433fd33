# ptiff_core

Storage back ends for tiled raster images, written in Verus. Each
public function carries a `requires`/`ensures` contract that Verus proves.

- `src/io/backend/tiff/`: TIFF and BigTIFF. Headers, IFDs (read, write,
  size), write planning for one or several images, tile encoding and
  decoding (LZW, PackBits, Deflate, JPEG, horizontal predictor), the image
  sink and source, and the `ptiff.*` metadata payload.
- `src/io/backend/zarr/`: a single-file Zarr-style container. It holds a
  length-prefixed JSON array header, then fixed-size chunk slots.
- `src/io/backend/pds4/`: a length-prefixed PDS4 XML label, then tiles at
  fixed offsets.
- `src/io/backend/openexr/`, `src/io/backend/isis/`: the format logic of
  those back ends.
- `src/io/`: byte readers and writers, the storage model, the backend
  factory and the traits the back ends implement.

Calls into `flate2`, `zstd`, `jpeg-decoder`, `jpeg-encoder`,
`serde_json` and `quick-xml` go through small trusted wrappers. Each
wrapper's contract describes what the outside crate does and is not
proved. `app/` holds the parts Verus does not check: the in-memory
back end (serde), the process-wide backend registry, the logger and the
parallel tile codec (rayon).
