# iso_extract_jpegs

Finds image files inside ISO 9660 disc images (with Joliet names when the
disc has them) and copies them out to a folder, optionally converting
non-JPEG images to `.jpg` with ImageMagick, without mounting the image.

The crate is written in Verus. `src/` is the verified library:

- `iso.rs` reads volume descriptors, directory records and names
  (ISO 9660 and UTF-16 Joliet), walks the directory tree and locates files;
- `paths.rs` turns a name inside the image into a safe output path (paths
  are byte strings, as the system gives them);
- `jpeg.rs` matches extensions and the JPEG start marker;
- `cli.rs` reads the command line;
- `extractor.rs` decides, step by step, what extracting one file does, and
  counts the outcomes; `run.rs` steps through every image of a run;
- `manifest.rs` writes the JSON manifest (and proves it is the JSON
  document of the run, as `json.rs` renders JSON values), `report.rs` the
  printed summary;
- `errors.rs` the error type, `text.rs` the character-level helpers.

`app/` is the program around it: it reads the image file, writes the output
files and the manifest, runs ImageMagick and prints, each time handing the
library what it read and doing what the library decided.
