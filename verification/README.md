# lut_mapper

A channel remapper for RGBA images. Each of the red, green and blue channels
goes through its own lookup table (built from a brightness and contrast
setting) and contributes a colour of its own to the output; a desktop viewer
loads a batch of images, shows the remapped preview and exports it.

- `src/` is the verified library:
  - `image_io`: supported file extensions and the export format chosen by name;
  - `pixel`: the stored (premultiplied) pixel form, decoding image files from
    their bytes, encoding images for export, and the GPU read-back;
  - `processing`: the channel mix (lookup tables and colour matrix), the CPU
    pipeline and the dispatch size of the GPU pipeline, with the laws of the mix;
  - `app_state`: the workspace state machine (opening files, load and preview
    events, navigation, status) and its invariants.
- `app/` is the viewer: egui/eframe user interface, file dialogs, reading and
  writing files, worker threads, the floating-point brightness/contrast curve
  and the GPU shader.
- `tests/` runs the library on concrete values.
