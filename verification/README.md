# timelapse

Turns a series of images into a timelapse video with ffmpeg, and checks how bright the images are.

* `src/` is a library verified with Verus. It decides and computes: the brightness of a region, what
  becomes of an image that is too dark or too bright, the debug picture, which files become frames
  and in what order, the list of frames, the ffmpeg command line, what a line of ffmpeg's output
  means, and what comes next in a run.
* `app/` is ordinary Rust around it: files, processes, the processing pipeline, and arithmetic on
  floating-point numbers.
* `tests/` runs the library with the real `image` crate.

The library trusts what `src/imaging.rs` says of the `image` crate, and what `src/version.rs` says
of `String::from_utf8_lossy`.
