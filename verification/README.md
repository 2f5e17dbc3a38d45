# ga_sim

A geometrical-acoustics impulse-response simulator. The verified library
(`src/`) holds the parts of the program that work on integers and bytes:

- `wav`: reading 4-channel 32-bit float RIFF/WAVE buffers (chunk walk, format
  checks, frame decoding) and encoding mono 32-bit float WAV files, with the
  proof that a written file reads back through the RIFF framing.
- `text`: decimal formatting, loudspeaker file names and OBJ face lines.
- `mesh`: per-triangle material indices, vertex position offsets and the
  reordering of materials along the acceleration structure's primitives.
- `frequency`: the octave bands and their air absorption coefficients.

`app/` is the program around it: the floating-point ray tracer, renderer,
ambisonic decoder and analysis, file I/O and plotting.
