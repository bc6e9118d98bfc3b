# deployment_helper

A deployment and turn helper for Warhammer 40k games, with its rules proved by
Verus.

- `src/` is the verified library: army list parsing, datasheet lookups of base
  sizes and movement, the import plan of an army, phase and turn sequencing,
  the timeline of snapshots, per-unit flags, the tools' click rules and the
  deployment zone colours, and whether a size numeral reads as a positive
  `f32` (decided exactly, in integer arithmetic). Each public function states what it returns in its
  contract; the `lemma_*` proof functions state the laws that span functions.
- `tests/` runs the library on concrete values.
- `app/` is the window around it (Bevy and egui): drawing, dragging, data
  files, and the line-of-sight analysis, which computes on floats with `geo`.
