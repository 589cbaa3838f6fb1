# snowmelt

Distributed snowmelt tools over a DEM (degree-day, enhanced temperature
index and energy-balance melt), split into a verified library and the
program around it.

- `src/` — the verified library (Verus): the text formats the tools read
  (ESRI ASCII grid layout, the forcing CSV rows and their selection,
  `YYYY-MM-DD` days of the year, `SIM:OBS` pairs), the cover-validation
  confusion matrix, the consistency rules of a run's options, the order in which
  the snow model checks a step's inputs and an initial snowpack, and the
  grid checks of the snow model. Every function carries its contract; the laws
  (calendar order of days, token accounting of a grid file, pooled
  confusion counts) are proof functions.
- `tests/` — tests of the library on concrete inputs.
- `app/` — the `snowmelt` program (and `snowmelt-validate`, the same binary
  under that name): file I/O, the command line, and the snow model itself,
  whose state and physics are floating point and therefore outside the
  verified library.
