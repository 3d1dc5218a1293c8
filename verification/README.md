# trabant

Satellite pass prediction: TLE and OMM input, SGP4 propagation, frame
transformations, and the search for the rise, culmination and set of each
pass over an observer.

The crate is written in Verus. `src/` is the verified library:

- `text` — the character-level rules the parsers rest on: whitespace
  trimming, decimal integers, and the grammar of decimal float literals.
- `tle` — the TLE reader: field slicing, checksums, integer, decimal,
  eccentricity and exponential fields, the epoch, and the whole record with
  its error messages.
- `calendar` — proleptic Gregorian dates and the day arithmetic on them.
- `eop` — Earth orientation parameter tables keyed by Modified Julian Date,
  the lookup of the records that bracket a date, and the conversions
  between dates and Modified Julian Dates.
- `omm` — the epoch field of OMM records, read as a UTC instant.
- `passes` — the pass search: the scan over sample instants that finds each
  pass, and the bisection that narrows a horizon crossing, as state
  machines that the caller feeds with elevations.
- `optimization` — the caches and adaptive time grid used to speed up
  repeated propagation.
- `coordinates`, `observer` — error types.

`app/` is ordinary Rust around the library: the floating-point SGP4
propagator, coordinate transformations, observer geometry, interpolation
of EOP values, JSON parsing of OMM records, and the drivers that evaluate
elevations for the pass search.

`tests/` runs the library on concrete inputs.
