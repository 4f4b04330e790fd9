# fishcast

Largemouth bass bait, retrieve and structure suggestions from location plus
live-fetched or caller-supplied conditions, with a general "is now a good
time to fish" outlook.

## Layout

- `src/` is the verified library (Verus). Every value is fixed-point:
  temperatures, pressure, wind, flow and distances in hundredths of their
  unit, coordinates in millionths of a degree, instants in milliseconds
  since the Unix epoch, dates as a year and day of the year.
  - `conditions` classifies time of day, pressure trend, temperature trend
    and season phase, and merges fetched values with caller overrides.
  - `tags` turns resolved conditions into categorical tags.
  - `rules` matches rules against tags, ranks them (weight descending, id
    ascending) and merges their baits and target structures.
  - `outlook` scores favorability now and over the next 48 hours.
  - `weather`, `water`, `solunar`, `location` hold the computing half of
    each live source: building snapshots from service answers, freshest
    readings, level trends, candidate gauge ordering, Knight's solunar
    windows, coordinate checks.
  - `calendar` wraps the few chrono calls the library makes (date and time
    parsing, day of year); `numeric` compares means exactly.
- `tests/` exercises the library from outside.
- `app/` is the service around it: configuration, the axum server, the
  HTTP fetches, serde wire formats, and the floating-point geometry used to
  find nearby gauges.

Species rules are read at start-up from `rules/largemouth_bass.toml`.
