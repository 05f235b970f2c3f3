# food_inspections

A food-inspection service: an importer that loads the county's published
inspection results into a database, and a web server that shows inspected
places on a map.

- `src/` is the verified library (Verus): text handling (`text`), inspection
  dates (`datetime`), the records and the importer's decisions (`models`,
  `scraper`), the parsing and reading of the results' XML (`xml`), the grouping of
  places, inspections and violations and the documents the server answers
  with (`web`), and the asset pipeline (`assets`) with the reading of its TOML
  manifest (`manifest`).
- `app/` is the program around it: database access, downloads, file and
  process I/O, the HTTP routes and the conversions to the types that carry
  the outside crates' derives.
- `tests/` run the library on concrete values.
