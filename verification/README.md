# faust

Readers for the data files of Rome: Total War and Medieval II mods, and the
model of a catalog site built from what they hold: factions with their
rosters, regions, mercenary pools and areas of recruitment.

The library (`src/`) is written in Verus. Each reader is a function from the
text (or bytes) of a data file to its records, with a contract over spec
functions that say what the file format means; the building of the site's
model is proved against specifications of what each faction, unit, pool and
area of recruitment shows.

- `chars`, `numbers`, `bignum`, `records`, `order`: text as character
  sequences, numbers in text (read as `f64` reads them, with large decimal
  numbers where rounding needs them), records of keyword lines, and the
  order of names.
- `parse`: one module per data file (`descr_*`, `export_descr_*`, text
  files, `.sd` sprite sheets), requirements and their evaluation (`eval`),
  and facts about units and buildings (`model`).
- `catalog`: what a unit's attributes, mount and weapons make of it.
- `site`: the site's model, built from the parsed data, and the module
  (id, name, banner, eras) that holds it.
- `render`: preloads, web paths, where the site keeps each image, the
  pages of the site and their URLs, and the pixel work on the map of
  regions.

`app/` is the command line program: it reads a mod's manifest and files,
calls the readers, builds the model and the module. `tests/` exercises the library.
