# geocoord

Geographic coordinates in decimal degrees (`DD`), degrees and decimal minutes (`DDM`),
degrees, minutes and seconds (`DMS`), UTM, UPS and MGRS, with every conversion between them,
their text forms and serde support.

## Layout

* `src/` — the verified library (Verus). Everything that needs no fractional arithmetic:
  * `grid.rs` — zone, band and 100 km square letters; square corners from letters and letters
    from square indices; the zone rule (Norway and Svalbard exceptions); band tables.
  * `mgrs.rs` — MGRS grid references as text: reading (whitespace and case ignored) and
    writing, with the proof that written references read back.
  * `grid_text.rs` — the `<zone><band> <easting> <northing>` text of UTM and UPS: its words,
    and the band/hemisphere letter rules.
  * `angles.rs` — the lexer of angular text, the split into latitude and longitude, the shape
    of an angle and which angle is the latitude.
  * `angular.rs` — hemisphere directions; `text.rs` — characters, trimming, case;
    `wgs84.rs` — the rectifying radius of the transverse Mercator series in exact integers.
* `app/` — the coordinate types with floating-point metres and degrees built on the library:
  projections, range checks, formatting, `FromStr`, serde.
* `tests/` — tests of the library.
