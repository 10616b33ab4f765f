# fairchild_core

Verified wiring and stamping logic of the circuit simulator's native device
models: how each device lays out its terminals, which auxiliary MNA rows it
owns, and exactly which matrix cells its Jacobian writes, with which sign.

The numeric coefficients (transmissions, conductances, slopes) are carried as
an opaque type `T`; the library decides *where* every entry goes, the caller
decides *what number* it is. Stamps come out as `Stamp<T> { row, col, coef }`
values that a caller adds into its matrix.

Layout:

- `src/mna.rs` — stamps, potential equations, resistors, row bookkeeping.
- `src/device.rs` — node ids and branch-row binding.
- `src/decimal.rs` — decimal digits of `usize`, both ways.
- `src/passive.rs` — WDM mux/demux and the port-relative circulator.
- `src/photonic/` — the bundle-aware optical devices (segment, rotation
  stages, drives, splitter, coupler, modulator, facet, grating, laser, detector,
  circulator, arrayed-waveguide router) and the layout of measured spectrum
  tables (content lines, column meanings).
- `src/bjt.rs`, `src/mosfet1.rs`, `src/diode.rs` — node wiring and Jacobian
  cell patterns of the semiconductor devices.
- `tests/` — executable tests of the library.
- `src/model_card.rs`, `src/photonic/keys.rs`, `src/photonic/names.rs` —
  which model-card key, instance parameter or device parameter name sets
  which parameter, and which names are unrecognised.
- `src/text.rs` — white-space trimming and key comparison.
- `app/` — a few floating-point pieces: matrix assembly from stamps, some
  optical formulas, spectrum-table number parsing and interpolation, and the
  model-card values (defaults, unit conversions and the fallbacks that test
  `f64` values) built on the library's routing, the Gummel–Poon operating
  point, the level-1 MOSFET channel equations and the full PN phase shifter
  and drive evaluations. The time stepping and
  Newton bookkeeping of the devices are not carried over.
