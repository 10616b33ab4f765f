//! Wiring and stamping logic of the native photonic device models: how each
//! device lays out its terminals, which auxiliary branch rows it owns, and
//! which potential equations it stamps into the MNA system.
//!
//! Numeric values (transmissions, conductances) are carried as an opaque
//! coefficient type `T`; the library decides *where* every entry goes and
//! with which sign, the caller decides what number it is.

pub mod bjt;
pub mod decimal;
pub mod device;
pub mod diode;
pub mod mna;
pub mod model_card;
pub mod mosfet1;
pub mod passive;
pub mod photonic;
pub mod text;
