//! Codec for the Raspberry Pi HAT EEPROM binary format: a fixed header, a
//! sequence of typed, length-prefixed atoms and an optional CRC-32 trailer.

pub mod atoms;
pub mod device;
pub mod discovery;
pub mod eeprom;
pub mod error;
pub mod parse;
pub mod serialize;
pub mod sim800;
pub mod theorems;
pub mod transport;
pub mod utils;
pub mod wire;

pub use error::EhatromError;
pub use atoms::{AtomHeader, AtomType, CustomAtom, DtBlobAtom, EepromAtom, EepromHeader, GpioMapAtom,
    VendorInfoAtom};
pub use eeprom::Eeprom;
