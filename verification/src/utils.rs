//! Building blocks that do not depend on the atom codec.

pub mod crc32;
