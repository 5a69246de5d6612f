//! The failures that the codec and its callers report.

use vstd::prelude::*;

verus! {

/// Every failure is a value handed back to the caller.
#[derive(Debug, Clone, Copy, PartialEq, Eq, Structural)]
pub enum EhatromError {
    /// The bus transfer failed.
    I2cError,
    /// The data is not a usable EEPROM image.
    InvalidData,
    /// The destination cannot hold the serialized image.
    BufferTooSmall,
    /// No device answered.
    DeviceNotFound,
    /// The operation took too long.
    Timeout,
    /// The buffer ends before a field that the format requires.
    TooShort,
    /// The first four bytes are not `R-Pi`.
    BadSignature,
    /// No vendor-info atom was decoded.
    MissingVendorInfo,
    /// No GPIO map for bank 0 was decoded.
    MissingGpioBank0,
}

impl EhatromError {
    /// The text of [`EhatromError::message`].
    pub open spec fn message_text(self) -> Seq<char> {
        match self {
            EhatromError::I2cError => "I2C communication error"@,
            EhatromError::InvalidData => "Invalid or corrupted data"@,
            EhatromError::BufferTooSmall => "Buffer too small for operation"@,
            EhatromError::DeviceNotFound => "Device not found"@,
            EhatromError::Timeout => "Timeout during operation"@,
            EhatromError::TooShort => "Not enough data"@,
            EhatromError::BadSignature => "Invalid EEPROM signature"@,
            EhatromError::MissingVendorInfo => "VendorInfo atom not found"@,
            EhatromError::MissingGpioBank0 => "GpioMapBank0 atom not found"@,
        }
    }

    /// A one-line description for people.
    pub fn message(&self) -> (text: &'static str)
        ensures
            text@ == self.message_text(),
    {
        match self {
            EhatromError::I2cError => "I2C communication error",
            EhatromError::InvalidData => "Invalid or corrupted data",
            EhatromError::BufferTooSmall => "Buffer too small for operation",
            EhatromError::DeviceNotFound => "Device not found",
            EhatromError::Timeout => "Timeout during operation",
            EhatromError::TooShort => "Not enough data",
            EhatromError::BadSignature => "Invalid EEPROM signature",
            EhatromError::MissingVendorInfo => "VendorInfo atom not found",
            EhatromError::MissingGpioBank0 => "GpioMapBank0 atom not found",
        }
    }
}

} // verus!
