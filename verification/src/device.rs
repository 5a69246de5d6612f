//! What callers read out of a decoded image: the names as text, and the
//! test whether raw bytes come from a HAT EEPROM at all.

use vstd::prelude::*;
use vstd::slice::slice_subrange;
use vstd::string::StringSliceAdditionalSpecFns;
use vstd::utf8::{decode_utf8, encode_utf8_decode_utf8, encode_utf8_valid_utf8, valid_utf8};
use crate::atoms::signature_bytes;
use crate::eeprom::Eeprom;
use crate::error::EhatromError;
use crate::parse::parse;

verus! {

/// Vendor and product as text.
#[derive(Debug, Clone)]
pub struct DeviceInfo {
    pub vendor: String,
    pub product: String,
}

/// Where a display answers: bus number and address.
#[derive(Debug, Clone)]
pub struct DisplayDevice {
    pub bus: u8,
    pub address: u8,
}

impl DeviceInfo {
    pub fn new(vendor: String, product: String) -> (info: Self)
        ensures
            info.vendor == vendor,
            info.product == product,
    {
        DeviceInfo { vendor, product }
    }

    /// Whether both names are present.
    pub fn is_valid(&self) -> (b: bool)
        ensures
            b == (self.vendor@.len() > 0 && self.product@.len() > 0),
    {
        !self.vendor.as_str().is_empty() && !self.product.as_str().is_empty()
    }
}

impl DisplayDevice {
    pub fn new(bus: u8, address: u8) -> (device: Self)
        ensures
            device.bus == bus,
            device.address == address,
    {
        DisplayDevice { bus, address }
    }
}

/// Whether `buf` starts with the four bytes `R-Pi`.
pub open spec fn starts_with_signature(buf: Seq<u8>) -> bool {
    buf.len() >= 4 && buf.subrange(0, 4) == signature_bytes()
}

/// Whether `buf` starts with the HAT signature `R-Pi`.
pub fn has_hat_signature(buf: &[u8]) -> (b: bool)
    ensures
        b == starts_with_signature(buf@),
{
    if buf.len() < 4 {
        return false;
    }
    let b = buf[0] == 0x52 && buf[1] == 0x2D && buf[2] == 0x50 && buf[3] == 0x69;
    assert(b == (buf@.subrange(0, 4) =~= signature_bytes()));
    b
}

/// Decodes what was read from a device: anything that is not a complete
/// image with the HAT signature is `InvalidData`.
pub fn decode_device_image(buf: &[u8]) -> (r: Result<Eeprom, EhatromError>)
    ensures
        match r {
            Ok(eeprom) => parse(buf@) matches Ok(p) && eeprom@ == p.eeprom,
            Err(e) => e == EhatromError::InvalidData && parse(buf@) is Err,
        },
{
    if has_hat_signature(buf) {
        match Eeprom::from_bytes(buf) {
            Ok(eeprom) => Ok(eeprom),
            Err(_) => Err(EhatromError::InvalidData),
        }
    } else {
        Err(EhatromError::InvalidData)
    }
}

/// Index of the first zero byte of `s`, or its length if it has none.
pub open spec fn nul_position(s: Seq<u8>) -> int
    decreases s.len(),
{
    if s.len() == 0 || s[0] == 0 {
        0
    } else {
        1 + nul_position(s.skip(1))
    }
}

/// The position of the first zero byte lies in the sequence, no byte before
/// it is zero, and a zero stands there unless the sequence has none.
pub proof fn lemma_nul_position(s: Seq<u8>)
    ensures
        0 <= nul_position(s) <= s.len(),
        forall|i: int| 0 <= i < nul_position(s) ==> s[i] != 0,
        nul_position(s) < s.len() ==> s[nul_position(s)] == 0,
    decreases s.len(),
{
    if !(s.len() == 0 || s[0] == 0) {
        lemma_nul_position(s.skip(1));
        assert forall|i: int| 0 <= i < nul_position(s) implies s[i] != 0 by {
            if i > 0 {
                assert(s[i] == s.skip(1)[i - 1]);
            }
        }
    }
}

/// A position with a zero byte and none before it is the first one.
proof fn lemma_nul_position_is(s: Seq<u8>, p: int)
    requires
        0 <= p <= s.len(),
        forall|i: int| 0 <= i < p ==> s[i] != 0,
        p < s.len() ==> s[p] == 0,
    ensures
        nul_position(s) == p,
    decreases s.len(),
{
    if p > 0 {
        assert(s[0] != 0);
        assert forall|i: int| 0 <= i < p - 1 implies s.skip(1)[i] != 0 by {
            assert(s.skip(1)[i] == s[i + 1]);
        }
        lemma_nul_position_is(s.skip(1), p - 1);
    }
}

/// The text of a zero-terminated field: the bytes before the first zero
/// byte, decoded as UTF-8, or nothing if they are not UTF-8.
pub open spec fn clean_text(bytes: Seq<u8>) -> Seq<char> {
    let cut = bytes.take(nul_position(bytes));
    if valid_utf8(cut) {
        decode_utf8(cut)
    } else {
        Seq::empty()
    }
}

/// `core::str::from_utf8`: a string slice over `bytes` when they are valid
/// UTF-8, nothing when they are not. The claim taken on trust is that valid
/// input is never refused and that a slice handed back is made of exactly
/// the given bytes.
#[verifier::external_body]
fn utf8_str(bytes: &[u8]) -> (text: Option<&str>)
    ensures
        valid_utf8(bytes@) ==> text is Some,
        text matches Some(s) ==> s.spec_bytes() == bytes@,
{
    match core::str::from_utf8(bytes) {
        Ok(s) => Some(s),
        Err(_) => None,
    }
}

/// The text of a zero-terminated field.
pub fn clean_string(bytes: &[u8]) -> (text: String)
    ensures
        text@ == clean_text(bytes@),
{
    let n: usize = bytes.len();
    let mut p: usize = 0;
    while p < n && bytes[p] != 0
        invariant
            p <= n,
            n == bytes@.len(),
            forall|i: int| 0 <= i < p ==> bytes@[i] != 0,
        decreases n - p,
    {
        p += 1;
    }
    proof {
        lemma_nul_position_is(bytes@, p as int);
    }
    let cut = slice_subrange(bytes, 0, p);
    assert(cut@ =~= bytes@.take(p as int));
    match utf8_str(cut) {
        Some(s) => {
            proof {
                encode_utf8_valid_utf8(s@);
                encode_utf8_decode_utf8(s@);
            }
            s.to_owned()
        },
        None => String::new(),
    }
}

/// Length of `bytes` without its trailing zero bytes.
pub open spec fn trimmed_len(bytes: Seq<u8>) -> int
    decreases bytes.len(),
{
    if bytes.len() == 0 || bytes.last() != 0 {
        bytes.len() as int
    } else {
        trimmed_len(bytes.drop_last())
    }
}

/// How many bytes of a zero-padded field are shown: all but the trailing
/// zero bytes.
pub fn shown_len(bytes: &[u8]) -> (n: usize)
    ensures
        n == trimmed_len(bytes@),
        n <= bytes@.len(),
{
    let mut n: usize = bytes.len();
    assert(bytes@.take(n as int) =~= bytes@);
    while n > 0 && bytes[n - 1] == 0
        invariant
            n <= bytes@.len(),
            trimmed_len(bytes@) == trimmed_len(bytes@.take(n as int)),
        decreases n,
    {
        assert(bytes@.take(n as int).drop_last() =~= bytes@.take(n - 1));
        n -= 1;
    }
    n
}

impl DeviceInfo {
    /// The vendor and product names of an image, as text.
    pub fn from_eeprom(eeprom: &Eeprom) -> (info: Self)
        ensures
            info.vendor@ == clean_text(eeprom@.vendor_info.vendor),
            info.product@ == clean_text(eeprom@.vendor_info.product),
    {
        DeviceInfo {
            vendor: clean_string(eeprom.vendor_info.vendor.as_slice()),
            product: clean_string(eeprom.vendor_info.product.as_slice()),
        }
    }
}

} // verus!
