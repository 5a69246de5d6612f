//! The header and the atom records, each with its byte layout.
//!
//! Every layout is byte-packed and little-endian; it is given once as a
//! sequence (`*_bytes`, `decode_*`) and once as executable code that is
//! proved to produce or read exactly that sequence.

use vstd::prelude::*;
use vstd::string::StringSliceAdditionalSpecFns;
use crate::wire::{get_le16, get_le32, le16, le32, push_bytes, push_le16, push_le32, read_array,
    read_le16, read_le32};

verus! {

/// Length of the image header.
pub const HEADER_LEN: usize = 12;

/// Length of the header in front of every atom payload.
pub const ATOM_HEADER_LEN: usize = 8;

/// Length of a vendor-info payload: three 16-bit fields and three 16-byte fields.
pub const VENDOR_INFO_LEN: usize = 54;

/// Length of a GPIO-map payload: a 16-bit field and 28 pin bytes.
pub const GPIO_MAP_LEN: usize = 30;

/// The ASCII bytes `R-Pi`.
pub open spec fn signature_bytes() -> Seq<u8> {
    seq![0x52u8, 0x2Du8, 0x50u8, 0x69u8]
}

/// The image header.
#[derive(Debug, Clone, Copy)]
pub struct EepromHeader {
    /// Must be `R-Pi`.
    pub signature: [u8; 4],
    /// Format version.
    pub version: u8,
    /// Written as zero.
    pub reserved: u8,
    /// Number of atoms that follow.
    pub numatoms: u16,
    /// Length of header and atoms together, without a checksum trailer.
    pub eeplen: u32,
}

/// An [`EepromHeader`] as plain values.
pub struct HeaderView {
    pub signature: Seq<u8>,
    pub version: u8,
    pub reserved: u8,
    pub numatoms: u16,
    pub eeplen: u32,
}

impl View for EepromHeader {
    type V = HeaderView;

    open spec fn view(&self) -> HeaderView {
        HeaderView {
            signature: self.signature@,
            version: self.version,
            reserved: self.reserved,
            numatoms: self.numatoms,
            eeplen: self.eeplen,
        }
    }
}

/// The twelve bytes of a header. The reserved byte is written as zero.
pub open spec fn header_bytes(h: HeaderView) -> Seq<u8> {
    h.signature + seq![h.version, 0u8] + le16(h.numatoms) + le32(h.eeplen)
}

/// The header that the first twelve bytes of `s` spell, taken verbatim.
pub open spec fn decode_header(s: Seq<u8>) -> HeaderView {
    HeaderView {
        signature: s.subrange(0, 4),
        version: s[4],
        reserved: s[5],
        numatoms: read_le16(s, 6),
        eeplen: read_le32(s, 8),
    }
}

impl EepromHeader {
    /// A header with the signature, version 1 and no atoms counted yet.
    pub fn new() -> (h: Self)
        ensures
            h@.signature == signature_bytes(),
            h.version == 1,
            h.reserved == 0,
            h.numatoms == 0,
            h.eeplen == 0,
    {
        let h = EepromHeader {
            signature: [0x52, 0x2D, 0x50, 0x69],
            version: 1,
            reserved: 0,
            numatoms: 0,
            eeplen: 0,
        };
        assert(h.signature@ =~= signature_bytes());
        h
    }

    /// Whether the signature field holds `R-Pi`.
    pub fn has_signature(&self) -> (b: bool)
        ensures
            b == (self@.signature == signature_bytes()),
    {
        let b = self.signature[0] == 0x52 && self.signature[1] == 0x2D && self.signature[2] == 0x50
            && self.signature[3] == 0x69;
        assert(b == (self.signature@ =~= signature_bytes()));
        b
    }

    pub(crate) fn write_to(&self, out: &mut Vec<u8>)
        ensures
            final(out)@ == old(out)@ + header_bytes(self@),
    {
        out.push(self.signature[0]);
        out.push(self.signature[1]);
        out.push(self.signature[2]);
        out.push(self.signature[3]);
        out.push(self.version);
        out.push(0);
        let ghost mid = out@;
        assert(mid =~= old(out)@ + (self@.signature + seq![self.version, 0u8]));
        push_le16(out, self.numatoms);
        push_le32(out, self.eeplen);
        assert(out@ =~= old(out)@ + header_bytes(self@));
    }

    pub(crate) fn read_from(data: &[u8]) -> (h: Self)
        requires
            data@.len() >= 12,
        ensures
            h@ == decode_header(data@),
    {
        let h = EepromHeader {
            signature: read_array::<4>(data, 0),
            version: data[4],
            reserved: data[5],
            numatoms: get_le16(data, 6),
            eeplen: get_le32(data, 8),
        };
        h
    }
}

impl Default for EepromHeader {
    /// The all-zero header, which is not a valid one.
    fn default() -> (h: Self)
        ensures
            h@.signature == seq![0u8, 0u8, 0u8, 0u8],
            h.version == 0,
            h.reserved == 0,
            h.numatoms == 0,
            h.eeplen == 0,
    {
        let h = EepromHeader { signature: [0, 0, 0, 0], version: 0, reserved: 0, numatoms: 0, eeplen: 0 };
        assert(h.signature@ =~= seq![0u8, 0u8, 0u8, 0u8]);
        h
    }
}

/// The eight bytes in front of every atom payload.
#[derive(Debug, Clone, Copy)]
pub struct AtomHeader {
    /// Type code of the atom.
    pub atom_type: u8,
    /// Number of structures in the atom; always written as 1.
    pub count: u8,
    /// Length of the payload in bytes.
    pub dlen: u16,
    /// Written as zero.
    pub reserved: u32,
}

/// The eight bytes of an atom header.
pub open spec fn atom_header_bytes(h: AtomHeader) -> Seq<u8> {
    seq![h.atom_type, h.count] + le16(h.dlen) + le32(h.reserved)
}

/// The atom header that the eight bytes of `s` from `at` on spell.
pub open spec fn decode_atom_header(s: Seq<u8>, at: int) -> AtomHeader {
    AtomHeader {
        atom_type: s[at],
        count: s[at + 1],
        dlen: read_le16(s, at + 2),
        reserved: read_le32(s, at + 4),
    }
}

/// The header that is written in front of a payload of `len` bytes: count 1,
/// reserved 0, and the length reduced to sixteen bits.
pub open spec fn atom_header_for(atom_type: u8, len: nat) -> AtomHeader {
    AtomHeader { atom_type, count: 1, dlen: (len % 0x1_0000) as u16, reserved: 0 }
}

impl AtomHeader {
    /// The header for a payload of `len` bytes.
    pub fn for_payload(atom_type: u8, len: usize) -> (h: Self)
        ensures
            h == atom_header_for(atom_type, len as nat),
    {
        AtomHeader { atom_type, count: 1, dlen: (len % 0x1_0000) as u16, reserved: 0 }
    }

    pub(crate) fn write_to(&self, out: &mut Vec<u8>)
        ensures
            final(out)@ == old(out)@ + atom_header_bytes(*self),
    {
        out.push(self.atom_type);
        out.push(self.count);
        push_le16(out, self.dlen);
        push_le32(out, self.reserved);
        assert(out@ =~= old(out)@ + atom_header_bytes(*self));
    }

    pub(crate) fn read_from(data: &[u8], at: usize) -> (h: Self)
        requires
            at + 8 <= data@.len(),
        ensures
            h == decode_atom_header(data@, at as int),
    {
        let len: usize = data.len();
        assert(at + 8 <= len);
        AtomHeader {
            atom_type: data[at],
            count: data[at + 1],
            dlen: get_le16(data, at + 2),
            reserved: get_le32(data, at + 4),
        }
    }
}

/// What an atom's type code stands for.
#[derive(Debug, Clone, Copy, PartialEq, Eq, Structural)]
pub enum AtomType {
    VendorInfo,
    GpioMapBank0,
    DtBlob,
    GpioMapBank1,
    Unknown,
}

/// The kind that a type code stands for: 1 to 4 are the known ones.
pub open spec fn atom_type_of(code: u8) -> AtomType {
    if code == 1 {
        AtomType::VendorInfo
    } else if code == 2 {
        AtomType::GpioMapBank0
    } else if code == 3 {
        AtomType::DtBlob
    } else if code == 4 {
        AtomType::GpioMapBank1
    } else {
        AtomType::Unknown
    }
}

impl AtomType {
    /// The code that stands for a kind; for `Unknown`, the first code that
    /// stands for no known kind.
    pub open spec fn type_code(self) -> u8 {
        match self {
            AtomType::VendorInfo => 1,
            AtomType::GpioMapBank0 => 2,
            AtomType::DtBlob => 3,
            AtomType::GpioMapBank1 => 4,
            AtomType::Unknown => 5,
        }
    }

    /// The code that stands for this kind.
    pub fn code(&self) -> (c: u8)
        ensures
            c == self.type_code(),
            atom_type_of(c) == *self,
    {
        match self {
            AtomType::VendorInfo => 0x01,
            AtomType::GpioMapBank0 => 0x02,
            AtomType::DtBlob => 0x03,
            AtomType::GpioMapBank1 => 0x04,
            AtomType::Unknown => 0x05,
        }
    }

    /// The kind that `code` stands for.
    pub fn from_code(code: u8) -> (t: AtomType)
        ensures
            t == atom_type_of(code),
    {
        match code {
            0x01 => AtomType::VendorInfo,
            0x02 => AtomType::GpioMapBank0,
            0x03 => AtomType::DtBlob,
            0x04 => AtomType::GpioMapBank1,
            _ => AtomType::Unknown,
        }
    }
}

impl From<u8> for AtomType {
    fn from(val: u8) -> (t: AtomType) {
        AtomType::from_code(val)
    }
}

impl vstd::std_specs::convert::FromSpecImpl<u8> for AtomType {
    open spec fn obeys_from_spec() -> bool {
        true
    }

    open spec fn from_spec(val: u8) -> AtomType {
        atom_type_of(val)
    }
}

/// The vendor-info atom (type 0x01).
#[derive(Debug, Clone, Copy)]
pub struct VendorInfoAtom {
    pub vendor_id: u16,
    pub product_id: u16,
    pub product_ver: u16,
    /// Zero-padded vendor name.
    pub vendor: [u8; 16],
    /// Zero-padded product name.
    pub product: [u8; 16],
    pub uuid: [u8; 16],
}

/// A [`VendorInfoAtom`] as plain values.
pub struct VendorInfoView {
    pub vendor_id: u16,
    pub product_id: u16,
    pub product_ver: u16,
    pub vendor: Seq<u8>,
    pub product: Seq<u8>,
    pub uuid: Seq<u8>,
}

impl VendorInfoView {
    /// The three byte fields have their fixed width.
    pub open spec fn wf(self) -> bool {
        self.vendor.len() == 16 && self.product.len() == 16 && self.uuid.len() == 16
    }
}

impl View for VendorInfoAtom {
    type V = VendorInfoView;

    open spec fn view(&self) -> VendorInfoView {
        VendorInfoView {
            vendor_id: self.vendor_id,
            product_id: self.product_id,
            product_ver: self.product_ver,
            vendor: self.vendor@,
            product: self.product@,
            uuid: self.uuid@,
        }
    }
}

/// The payload of a vendor-info atom.
pub open spec fn vendor_info_bytes(v: VendorInfoView) -> Seq<u8> {
    le16(v.vendor_id) + le16(v.product_id) + le16(v.product_ver) + v.vendor + v.product + v.uuid
}

/// The vendor info that the first 54 bytes of `s` spell.
pub open spec fn decode_vendor_info(s: Seq<u8>) -> VendorInfoView {
    VendorInfoView {
        vendor_id: read_le16(s, 0),
        product_id: read_le16(s, 2),
        product_ver: read_le16(s, 4),
        vendor: s.subrange(6, 22),
        product: s.subrange(22, 38),
        uuid: s.subrange(38, 54),
    }
}

/// A name as it is stored: its first 15 bytes at most, then zeros up to 16.
pub open spec fn name_field(text: Seq<u8>) -> Seq<u8> {
    Seq::new(16, |i: int| if i < text.len() && i < 15 { text[i] } else { 0u8 })
}

fn fill_name(text: &str) -> (out: [u8; 16])
    ensures
        out@ == name_field(text.spec_bytes()),
{
    let bytes = text.as_bytes();
    let n: usize = if bytes.len() < 15 { bytes.len() } else { 15 };
    let mut out: [u8; 16] = [0u8; 16];
    let mut i: usize = 0;
    while i < n
        invariant
            i <= n <= 15,
            n <= bytes@.len(),
            out@.len() == 16,
            forall|k: int| 0 <= k < i ==> #[trigger] out@[k] == bytes@[k],
            forall|k: int| i <= k < 16 ==> #[trigger] out@[k] == 0u8,
        decreases n - i,
    {
        out[i] = bytes[i];
        i += 1;
    }
    assert(out@ =~= name_field(text.spec_bytes()));
    out
}

impl VendorInfoAtom {
    /// Vendor info with the two names cut to 15 bytes and padded with zeros.
    pub fn new(
        vendor_id: u16,
        product_id: u16,
        product_ver: u16,
        vendor: &str,
        product: &str,
        uuid: [u8; 16],
    ) -> (atom: Self)
        ensures
            atom.vendor_id == vendor_id,
            atom.product_id == product_id,
            atom.product_ver == product_ver,
            atom.vendor@ == name_field(vendor.spec_bytes()),
            atom.product@ == name_field(product.spec_bytes()),
            atom.uuid == uuid,
    {
        VendorInfoAtom {
            vendor_id,
            product_id,
            product_ver,
            vendor: fill_name(vendor),
            product: fill_name(product),
            uuid,
        }
    }

    pub(crate) fn write_to(&self, out: &mut Vec<u8>)
        ensures
            final(out)@ == old(out)@ + vendor_info_bytes(self@),
    {
        push_le16(out, self.vendor_id);
        push_le16(out, self.product_id);
        push_le16(out, self.product_ver);
        push_bytes(out, self.vendor.as_slice());
        push_bytes(out, self.product.as_slice());
        push_bytes(out, self.uuid.as_slice());
        assert(out@ =~= old(out)@ + vendor_info_bytes(self@));
    }

    pub(crate) fn read_from(data: &[u8], at: usize) -> (atom: Self)
        requires
            at + 54 <= data@.len(),
        ensures
            atom@ == decode_vendor_info(data@.subrange(at as int, at + 54)),
    {
        let ghost s = data@.subrange(at as int, at + 54);
        let len: usize = data.len();
        assert(at + 54 <= len);
        let atom = VendorInfoAtom {
            vendor_id: get_le16(data, at),
            product_id: get_le16(data, at + 2),
            product_ver: get_le16(data, at + 4),
            vendor: read_array::<16>(data, at + 6),
            product: read_array::<16>(data, at + 22),
            uuid: read_array::<16>(data, at + 38),
        };
        assert(atom.vendor@ =~= s.subrange(6, 22));
        assert(atom.product@ =~= s.subrange(22, 38));
        assert(atom.uuid@ =~= s.subrange(38, 54));
        atom
    }
}

/// A GPIO map (type 0x02 for bank 0, 0x04 for bank 1).
#[derive(Debug, Clone, Copy)]
pub struct GpioMapAtom {
    pub flags: u16,
    /// One function code for each pin.
    pub pins: [u8; 28],
}

/// A [`GpioMapAtom`] as plain values.
pub struct GpioMapView {
    pub flags: u16,
    pub pins: Seq<u8>,
}

impl GpioMapView {
    /// There are 28 pins.
    pub open spec fn wf(self) -> bool {
        self.pins.len() == 28
    }
}

impl View for GpioMapAtom {
    type V = GpioMapView;

    open spec fn view(&self) -> GpioMapView {
        GpioMapView { flags: self.flags, pins: self.pins@ }
    }
}

/// The payload of a GPIO-map atom.
pub open spec fn gpio_map_bytes(g: GpioMapView) -> Seq<u8> {
    le16(g.flags) + g.pins
}

/// The GPIO map that the first 30 bytes of `s` spell.
pub open spec fn decode_gpio_map(s: Seq<u8>) -> GpioMapView {
    GpioMapView { flags: read_le16(s, 0), pins: s.subrange(2, 30) }
}

impl GpioMapAtom {
    pub(crate) fn write_to(&self, out: &mut Vec<u8>)
        ensures
            final(out)@ == old(out)@ + gpio_map_bytes(self@),
    {
        push_le16(out, self.flags);
        push_bytes(out, self.pins.as_slice());
        assert(out@ =~= old(out)@ + gpio_map_bytes(self@));
    }

    pub(crate) fn read_from(data: &[u8], at: usize) -> (atom: Self)
        requires
            at + 30 <= data@.len(),
        ensures
            atom@ == decode_gpio_map(data@.subrange(at as int, at + 30)),
    {
        let ghost s = data@.subrange(at as int, at + 30);
        let len: usize = data.len();
        assert(at + 30 <= len);
        let atom = GpioMapAtom { flags: get_le16(data, at), pins: read_array::<28>(data, at + 2) };
        assert(atom.pins@ =~= s.subrange(2, 30));
        atom
    }
}

/// What the atom header says of a device-tree blob: its length.
#[derive(Debug, Clone, Copy)]
pub struct DtBlobAtom {
    pub dlen: u32,
}

/// A custom atom whose payload has a fixed size.
#[derive(Debug, Clone, Copy)]
pub struct CustomAtom<const N: usize> {
    pub atom_type: u8,
    pub data: [u8; N],
}

/// One atom of an image, of any kind.
pub enum EepromAtom {
    VendorInfo(VendorInfoAtom),
    GpioMapBank0(GpioMapAtom),
    DtBlob(Vec<u8>),
    GpioMapBank1(GpioMapAtom),
    Custom(Vec<u8>, u8),
}

/// Decoding an encoded vendor info gives it back.
pub proof fn lemma_vendor_info_round_trip(v: VendorInfoView)
    requires
        v.wf(),
    ensures
        vendor_info_bytes(v).len() == 54,
        decode_vendor_info(vendor_info_bytes(v)) == v,
{
    let s = vendor_info_bytes(v);
    assert(s.subrange(6, 22) =~= v.vendor);
    assert(s.subrange(22, 38) =~= v.product);
    assert(s.subrange(38, 54) =~= v.uuid);
}

/// Decoding an encoded GPIO map gives it back.
pub proof fn lemma_gpio_map_round_trip(g: GpioMapView)
    requires
        g.wf(),
    ensures
        gpio_map_bytes(g).len() == 30,
        decode_gpio_map(gpio_map_bytes(g)) == g,
{
    let s = gpio_map_bytes(g);
    assert(s.subrange(2, 30) =~= g.pins);
}

} // verus!
