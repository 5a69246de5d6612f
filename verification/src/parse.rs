//! Reading an image from bytes.
//!
//! Reading goes in two steps that the executable code interleaves: `scan`
//! cuts the bytes behind the header into as many atoms as the header
//! declares, and `collect` sorts those atoms into the slots of an image.

use vstd::prelude::*;
use crate::atoms::{atom_type_of, decode_atom_header, decode_gpio_map, decode_header,
    decode_vendor_info, signature_bytes, AtomHeader, AtomType, EepromHeader, GpioMapAtom,
    GpioMapView, VendorInfoAtom, VendorInfoView, ATOM_HEADER_LEN, GPIO_MAP_LEN, HEADER_LEN,
    VENDOR_INFO_LEN};
use crate::eeprom::{custom_atoms_view, Eeprom, EepromView};
use crate::error::EhatromError;
use crate::wire::copy_range;

verus! {

/// The atoms cut from a buffer so far, and where the next one starts.
pub struct Scan {
    /// Type code and payload of each atom, in the order met.
    pub records: Seq<(u8, Seq<u8>)>,
    /// Offset of the first byte behind the last atom.
    pub end: int,
}

/// Cuts one more atom. `None` when the buffer ends before the atom's header
/// or before the end of its payload.
pub open spec fn scan_next(data: Seq<u8>, prev: Scan) -> Option<Scan> {
    if data.len() < prev.end + 8 {
        None
    } else {
        let h = decode_atom_header(data, prev.end);
        let start = prev.end + 8;
        if data.len() < start + h.dlen {
            None
        } else {
            Some(
                Scan {
                    records: prev.records.push((h.atom_type, data.subrange(start, start + h.dlen))),
                    end: start + h.dlen,
                },
            )
        }
    }
}

/// Cuts the first `n` atoms behind the twelve header bytes.
pub open spec fn scan(data: Seq<u8>, n: nat) -> Option<Scan>
    decreases n,
{
    if n == 0 {
        Some(Scan { records: Seq::empty(), end: 12 })
    } else {
        match scan(data, (n - 1) as nat) {
            None => None,
            Some(prev) => scan_next(data, prev),
        }
    }
}

/// What has been decoded from the atoms met so far.
pub struct Slots {
    pub vendor_info: Option<VendorInfoView>,
    pub gpio_map_bank0: Option<GpioMapView>,
    pub dt_blob: Option<Seq<u8>>,
    pub gpio_map_bank1: Option<GpioMapView>,
    pub custom_atoms: Seq<(u8, Seq<u8>)>,
    /// How many atoms of a fixed-size kind were too short and were dropped.
    pub skipped: nat,
}

/// The slots after one more atom.
///
/// A vendor info or GPIO map shorter than its layout is dropped and counted;
/// a longer one is decoded from its leading bytes. An empty device-tree blob
/// or custom atom is passed over. A later atom of a kind replaces an earlier
/// one; custom atoms are all kept, in order.
pub open spec fn place(s: Slots, r: (u8, Seq<u8>)) -> Slots {
    match atom_type_of(r.0) {
        AtomType::VendorInfo => if r.1.len() >= 54 {
            Slots { vendor_info: Some(decode_vendor_info(r.1)), ..s }
        } else {
            Slots { skipped: s.skipped + 1, ..s }
        },
        AtomType::GpioMapBank0 => if r.1.len() >= 30 {
            Slots { gpio_map_bank0: Some(decode_gpio_map(r.1)), ..s }
        } else {
            Slots { skipped: s.skipped + 1, ..s }
        },
        AtomType::DtBlob => if r.1.len() > 0 {
            Slots { dt_blob: Some(r.1), ..s }
        } else {
            s
        },
        AtomType::GpioMapBank1 => if r.1.len() >= 30 {
            Slots { gpio_map_bank1: Some(decode_gpio_map(r.1)), ..s }
        } else {
            Slots { skipped: s.skipped + 1, ..s }
        },
        AtomType::Unknown => if r.1.len() > 0 {
            Slots { custom_atoms: s.custom_atoms.push(r), ..s }
        } else {
            s
        },
    }
}

/// The slots with nothing decoded yet.
pub open spec fn no_slots() -> Slots {
    Slots {
        vendor_info: None,
        gpio_map_bank0: None,
        dt_blob: None,
        gpio_map_bank1: None,
        custom_atoms: Seq::empty(),
        skipped: 0,
    }
}

/// The slots after the atoms `rs`, taken in order.
pub open spec fn collect(rs: Seq<(u8, Seq<u8>)>) -> Slots
    decreases rs.len(),
{
    if rs.len() == 0 {
        no_slots()
    } else {
        place(collect(rs.drop_last()), rs.last())
    }
}

/// A decoded image and the number of malformed atoms dropped on the way.
pub struct Parsed {
    pub eeprom: EepromView,
    pub skipped: nat,
}

/// What reading `data` gives.
///
/// The header is taken verbatim; its atom count decides how many atoms are
/// read, and bytes behind them are left alone. The errors come in this
/// order: `TooShort` for fewer than twelve bytes, `BadSignature`, `TooShort`
/// for an atom that the buffer does not hold in full, `MissingVendorInfo`,
/// `MissingGpioBank0`.
pub open spec fn parse(data: Seq<u8>) -> Result<Parsed, EhatromError> {
    if data.len() < 12 {
        Err(EhatromError::TooShort)
    } else if data.subrange(0, 4) != signature_bytes() {
        Err(EhatromError::BadSignature)
    } else {
        match scan(data, decode_header(data).numatoms as nat) {
            None => Err(EhatromError::TooShort),
            Some(sc) => {
                let slots = collect(sc.records);
                match (slots.vendor_info, slots.gpio_map_bank0) {
                    (None, _) => Err(EhatromError::MissingVendorInfo),
                    (Some(_), None) => Err(EhatromError::MissingGpioBank0),
                    (Some(vendor_info), Some(gpio_map_bank0)) => Ok(
                        Parsed {
                            eeprom: EepromView {
                                header: decode_header(data),
                                vendor_info,
                                gpio_map_bank0,
                                dt_blob: slots.dt_blob,
                                gpio_map_bank1: slots.gpio_map_bank1,
                                custom_atoms: slots.custom_atoms,
                            },
                            skipped: slots.skipped,
                        },
                    ),
                }
            },
        }
    }
}

/// Once the buffer has run out, reading more atoms does not help.
pub proof fn lemma_scan_stays_none(data: Seq<u8>, k: nat, n: nat)
    requires
        k <= n,
        scan(data, k) is None,
    ensures
        scan(data, n) is None,
    decreases n,
{
    if k < n {
        lemma_scan_stays_none(data, k, (n - 1) as nat);
    }
}

/// Only the first 54 bytes of a payload matter to the vendor info.
pub proof fn lemma_decode_vendor_info_prefix(a: Seq<u8>, b: Seq<u8>)
    requires
        a.len() >= 54,
        b.len() >= 54,
        a.take(54) == b.take(54),
    ensures
        decode_vendor_info(a) == decode_vendor_info(b),
{
    assert forall|i: int| 0 <= i < 54 implies a[i] == b[i] by {
        assert(a[i] == a.take(54)[i]);
        assert(b[i] == b.take(54)[i]);
    }
    assert(a.subrange(6, 22) =~= b.subrange(6, 22));
    assert(a.subrange(22, 38) =~= b.subrange(22, 38));
    assert(a.subrange(38, 54) =~= b.subrange(38, 54));
}

/// Only the first 30 bytes of a payload matter to a GPIO map.
pub proof fn lemma_decode_gpio_map_prefix(a: Seq<u8>, b: Seq<u8>)
    requires
        a.len() >= 30,
        b.len() >= 30,
        a.take(30) == b.take(30),
    ensures
        decode_gpio_map(a) == decode_gpio_map(b),
{
    assert forall|i: int| 0 <= i < 30 implies a[i] == b[i] by {
        assert(a[i] == a.take(30)[i]);
        assert(b[i] == b.take(30)[i]);
    }
    assert(a.subrange(2, 30) =~= b.subrange(2, 30));
}

/// The view of an optional value.
pub open spec fn option_view<T: View>(o: Option<T>) -> Option<T::V> {
    match o {
        Some(t) => Some(t@),
        None => None,
    }
}

fn read_vendor_info(data: &[u8], at: usize, dlen: usize) -> (atom: VendorInfoAtom)
    requires
        dlen >= 54,
        at + dlen <= data@.len(),
    ensures
        atom@ == decode_vendor_info(data@.subrange(at as int, at + dlen)),
{
    let atom = VendorInfoAtom::read_from(data, at);
    proof {
        let a = data@.subrange(at as int, at + 54);
        let b = data@.subrange(at as int, at + dlen);
        assert(a.take(54) =~= b.take(54));
        lemma_decode_vendor_info_prefix(a, b);
    }
    atom
}

fn read_gpio_map(data: &[u8], at: usize, dlen: usize) -> (atom: GpioMapAtom)
    requires
        dlen >= 30,
        at + dlen <= data@.len(),
    ensures
        atom@ == decode_gpio_map(data@.subrange(at as int, at + dlen)),
{
    let atom = GpioMapAtom::read_from(data, at);
    proof {
        let a = data@.subrange(at as int, at + 30);
        let b = data@.subrange(at as int, at + dlen);
        assert(a.take(30) =~= b.take(30));
        lemma_decode_gpio_map_prefix(a, b);
    }
    atom
}

/// Reads an image and counts the atoms dropped for being too short.
fn read_image(data: &[u8]) -> (r: Result<(Eeprom, usize), EhatromError>)
    ensures
        match r {
            Ok((eeprom, skipped)) => parse(data@) == Ok::<Parsed, EhatromError>(
                Parsed { eeprom: eeprom@, skipped: skipped as nat },
            ),
            Err(e) => parse(data@) == Err::<Parsed, EhatromError>(e),
        },
{
    let len: usize = data.len();
    if len < HEADER_LEN {
        return Err(EhatromError::TooShort);
    }
    let header = EepromHeader::read_from(data);
    if !header.has_signature() {
        return Err(EhatromError::BadSignature);
    }
    let mut offset: usize = HEADER_LEN;
    let mut vendor_info: Option<VendorInfoAtom> = None;
    let mut gpio_map_bank0: Option<GpioMapAtom> = None;
    let mut dt_blob: Option<Vec<u8>> = None;
    let mut gpio_map_bank1: Option<GpioMapAtom> = None;
    let mut custom_atoms: Vec<(u8, Vec<u8>)> = Vec::new();
    let mut skipped: usize = 0;
    let ghost mut sc = Scan { records: Seq::empty(), end: 12 };
    let mut i: u16 = 0;
    assert(custom_atoms_view(custom_atoms@) =~= Seq::empty());
    while i < header.numatoms
        invariant
            len == data@.len(),
            12 <= offset <= len,
            i <= header.numatoms,
            header@ == decode_header(data@),
            data@.subrange(0, 4) == signature_bytes(),
            scan(data@, i as nat) == Some(sc),
            sc.end == offset,
            skipped <= i,
            collect(sc.records).vendor_info == option_view(vendor_info),
            collect(sc.records).gpio_map_bank0 == option_view(gpio_map_bank0),
            collect(sc.records).dt_blob == option_view(dt_blob),
            collect(sc.records).gpio_map_bank1 == option_view(gpio_map_bank1),
            custom_atoms_view(custom_atoms@) == collect(sc.records).custom_atoms,
            collect(sc.records).skipped == skipped,
        decreases header.numatoms - i,
    {
        if len - offset < ATOM_HEADER_LEN {
            proof {
                assert(scan(data@, (i + 1) as nat) is None);
                lemma_scan_stays_none(data@, (i + 1) as nat, header.numatoms as nat);
            }
            return Err(EhatromError::TooShort);
        }
        let atom_header = AtomHeader::read_from(data, offset);
        let start: usize = offset + ATOM_HEADER_LEN;
        let dlen: usize = atom_header.dlen as usize;
        if len - start < dlen {
            proof {
                assert(scan(data@, (i + 1) as nat) is None);
                lemma_scan_stays_none(data@, (i + 1) as nat, header.numatoms as nat);
            }
            return Err(EhatromError::TooShort);
        }
        let ghost payload = data@.subrange(start as int, start + dlen);
        let ghost next = Scan {
            records: sc.records.push((atom_header.atom_type, payload)),
            end: start + dlen,
        };
        proof {
            assert(scan(data@, (i + 1) as nat) == Some(next));
            assert(next.records.drop_last() =~= sc.records);
            assert(collect(next.records) == place(
                collect(sc.records),
                (atom_header.atom_type, payload),
            ));
        }
        match AtomType::from_code(atom_header.atom_type) {
            AtomType::VendorInfo => {
                if dlen >= VENDOR_INFO_LEN {
                    vendor_info = Some(read_vendor_info(data, start, dlen));
                } else {
                    skipped = skipped + 1;
                }
            },
            AtomType::GpioMapBank0 => {
                if dlen >= GPIO_MAP_LEN {
                    gpio_map_bank0 = Some(read_gpio_map(data, start, dlen));
                } else {
                    skipped = skipped + 1;
                }
            },
            AtomType::DtBlob => {
                if dlen > 0 {
                    dt_blob = Some(copy_range(data, start, start + dlen));
                }
            },
            AtomType::GpioMapBank1 => {
                if dlen >= GPIO_MAP_LEN {
                    gpio_map_bank1 = Some(read_gpio_map(data, start, dlen));
                } else {
                    skipped = skipped + 1;
                }
            },
            AtomType::Unknown => {
                if dlen > 0 {
                    let ghost before = custom_atoms_view(custom_atoms@);
                    let copy = copy_range(data, start, start + dlen);
                    custom_atoms.push((atom_header.atom_type, copy));
                    assert(custom_atoms_view(custom_atoms@) =~= before.push(
                        (atom_header.atom_type, payload),
                    ));
                }
            },
        }
        offset = start + dlen;
        proof {
            sc = next;
        }
        i += 1;
    }
    match (vendor_info, gpio_map_bank0) {
        (None, _) => Err(EhatromError::MissingVendorInfo),
        (Some(_), None) => Err(EhatromError::MissingGpioBank0),
        (Some(vendor_info), Some(gpio_map_bank0)) => Ok(
            (
                Eeprom { header, vendor_info, gpio_map_bank0, dt_blob, gpio_map_bank1, custom_atoms },
                skipped,
            ),
        ),
    }
}

impl Eeprom {
    /// Reads an image from `data`. See [`parse`] for what is read and which
    /// error comes when.
    pub fn from_bytes(data: &[u8]) -> (r: Result<Eeprom, EhatromError>)
        ensures
            match r {
                Ok(eeprom) => parse(data@) matches Ok(p) && eeprom@ == p.eeprom,
                Err(e) => parse(data@) == Err::<Parsed, EhatromError>(e),
            },
    {
        match read_image(data) {
            Ok((eeprom, _)) => Ok(eeprom),
            Err(e) => Err(e),
        }
    }

    /// Reads an image as [`Eeprom::from_bytes`] does and also tells how many
    /// vendor-info and GPIO-map atoms were dropped for being too short.
    pub fn from_bytes_counted(data: &[u8]) -> (r: Result<(Eeprom, usize), EhatromError>)
        ensures
            match r {
                Ok((eeprom, skipped)) => parse(data@) == Ok::<Parsed, EhatromError>(
                    Parsed { eeprom: eeprom@, skipped: skipped as nat },
                ),
                Err(e) => parse(data@) == Err::<Parsed, EhatromError>(e),
            },
    {
        read_image(data)
    }

    /// Reads an image from bytes that live as long as the program, exactly
    /// as [`Eeprom::from_bytes`] does.
    pub fn from_bytes_no_alloc(data: &'static [u8]) -> (r: Result<Eeprom, EhatromError>)
        ensures
            match r {
                Ok(eeprom) => parse(data@) matches Ok(p) && eeprom@ == p.eeprom,
                Err(e) => parse(data@) == Err::<Parsed, EhatromError>(e),
            },
    {
        match read_image(data) {
            Ok((eeprom, _)) => Ok(eeprom),
            Err(e) => Err(e),
        }
    }
}

} // verus!
