//! The decoded image: header, the two mandatory atoms, the optional ones
//! and the custom atoms, with the rules that tie the header to the atoms.

use vstd::prelude::*;
use vstd::arithmetic::div_mod::lemma_add_mod_noop_right;
use crate::atoms::{atom_header_bytes, atom_header_for, gpio_map_bytes, header_bytes,
    signature_bytes, vendor_info_bytes, EepromHeader, GpioMapAtom, GpioMapView, HeaderView,
    VendorInfoAtom, VendorInfoView, ATOM_HEADER_LEN, GPIO_MAP_LEN, HEADER_LEN, VENDOR_INFO_LEN};
use crate::serialize::lemma_serialized_len;
use crate::wire::copy_range;

verus! {

/// The decoded image. It owns all payload bytes.
#[derive(Debug, Clone)]
pub struct Eeprom {
    pub header: EepromHeader,
    pub vendor_info: VendorInfoAtom,
    pub gpio_map_bank0: GpioMapAtom,
    /// Device-tree blob, if any.
    pub dt_blob: Option<Vec<u8>>,
    /// GPIO map of bank 1, if any.
    pub gpio_map_bank1: Option<GpioMapAtom>,
    /// Custom atoms in stored order, each a type code and its payload.
    pub custom_atoms: Vec<(u8, Vec<u8>)>,
}

/// An [`Eeprom`] as plain values.
pub struct EepromView {
    pub header: HeaderView,
    pub vendor_info: VendorInfoView,
    pub gpio_map_bank0: GpioMapView,
    pub dt_blob: Option<Seq<u8>>,
    pub gpio_map_bank1: Option<GpioMapView>,
    pub custom_atoms: Seq<(u8, Seq<u8>)>,
}

/// Custom atoms as plain values.
pub open spec fn custom_atoms_view(atoms: Seq<(u8, Vec<u8>)>) -> Seq<(u8, Seq<u8>)> {
    Seq::new(atoms.len(), |i: int| (atoms[i].0, atoms[i].1@))
}

impl View for Eeprom {
    type V = EepromView;

    open spec fn view(&self) -> EepromView {
        EepromView {
            header: self.header@,
            vendor_info: self.vendor_info@,
            gpio_map_bank0: self.gpio_map_bank0@,
            dt_blob: match self.dt_blob {
                Some(blob) => Some(blob@),
                None => None,
            },
            gpio_map_bank1: match self.gpio_map_bank1 {
                Some(bank) => Some(bank@),
                None => None,
            },
            custom_atoms: custom_atoms_view(self.custom_atoms@),
        }
    }
}

/// The sum of the payload lengths of `atoms`.
pub open spec fn payload_total(atoms: Seq<(u8, Seq<u8>)>) -> nat
    decreases atoms.len(),
{
    if atoms.len() == 0 {
        0
    } else {
        payload_total(atoms.drop_last()) + atoms.last().1.len()
    }
}

/// One atom on the wire: its header, then its payload.
pub open spec fn record_bytes(r: (u8, Seq<u8>)) -> Seq<u8> {
    atom_header_bytes(atom_header_for(r.0, r.1.len())) + r.1
}

/// A run of atoms on the wire, in order, with nothing between them.
pub open spec fn records_bytes(rs: Seq<(u8, Seq<u8>)>) -> Seq<u8>
    decreases rs.len(),
{
    if rs.len() == 0 {
        Seq::empty()
    } else {
        records_bytes(rs.drop_last()) + record_bytes(rs.last())
    }
}

impl EepromView {
    /// The fixed-width fields have their width.
    pub open spec fn wf(self) -> bool {
        &&& self.header.signature.len() == 4
        &&& self.vendor_info.wf()
        &&& self.gpio_map_bank0.wf()
        &&& match self.gpio_map_bank1 {
            Some(bank) => bank.wf(),
            None => true,
        }
    }

    /// The atoms in the order in which they are written: vendor info, GPIO
    /// bank 0, the device-tree blob, GPIO bank 1, then the custom atoms.
    pub open spec fn records(self) -> Seq<(u8, Seq<u8>)> {
        seq![(1u8, vendor_info_bytes(self.vendor_info)), (2u8, gpio_map_bytes(self.gpio_map_bank0))]
            + (match self.dt_blob {
            Some(blob) => seq![(3u8, blob)],
            None => Seq::empty(),
        }) + (match self.gpio_map_bank1 {
            Some(bank) => seq![(4u8, gpio_map_bytes(bank))],
            None => Seq::empty(),
        }) + self.custom_atoms
    }

    /// How many atoms the image holds.
    pub open spec fn atom_count(self) -> nat {
        2 + (if self.dt_blob is Some { 1nat } else { 0nat }) + (if self.gpio_map_bank1 is Some {
            1nat
        } else {
            0nat
        }) + self.custom_atoms.len()
    }

    /// Length of the image on the wire, without a checksum trailer.
    pub open spec fn serialized_len(self) -> nat {
        12 + 8 * self.atom_count() + 54 + 30 + (match self.dt_blob {
            Some(blob) => blob.len(),
            None => 0nat,
        }) + (if self.gpio_map_bank1 is Some { 30nat } else { 0nat }) + payload_total(
            self.custom_atoms,
        )
    }

    /// The image on the wire, without a checksum trailer.
    pub open spec fn serialized(self) -> Seq<u8> {
        header_bytes(self.header) + records_bytes(self.records())
    }

    /// The same image with the header's atom count and length set from the
    /// atoms, each reduced to the width of its field.
    pub open spec fn recomputed(self) -> EepromView {
        EepromView {
            header: HeaderView {
                numatoms: (self.atom_count() % 0x1_0000) as u16,
                eeplen: (self.serialized_len() % 0x1_0000_0000) as u32,
                ..self.header
            },
            ..self
        }
    }

    /// Whether the header passes the cheap sanity check: the signature is
    /// `R-Pi` and the version is not zero.
    pub open spec fn is_valid(self) -> bool {
        self.header.signature == signature_bytes() && self.header.version != 0
    }
}

/// The payload total of a prefix is at most that of the whole.
pub proof fn lemma_payload_total_prefix(atoms: Seq<(u8, Seq<u8>)>, k: int)
    requires
        0 <= k <= atoms.len(),
    ensures
        payload_total(atoms.take(k)) <= payload_total(atoms),
    decreases atoms.len(),
{
    if k == atoms.len() {
        assert(atoms.take(k) =~= atoms);
    } else {
        lemma_payload_total_prefix(atoms.drop_last(), k);
        assert(atoms.drop_last().take(k) =~= atoms.take(k));
    }
}

proof fn lemma_payload_total_step(atoms: Seq<(u8, Seq<u8>)>, k: int)
    requires
        0 <= k < atoms.len(),
    ensures
        payload_total(atoms.take(k + 1)) == payload_total(atoms.take(k)) + atoms[k].1.len(),
{
    assert(atoms.take(k + 1).drop_last() =~= atoms.take(k));
}

/// `acc + len`, reduced to 32 bits.
fn add_mod_u32(acc: u32, len: usize) -> (r: u32)
    ensures
        r as int == (acc as int + len as int) % 0x1_0000_0000,
{
    let low: u64 = (len as u64) % 0x1_0000_0000;
    proof {
        lemma_add_mod_noop_right(acc as int, len as int, 0x1_0000_0000);
    }
    (((acc as u64) + low) % 0x1_0000_0000) as u32
}

/// `n + 1`, reduced to 16 bits.
fn succ_mod_u16(n: u16) -> (r: u16)
    ensures
        r as int == (n as int + 1) % 0x1_0000,
{
    (((n as u32) + 1) % 0x1_0000) as u16
}

impl Eeprom {
    /// Cheap header sanity check: the signature is `R-Pi` and the version is
    /// not zero. It says nothing of a checksum.
    pub fn is_valid(&self) -> (b: bool)
        ensures
            b == self@.is_valid(),
    {
        self.header.has_signature() && self.header.version != 0
    }

    /// Sets the format version and nothing else.
    pub fn set_version(&mut self, version: u8)
        ensures
            final(self)@ == (EepromView {
                header: HeaderView { version: version, ..old(self)@.header },
                ..old(self)@
            }),
    {
        self.header.version = version;
    }

    /// The length of the image on the wire when it is at most `capacity`.
    pub fn fits_in(&self, capacity: usize) -> (size: Option<usize>)
        ensures
            size == (if self@.serialized_len() <= capacity {
                Some(self@.serialized_len() as usize)
            } else {
                None
            }),
    {
        let mut fixed: usize = HEADER_LEN + ATOM_HEADER_LEN + VENDOR_INFO_LEN + ATOM_HEADER_LEN
            + GPIO_MAP_LEN;
        if self.gpio_map_bank1.is_some() {
            fixed = fixed + ATOM_HEADER_LEN + GPIO_MAP_LEN;
        }
        if self.dt_blob.is_some() {
            fixed = fixed + ATOM_HEADER_LEN;
        }
        if capacity < fixed {
            return None;
        }
        let mut left: usize = capacity - fixed;
        match &self.dt_blob {
            Some(blob) => {
                if left < blob.len() {
                    return None;
                }
                left = left - blob.len();
            },
            None => {},
        }
        let n: usize = self.custom_atoms.len();
        let ghost atoms = self@.custom_atoms;
        let ghost base: int = self@.serialized_len() - 8 * n - payload_total(atoms);
        let mut i: usize = 0;
        while i < n
            invariant
                i <= n,
                n == self.custom_atoms@.len(),
                atoms == self@.custom_atoms,
                base == self@.serialized_len() - 8 * n - payload_total(atoms),
                capacity - left == base + 8 * i + payload_total(atoms.take(i as int)),
            decreases n - i,
        {
            let len: usize = self.custom_atoms[i].1.len();
            proof {
                lemma_payload_total_step(atoms, i as int);
                lemma_payload_total_prefix(atoms, i + 1);
            }
            if left < ATOM_HEADER_LEN || left - ATOM_HEADER_LEN < len {
                return None;
            }
            left = left - ATOM_HEADER_LEN - len;
            i += 1;
        }
        proof {
            assert(atoms.take(n as int) =~= atoms);
        }
        Some(capacity - left)
    }

    /// The length of the image on the wire, without a checksum trailer.
    pub fn calculate_serialized_size(&self) -> (size: usize)
        requires
            self@.serialized_len() <= usize::MAX,
        ensures
            size == self@.serialized_len(),
            size == self@.serialized().len(),
    {
        proof {
            lemma_serialized_len(self@);
        }
        match self.fits_in(usize::MAX) {
            Some(size) => size,
            None => 0,
        }
    }

    /// The atom count and the written length, each reduced to the width of
    /// its header field.
    fn count_and_length(&self) -> (r: (u16, u32))
        ensures
            r.0 == self@.atom_count() % 0x1_0000,
            r.1 == self@.serialized_len() % 0x1_0000_0000,
    {
        let mut numatoms: u16 = 2;
        let mut eeplen: u32 = 12 + 8 * 2 + 54 + 30;
        match &self.dt_blob {
            Some(blob) => {
                numatoms = numatoms + 1;
                eeplen = add_mod_u32(eeplen + 8, blob.len());
            },
            None => {},
        }
        if self.gpio_map_bank1.is_some() {
            numatoms = numatoms + 1;
            eeplen = add_mod_u32(eeplen, 8 + 30);
        }
        let n: usize = self.custom_atoms.len();
        let ghost atoms = self@.custom_atoms;
        let ghost base_count: int = self@.atom_count() - n;
        let ghost base_len: int = self@.serialized_len() - 8 * n - payload_total(atoms);
        assert(atoms.take(0) =~= Seq::<(u8, Seq<u8>)>::empty());
        let mut i: usize = 0;
        while i < n
            invariant
                i <= n,
                n == self.custom_atoms@.len(),
                atoms == custom_atoms_view(self.custom_atoms@),
                0 <= base_count,
                0 <= base_len,
                numatoms as int == (base_count + i) % 0x1_0000,
                eeplen as int == (base_len + 8 * i + payload_total(atoms.take(i as int)))
                    % 0x1_0000_0000,
            decreases n - i,
        {
            let len: usize = self.custom_atoms[i].1.len();
            let ghost so_far: int = base_len + 8 * i + payload_total(atoms.take(i as int));
            proof {
                lemma_payload_total_step(atoms, i as int);
                lemma_add_mod_noop_right(1, base_count + i, 0x1_0000);
                lemma_add_mod_noop_right(8, so_far, 0x1_0000_0000);
                lemma_add_mod_noop_right(len as int, so_far + 8, 0x1_0000_0000);
            }
            numatoms = succ_mod_u16(numatoms);
            eeplen = add_mod_u32(add_mod_u32(eeplen, 8), len);
            i += 1;
        }
        proof {
            assert(atoms.take(n as int) =~= atoms);
        }
        (numatoms, eeplen)
    }

    /// Sets the header's atom count and length from the atoms that the image
    /// holds. No other operation does so: it is to be called after the atoms
    /// were changed and before the image is written. A count beyond 16 bits or a length beyond 32 bits is reduced to
    /// the width of its field; short of that, the length field is the length
    /// of the written image and the count is the number of atoms written.
    pub fn update_header(&mut self)
        ensures
            final(self)@ == old(self)@.recomputed(),
            old(self)@.serialized_len() <= u32::MAX ==> final(self).header.eeplen
                == final(self)@.serialized().len(),
            old(self)@.atom_count() <= u16::MAX ==> final(self).header.numatoms
                == final(self)@.records().len(),
    {
        let (numatoms, eeplen) = self.count_and_length();
        self.header.numatoms = numatoms;
        self.header.eeplen = eeplen;
        proof {
            lemma_serialized_len(self@);
        }
    }

    /// Replaces the vendor info. The header is left as it is: call
    /// [`Eeprom::update_header`] before the image is written.
    pub fn add_vendor_info(&mut self, atom: VendorInfoAtom)
        ensures
            final(self)@ == (EepromView { vendor_info: atom@, ..old(self)@ }),
    {
        self.vendor_info = atom;
    }

    /// Replaces the GPIO map of bank 0. The header is left as it is.
    pub fn add_gpio_map_bank0(&mut self, atom: GpioMapAtom)
        ensures
            final(self)@ == (EepromView { gpio_map_bank0: atom@, ..old(self)@ }),
    {
        self.gpio_map_bank0 = atom;
    }

    /// Sets the device-tree blob. The header is left as it is.
    pub fn add_dt_blob(&mut self, blob: Vec<u8>)
        ensures
            final(self)@ == (EepromView { dt_blob: Some(blob@), ..old(self)@ }),
    {
        self.dt_blob = Some(blob);
    }

    /// Sets the device-tree blob to a copy of `blob`. The header is left as
    /// it is.
    pub fn add_dt_blob_static(&mut self, blob: &'static [u8])
        ensures
            final(self)@ == (EepromView { dt_blob: Some(blob@), ..old(self)@ }),
    {
        let copy = copy_range(blob, 0, blob.len());
        assert(copy@ =~= blob@);
        self.dt_blob = Some(copy);
    }

    /// Sets the GPIO map of bank 1. The header is left as it is.
    pub fn add_gpio_map_bank1(&mut self, atom: GpioMapAtom)
        ensures
            final(self)@ == (EepromView { gpio_map_bank1: Some(atom@), ..old(self)@ }),
    {
        self.gpio_map_bank1 = Some(atom);
    }

    /// Appends a custom atom after those already stored. The header is left
    /// as it is.
    pub fn add_custom_atom(&mut self, atom_type: u8, data: Vec<u8>)
        ensures
            final(self)@ == (EepromView {
                custom_atoms: old(self)@.custom_atoms.push((atom_type, data@)),
                ..old(self)@
            }),
    {
        self.custom_atoms.push((atom_type, data));
        assert(custom_atoms_view(self.custom_atoms@) =~= old(self)@.custom_atoms.push(
            (atom_type, data@),
        ));
    }

    /// Replaces the custom atoms by copies of `atoms`, in their order. The
    /// header is left as it is.
    pub fn set_custom_atoms(&mut self, atoms: &'static [(u8, &'static [u8])])
        ensures
            final(self)@ == (EepromView {
                custom_atoms: Seq::new(atoms@.len(), |i: int| (atoms@[i].0, atoms@[i].1@)),
                ..old(self)@
            }),
    {
        let mut copies: Vec<(u8, Vec<u8>)> = Vec::new();
        let n: usize = atoms.len();
        let mut i: usize = 0;
        while i < n
            invariant
                i <= n,
                n == atoms@.len(),
                copies@.len() == i,
                forall|k: int|
                    0 <= k < i ==> (#[trigger] copies@[k]).0 == atoms@[k].0 && copies@[k].1@
                        == atoms@[k].1@,
            decreases n - i,
        {
            let payload: &[u8] = atoms[i].1;
            let copy = copy_range(payload, 0, payload.len());
            assert(copy@ =~= payload@);
            copies.push((atoms[i].0, copy));
            i += 1;
        }
        self.custom_atoms = copies;
        assert(custom_atoms_view(self.custom_atoms@) =~= Seq::new(
            atoms@.len(),
            |i: int| (atoms@[i].0, atoms@[i].1@),
        ));
    }
}

} // verus!
