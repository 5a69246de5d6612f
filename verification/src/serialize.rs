//! Writing an image: to a fresh vector, to a caller's buffer, and with the
//! CRC-32 trailer; and checking such a trailer.

use vstd::prelude::*;
use vstd::slice::slice_subrange;
use crate::atoms::{gpio_map_bytes, header_bytes, vendor_info_bytes, AtomHeader, AtomType};
use crate::eeprom::{custom_atoms_view, payload_total, record_bytes, records_bytes, Eeprom,
    EepromView};
use crate::error::EhatromError;
use crate::utils::crc32::{crc32, Hasher};
use crate::wire::{get_le32, le32, push_bytes, push_le32, read_le32};

verus! {

/// `s` followed by its CRC-32, low byte first.
pub open spec fn with_crc(s: Seq<u8>) -> Seq<u8> {
    s + le32(crc32(s))
}

/// Whether the last four bytes of `s` hold, low byte first, the CRC-32 of
/// the bytes before them.
pub open spec fn crc_matches(s: Seq<u8>) -> bool {
    s.len() >= 4 && read_le32(s, s.len() - 4) == crc32(s.take(s.len() - 4))
}

/// `buf` with the bytes from `at` on replaced by `bytes`, as far as they reach.
/// Proofs that need the definition reveal it; `lemma_overwritten_front` and
/// `lemma_overwritten_twice` give what callers mostly want.
#[verifier::opaque]
pub open spec fn overwritten(buf: Seq<u8>, at: int, bytes: Seq<u8>) -> Seq<u8> {
    buf.subrange(0, at) + bytes + buf.subrange(at + bytes.len(), buf.len() as int)
}

/// Atoms written one run after the other are written as one run.
pub proof fn lemma_records_bytes_concat(a: Seq<(u8, Seq<u8>)>, b: Seq<(u8, Seq<u8>)>)
    ensures
        records_bytes(a + b) == records_bytes(a) + records_bytes(b),
    decreases b.len(),
{
    if b.len() == 0 {
        assert(a + b =~= a);
        assert(records_bytes(a) + records_bytes(b) =~= records_bytes(a));
    } else {
        lemma_records_bytes_concat(a, b.drop_last());
        assert((a + b).drop_last() =~= a + b.drop_last());
        assert((a + b).last() == b.last());
        assert(records_bytes(a) + (records_bytes(b.drop_last()) + record_bytes(b.last()))
            =~= (records_bytes(a) + records_bytes(b.drop_last())) + record_bytes(b.last()));
    }
}

/// A run of one atom is that atom.
pub proof fn lemma_records_bytes_single(r: (u8, Seq<u8>))
    ensures
        records_bytes(seq![r]) == record_bytes(r),
{
    assert(seq![r].drop_last() =~= Seq::<(u8, Seq<u8>)>::empty());
    assert(records_bytes(seq![r].drop_last()) =~= Seq::<u8>::empty());
    assert(Seq::<u8>::empty() + record_bytes(r) =~= record_bytes(r));
}

/// A run of atoms takes eight bytes for each atom and the payloads.
pub proof fn lemma_records_bytes_len(rs: Seq<(u8, Seq<u8>)>)
    ensures
        records_bytes(rs).len() == 8 * rs.len() + payload_total(rs),
    decreases rs.len(),
{
    if rs.len() > 0 {
        lemma_records_bytes_len(rs.drop_last());
    }
}

/// The payload total of two runs is the sum of their totals.
pub proof fn lemma_payload_total_concat(a: Seq<(u8, Seq<u8>)>, b: Seq<(u8, Seq<u8>)>)
    ensures
        payload_total(a + b) == payload_total(a) + payload_total(b),
    decreases b.len(),
{
    if b.len() == 0 {
        assert(a + b =~= a);
    } else {
        lemma_payload_total_concat(a, b.drop_last());
        assert((a + b).drop_last() =~= a + b.drop_last());
        assert((a + b).last() == b.last());
    }
}

/// The payload total of one atom is the length of its payload.
pub proof fn lemma_payload_total_single(r: (u8, Seq<u8>))
    ensures
        payload_total(seq![r]) == r.1.len(),
{
    assert(seq![r].drop_last() =~= Seq::<(u8, Seq<u8>)>::empty());
    assert(payload_total(seq![r].drop_last()) == 0);
}

/// Writing one more atom after a run extends the run by that atom.
proof fn lemma_append_record(head: Seq<u8>, done: Seq<(u8, Seq<u8>)>, r: (u8, Seq<u8>))
    ensures
        (head + records_bytes(done)) + record_bytes(r) == head + records_bytes(done.push(r)),
{
    assert(done.push(r).drop_last() =~= done);
    assert((head + records_bytes(done)) + record_bytes(r) =~= head + (records_bytes(done)
        + record_bytes(r)));
}

/// Writing a trailer behind an image at the start of a buffer is writing both
/// at once.
pub proof fn lemma_overwritten_twice(buf: Seq<u8>, a: Seq<u8>, t: Seq<u8>)
    requires
        a.len() + t.len() <= buf.len(),
    ensures
        overwritten(overwritten(buf, 0, a), a.len() as int, t) == overwritten(buf, 0, a + t),
{
    reveal(overwritten);
    assert(overwritten(overwritten(buf, 0, a), a.len() as int, t) =~= overwritten(buf, 0, a + t));
}

/// The written image is as long as the length formula says.
pub proof fn lemma_serialized_len(v: EepromView)
    requires
        v.wf(),
    ensures
        v.serialized().len() == v.serialized_len(),
        v.records().len() == v.atom_count(),
{
    let fixed = seq![(1u8, vendor_info_bytes(v.vendor_info)), (2u8, gpio_map_bytes(v.gpio_map_bank0))];
    let dt = match v.dt_blob {
        Some(blob) => seq![(3u8, blob)],
        None => Seq::empty(),
    };
    let bank1 = match v.gpio_map_bank1 {
        Some(bank) => seq![(4u8, gpio_map_bytes(bank))],
        None => Seq::empty(),
    };
    lemma_records_bytes_len(v.records());
    lemma_payload_total_concat(fixed + dt + bank1, v.custom_atoms);
    lemma_payload_total_concat(fixed + dt, bank1);
    lemma_payload_total_concat(fixed, dt);
    lemma_payload_total_single((1u8, vendor_info_bytes(v.vendor_info)));
    lemma_payload_total_single((2u8, gpio_map_bytes(v.gpio_map_bank0)));
    lemma_payload_total_concat(
        seq![(1u8, vendor_info_bytes(v.vendor_info))],
        seq![(2u8, gpio_map_bytes(v.gpio_map_bank0))],
    );
    assert(fixed =~= seq![(1u8, vendor_info_bytes(v.vendor_info))] + seq![
        (2u8, gpio_map_bytes(v.gpio_map_bank0)),
    ]);
    match v.dt_blob {
        Some(blob) => {
            lemma_payload_total_single((3u8, blob));
        },
        None => {},
    }
    match v.gpio_map_bank1 {
        Some(bank) => {
            lemma_payload_total_single((4u8, gpio_map_bytes(bank)));
        },
        None => {},
    }
}

/// Copies `src` over the bytes of `buffer` from `at` on.
fn copy_into(buffer: &mut [u8], at: usize, src: &[u8])
    requires
        at + src@.len() <= old(buffer)@.len(),
    ensures
        final(buffer)@.len() == old(buffer)@.len(),
        final(buffer)@ == overwritten(old(buffer)@, at as int, src@),
{
    let n: usize = src.len();
    let len: usize = buffer.len();
    let mut i: usize = 0;
    while i < n
        invariant
            i <= n,
            n == src@.len(),
            len == buffer@.len(),
            len == old(buffer)@.len(),
            at + n <= len,
            forall|k: int| 0 <= k < at ==> #[trigger] buffer@[k] == old(buffer)@[k],
            forall|k: int| at <= k < at + i ==> #[trigger] buffer@[k] == src@[k - at],
            forall|k: int| at + i <= k < len ==> #[trigger] buffer@[k] == old(buffer)@[k],
        decreases n - i,
    {
        buffer[at + i] = src[i];
        i += 1;
    }
    assert(buffer@ =~= overwritten(old(buffer)@, at as int, src@)) by {
        reveal(overwritten);
    }
}

/// Appends one atom: its header, then its payload.
fn push_record(bytes: &mut Vec<u8>, atom_type: u8, payload: &[u8])
    ensures
        final(bytes)@ == old(bytes)@ + record_bytes((atom_type, payload@)),
{
    AtomHeader::for_payload(atom_type, payload.len()).write_to(bytes);
    push_bytes(bytes, payload);
    assert(bytes@ =~= old(bytes)@ + record_bytes((atom_type, payload@)));
}

/// Writes the CRC-32 of the first `at` bytes of `buffer` behind them, if
/// four more bytes fit there.
fn put_crc(buffer: &mut [u8], at: usize) -> (fits: bool)
    requires
        at <= old(buffer)@.len(),
    ensures
        final(buffer)@.len() == old(buffer)@.len(),
        fits == (at + 4 <= old(buffer)@.len()),
        fits ==> final(buffer)@ == overwritten(
            old(buffer)@,
            at as int,
            le32(crc32(old(buffer)@.take(at as int))),
        ),
        !fits ==> final(buffer)@ == old(buffer)@,
{
    if buffer.len() - at < 4 {
        return false;
    }
    let mut hasher = Hasher::new();
    let content = slice_subrange(buffer, 0, at);
    assert(content@ =~= buffer@.take(at as int));
    hasher.update(content);
    let crc = hasher.finalize();
    let mut trailer: Vec<u8> = Vec::new();
    push_le32(&mut trailer, crc);
    assert(trailer@ =~= le32(crc));
    copy_into(buffer, at, trailer.as_slice());
    true
}

/// An image written at the start of a buffer can be read off its start.
pub proof fn lemma_overwritten_front(buf: Seq<u8>, a: Seq<u8>)
    requires
        a.len() <= buf.len(),
    ensures
        overwritten(buf, 0, a).len() == buf.len(),
        overwritten(buf, 0, a).take(a.len() as int) == a,
{
    reveal(overwritten);
    assert(overwritten(buf, 0, a).take(a.len() as int) =~= a);
}

impl Eeprom {
    /// Appends the image to `bytes`: the header, the vendor info, GPIO
    /// bank 0, the device-tree blob and GPIO bank 1 where present, then
    /// the custom atoms in stored order.
    pub fn serialize_to_vec(&self, bytes: &mut Vec<u8>)
        ensures
            final(bytes)@ == old(bytes)@ + self@.serialized(),
    {
        let ghost start = bytes@;
        let ghost head = start + header_bytes(self@.header);
        let ghost mut done: Seq<(u8, Seq<u8>)> = Seq::empty();
        self.header.write_to(bytes);
        assert(bytes@ =~= head + records_bytes(done));

        let mut payload: Vec<u8> = Vec::new();
        self.vendor_info.write_to(&mut payload);
        assert(payload@ =~= vendor_info_bytes(self@.vendor_info));
        push_record(bytes, AtomType::VendorInfo.code(), payload.as_slice());
        proof {
            lemma_append_record(head, done, (1u8, payload@));
            done = done.push((1u8, payload@));
        }

        let mut payload: Vec<u8> = Vec::new();
        self.gpio_map_bank0.write_to(&mut payload);
        assert(payload@ =~= gpio_map_bytes(self@.gpio_map_bank0));
        push_record(bytes, AtomType::GpioMapBank0.code(), payload.as_slice());
        proof {
            lemma_append_record(head, done, (2u8, payload@));
            done = done.push((2u8, payload@));
        }

        match &self.dt_blob {
            Some(blob) => {
                push_record(bytes, AtomType::DtBlob.code(), blob.as_slice());
                proof {
                    lemma_append_record(head, done, (3u8, blob@));
                    done = done.push((3u8, blob@));
                }
            },
            None => {},
        }

        match &self.gpio_map_bank1 {
            Some(bank) => {
                let mut payload: Vec<u8> = Vec::new();
                bank.write_to(&mut payload);
                assert(payload@ =~= gpio_map_bytes(bank@));
                push_record(bytes, AtomType::GpioMapBank1.code(), payload.as_slice());
                proof {
                    lemma_append_record(head, done, (4u8, payload@));
                    done = done.push((4u8, payload@));
                }
            },
            None => {},
        }

        let ghost fixed = done;
        let ghost customs = self@.custom_atoms;
        assert(self@.records() =~= fixed + customs);
        let n: usize = self.custom_atoms.len();
        let mut i: usize = 0;
        assert(fixed + customs.take(0) =~= fixed);
        while i < n
            invariant
                i <= n,
                n == self.custom_atoms@.len(),
                customs == custom_atoms_view(self.custom_atoms@),
                bytes@ == head + records_bytes(fixed + customs.take(i as int)),
            decreases n - i,
        {
            push_record(bytes, self.custom_atoms[i].0, self.custom_atoms[i].1.as_slice());
            proof {
                let prior = fixed + customs.take(i as int);
                lemma_append_record(head, prior, customs[i as int]);
                assert(prior.push(customs[i as int]) =~= fixed + customs.take(i + 1));
            }
            i += 1;
        }
        proof {
            assert(customs.take(n as int) =~= customs);
            assert(head + records_bytes(self@.records()) =~= start + self@.serialized());
        }
    }

    /// The image on the wire, without a checksum trailer.
    pub fn serialize(&self) -> (bytes: Vec<u8>)
        ensures
            bytes@ == self@.serialized(),
    {
        let mut bytes: Vec<u8> = Vec::new();
        self.serialize_to_vec(&mut bytes);
        assert(bytes@ =~= self@.serialized());
        bytes
    }

    /// The image on the wire, followed by the CRC-32 of those bytes, low
    /// byte first.
    pub fn serialize_with_crc(&self) -> (bytes: Vec<u8>)
        ensures
            bytes@ == with_crc(self@.serialized()),
    {
        let mut data = self.serialize();
        let mut hasher = Hasher::new();
        hasher.update(data.as_slice());
        let crc = hasher.finalize();
        push_le32(&mut data, crc);
        data
    }

    /// Whether `data` ends in the CRC-32 of what stands before its last
    /// four bytes. Fewer than four bytes never do.
    pub fn verify_crc(data: &[u8]) -> (ok: bool)
        ensures
            ok == crc_matches(data@),
    {
        let len: usize = data.len();
        if len < 4 {
            return false;
        }
        let content = slice_subrange(data, 0, len - 4);
        assert(content@ =~= data@.take(len - 4));
        let mut hasher = Hasher::new();
        hasher.update(content);
        let crc = hasher.finalize();
        get_le32(data, len - 4) == crc
    }

    /// Writes the image into `buffer` from `*offset` on and moves `*offset`
    /// past it. When the image does not fit between `*offset` and the end of
    /// `buffer`, nothing is written.
    pub fn serialize_to_buffer(&self, buffer: &mut [u8], offset: &mut usize) -> (r: Result<
        (),
        EhatromError,
    >)
        ensures
            final(buffer)@.len() == old(buffer)@.len(),
            r is Ok <==> *old(offset) + self@.serialized_len() <= old(buffer)@.len(),
            r is Ok ==> final(buffer)@ == overwritten(
                old(buffer)@,
                *old(offset) as int,
                self@.serialized(),
            ) && *final(offset) == *old(offset) + self@.serialized_len(),
            r is Err ==> {
                &&& r == Err::<(), EhatromError>(EhatromError::BufferTooSmall)
                &&& final(buffer)@ == old(buffer)@
                &&& *final(offset) == *old(offset)
            },
    {
        let at: usize = *offset;
        let len: usize = buffer.len();
        if at > len {
            return Err(EhatromError::BufferTooSmall);
        }
        match self.fits_in(len - at) {
            None => Err(EhatromError::BufferTooSmall),
            Some(size) => {
                let bytes = self.serialize();
                proof {
                    lemma_serialized_len(self@);
                }
                copy_into(buffer, at, bytes.as_slice());
                *offset = at + size;
                Ok(())
            },
        }
    }

    /// Writes the image at the start of `buffer` and returns its length, or
    /// fails with `BufferTooSmall`, writing nothing, when `buffer` is shorter
    /// than the image.
    pub fn serialize_to_slice_universal(&self, buffer: &mut [u8]) -> (r: Result<
        usize,
        EhatromError,
    >)
        ensures
            final(buffer)@.len() == old(buffer)@.len(),
            match r {
                Ok(n) => {
                    &&& n == self@.serialized_len()
                    &&& n <= old(buffer)@.len()
                    &&& final(buffer)@ == overwritten(old(buffer)@, 0, self@.serialized())
                },
                Err(e) => {
                    &&& e == EhatromError::BufferTooSmall
                    &&& self@.serialized_len() > old(buffer)@.len()
                    &&& final(buffer)@ == old(buffer)@
                },
            },
    {
        let mut offset: usize = 0;
        match self.serialize_to_buffer(buffer, &mut offset) {
            Ok(()) => Ok(offset),
            Err(e) => Err(e),
        }
    }

    /// The same as [`Eeprom::serialize_to_slice_universal`].
    pub fn serialize_to_slice(&self, buffer: &mut [u8]) -> (r: Result<usize, EhatromError>)
        ensures
            final(buffer)@.len() == old(buffer)@.len(),
            match r {
                Ok(n) => {
                    &&& n == self@.serialized_len()
                    &&& n <= old(buffer)@.len()
                    &&& final(buffer)@ == overwritten(old(buffer)@, 0, self@.serialized())
                },
                Err(e) => {
                    &&& e == EhatromError::BufferTooSmall
                    &&& self@.serialized_len() > old(buffer)@.len()
                    &&& final(buffer)@ == old(buffer)@
                },
            },
    {
        self.serialize_to_slice_universal(buffer)
    }

    /// Writes the image and its CRC-32 trailer at the start of `buffer` and
    /// returns the length of both. When `buffer` holds the image but not the
    /// trailer, the image is written and the call fails; when it does not
    /// hold the image, nothing is written.
    pub fn serialize_with_crc_to_slice(&self, buffer: &mut [u8]) -> (r: Result<
        usize,
        EhatromError,
    >)
        ensures
            final(buffer)@.len() == old(buffer)@.len(),
            match r {
                Ok(n) => {
                    &&& n == self@.serialized_len() + 4
                    &&& n <= old(buffer)@.len()
                    &&& final(buffer)@ == overwritten(old(buffer)@, 0, with_crc(self@.serialized()))
                },
                Err(e) => {
                    &&& e == EhatromError::BufferTooSmall
                    &&& self@.serialized_len() + 4 > old(buffer)@.len()
                    &&& final(buffer)@ == (if self@.serialized_len() <= old(buffer)@.len() {
                        overwritten(old(buffer)@, 0, self@.serialized())
                    } else {
                        old(buffer)@
                    })
                },
            },
    {
        let len: usize = buffer.len();
        let data_len: usize = match self.serialize_to_slice(buffer) {
            Ok(n) => n,
            Err(e) => {
                return Err(e);
            },
        };
        let ghost image = self@.serialized();
        proof {
            lemma_serialized_len(self@);
            lemma_overwritten_front(old(buffer)@, image);
        }
        if put_crc(buffer, data_len) {
            proof {
                assert(data_len + 4 <= len);
                lemma_overwritten_twice(old(buffer)@, image, le32(crc32(image)));
            }
            Ok(data_len + 4)
        } else {
            Err(EhatromError::BufferTooSmall)
        }
    }
}

} // verus!
