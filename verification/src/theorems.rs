//! What holds of reading and writing together.

use vstd::prelude::*;
use crate::atoms::{atom_header_bytes, atom_header_for, atom_type_of, decode_atom_header,
    decode_header, gpio_map_bytes, header_bytes, lemma_gpio_map_round_trip,
    lemma_vendor_info_round_trip, signature_bytes, vendor_info_bytes, AtomType, HeaderView};
use crate::eeprom::{record_bytes, records_bytes, EepromView};
use crate::error::EhatromError;
use crate::parse::{collect, parse, place, scan, scan_next, Parsed, Scan, Slots};
use crate::serialize::{crc_matches, lemma_records_bytes_concat, lemma_serialized_len, with_crc};
use crate::utils::crc32::{crc32, lemma_crc32_one_byte_changed};
use crate::wire::{le16, le32, lemma_le32_round_trip, lemma_read_le32_injective, read_le16,
    read_le32};

verus! {

impl EepromView {
    /// An image whose atoms can be found again in its bytes: the header
    /// carries the signature and the number of atoms that the image holds,
    /// and every payload fits a 16-bit length.
    pub open spec fn framed(self) -> bool {
        &&& self.wf()
        &&& self.header.signature == signature_bytes()
        &&& self.header.numatoms == self.atom_count()
        &&& match self.dt_blob {
            Some(blob) => blob.len() <= 0xFFFF,
            None => true,
        }
        &&& forall|i: int|
            0 <= i < self.custom_atoms.len() ==> (#[trigger] self.custom_atoms[i]).1.len()
                <= 0xFFFF
    }

    /// An image that reading gives back as it was written: the header
    /// carries the signature, a zero reserved byte and the number of atoms
    /// that the image holds; the device-tree blob, if any, and every custom
    /// atom are not empty and fit a 16-bit length; and no custom atom uses
    /// one of the four known type codes.
    pub open spec fn canonical(self) -> bool {
        &&& self.wf()
        &&& self.header.signature == signature_bytes()
        &&& self.header.reserved == 0
        &&& self.header.numatoms == self.atom_count()
        &&& match self.dt_blob {
            Some(blob) => 0 < blob.len() <= 0xFFFF,
            None => true,
        }
        &&& forall|i: int|
            0 <= i < self.custom_atoms.len() ==> {
                &&& 0 < (#[trigger] self.custom_atoms[i]).1.len() <= 0xFFFF
                &&& atom_type_of(self.custom_atoms[i].0) == AtomType::Unknown
            }
    }
}

/// The first `k` atoms of a run are written at its start.
pub proof fn lemma_records_bytes_prefix(rs: Seq<(u8, Seq<u8>)>, k: int)
    requires
        0 <= k <= rs.len(),
    ensures
        records_bytes(rs.take(k)).len() <= records_bytes(rs).len(),
        records_bytes(rs).take(records_bytes(rs.take(k)).len() as int) == records_bytes(rs.take(k)),
{
    lemma_records_bytes_concat(rs.take(k), rs.skip(k));
    assert(rs.take(k) + rs.skip(k) =~= rs);
    assert((records_bytes(rs.take(k)) + records_bytes(rs.skip(k))).take(
        records_bytes(rs.take(k)).len() as int,
    ) =~= records_bytes(rs.take(k)));
}

/// The first `k + 1` atoms of a run are the first `k` and then atom `k`.
pub proof fn lemma_records_bytes_step(rs: Seq<(u8, Seq<u8>)>, k: int)
    requires
        0 <= k < rs.len(),
    ensures
        records_bytes(rs.take(k + 1)) == records_bytes(rs.take(k)) + record_bytes(rs[k]),
{
    assert(rs.take(k + 1).drop_last() =~= rs.take(k));
    assert(rs.take(k + 1).last() == rs[k]);
}

/// An atom header is read back from where a written atom starts.
proof fn lemma_read_record_header(data: Seq<u8>, at: int, r: (u8, Seq<u8>))
    requires
        0 <= at,
        at + 8 <= data.len(),
        r.1.len() <= 0xFFFF,
        data.subrange(at, at + 8) == record_bytes(r).take(8),
    ensures
        decode_atom_header(data, at) == atom_header_for(r.0, r.1.len()),
        decode_atom_header(data, at).dlen == r.1.len(),
{
    let h = atom_header_for(r.0, r.1.len());
    let w = record_bytes(r).take(8);
    assert(w =~= atom_header_bytes(h));
    let s = data.subrange(at, at + 8);
    assert(data[at] == s[0]);
    assert(data[at + 1] == s[1]);
    assert(data[at + 2] == s[2]);
    assert(data[at + 3] == s[3]);
    assert(data[at + 4] == s[4]);
    assert(data[at + 5] == s[5]);
    assert(data[at + 6] == s[6]);
    assert(data[at + 7] == s[7]);
}

/// Scanning bytes that hold the first `k` atoms of a written run finds
/// those atoms.
pub proof fn lemma_scan_written(data: Seq<u8>, rs: Seq<(u8, Seq<u8>)>, k: nat)
    requires
        k <= rs.len(),
        forall|i: int| 0 <= i < k ==> (#[trigger] rs[i]).1.len() <= 0xFFFF,
        12 + records_bytes(rs.take(k as int)).len() as int <= data.len(),
        data.subrange(12, 12 + records_bytes(rs.take(k as int)).len() as int) == records_bytes(
            rs.take(k as int),
        ),
    ensures
        scan(data, k) == Some(
            Scan { records: rs.take(k as int), end: 12 + records_bytes(rs.take(k as int)).len() as int },
        ),
    decreases k,
{
    if k == 0 {
        assert(rs.take(0) =~= Seq::<(u8, Seq<u8>)>::empty());
    } else {
        let prev = rs.take(k - 1);
        let r = rs[k - 1];
        let whole = records_bytes(rs.take(k as int));
        let p = records_bytes(prev).len() as int;
        lemma_records_bytes_step(rs, k - 1);
        assert(whole == records_bytes(prev) + record_bytes(r));
        assert(data.subrange(12, 12 + p) =~= records_bytes(prev)) by {
            assert(data.subrange(12, 12 + p) =~= data.subrange(12, 12 + whole.len() as int).take(p));
            assert(whole.take(p) =~= records_bytes(prev));
        }
        lemma_scan_written(data, rs, (k - 1) as nat);
        let at = 12 + p;
        let len = r.1.len() as int;
        assert(record_bytes(r).len() == 8 + len);
        assert(data.subrange(at, at + 8 + len) =~= record_bytes(r)) by {
            assert(data.subrange(at, at + 8 + len) =~= data.subrange(12, 12 + whole.len() as int).skip(p));
            assert(whole.skip(p) =~= record_bytes(r));
        }
        assert(data.subrange(at, at + 8) =~= record_bytes(r).take(8)) by {
            assert(data.subrange(at, at + 8) =~= data.subrange(at, at + 8 + len).take(8));
        }
        lemma_read_record_header(data, at, r);
        assert(data.subrange(at + 8, at + 8 + len) =~= r.1) by {
            assert(data.subrange(at + 8, at + 8 + len) =~= data.subrange(at, at + 8 + len).skip(8));
            assert(record_bytes(r).skip(8) =~= r.1);
        }
        let prev_scan = Scan { records: prev, end: at };
        assert(scan(data, (k - 1) as nat) == Some(prev_scan));
        assert(prev.push(r) =~= rs.take(k as int));
        assert(scan_next(data, prev_scan) == Some(
            Scan { records: rs.take(k as int), end: 12 + whole.len() as int },
        ));
    }
}

/// Sorting one more atom into the slots.
pub proof fn lemma_collect_push(rs: Seq<(u8, Seq<u8>)>, r: (u8, Seq<u8>))
    ensures
        collect(rs.push(r)) == place(collect(rs), r),
{
    assert(rs.push(r).drop_last() =~= rs);
}

/// Custom atoms that follow other atoms are appended to the custom slot
/// and leave the other slots alone.
proof fn lemma_collect_customs(fixed: Seq<(u8, Seq<u8>)>, customs: Seq<(u8, Seq<u8>)>, k: int)
    requires
        0 <= k <= customs.len(),
        forall|i: int|
            0 <= i < customs.len() ==> (#[trigger] customs[i]).1.len() > 0 && atom_type_of(
                customs[i].0,
            ) == AtomType::Unknown,
    ensures
        collect(fixed + customs.take(k)) == (Slots {
            custom_atoms: collect(fixed).custom_atoms + customs.take(k),
            ..collect(fixed)
        }),
    decreases k,
{
    if k == 0 {
        assert(fixed + customs.take(0) =~= fixed);
        assert(collect(fixed).custom_atoms + customs.take(0) =~= collect(fixed).custom_atoms);
    } else {
        lemma_collect_customs(fixed, customs, k - 1);
        lemma_collect_push(fixed + customs.take(k - 1), customs[k - 1]);
        assert((fixed + customs.take(k - 1)).push(customs[k - 1]) =~= fixed + customs.take(k));
        assert((collect(fixed).custom_atoms + customs.take(k - 1)).push(customs[k - 1]) =~= collect(
            fixed,
        ).custom_atoms + customs.take(k));
    }
}

/// The atoms of a canonical image sort back into that image's fields.
pub proof fn lemma_collect_written(v: EepromView)
    requires
        v.canonical(),
    ensures
        collect(v.records()) == (Slots {
            vendor_info: Some(v.vendor_info),
            gpio_map_bank0: Some(v.gpio_map_bank0),
            dt_blob: v.dt_blob,
            gpio_map_bank1: v.gpio_map_bank1,
            custom_atoms: v.custom_atoms,
            skipped: 0,
        }),
{
    let a = (1u8, vendor_info_bytes(v.vendor_info));
    let b = (2u8, gpio_map_bytes(v.gpio_map_bank0));
    lemma_vendor_info_round_trip(v.vendor_info);
    lemma_gpio_map_round_trip(v.gpio_map_bank0);
    let none = Seq::<(u8, Seq<u8>)>::empty();
    let s1 = none.push(a);
    lemma_collect_push(none, a);
    let s2 = s1.push(b);
    lemma_collect_push(s1, b);
    let s3 = match v.dt_blob {
        Some(blob) => s2.push((3u8, blob)),
        None => s2,
    };
    match v.dt_blob {
        Some(blob) => {
            lemma_collect_push(s2, (3u8, blob));
        },
        None => {},
    }
    let s4 = match v.gpio_map_bank1 {
        Some(bank) => s3.push((4u8, gpio_map_bytes(bank))),
        None => s3,
    };
    match v.gpio_map_bank1 {
        Some(bank) => {
            lemma_gpio_map_round_trip(bank);
            lemma_collect_push(s3, (4u8, gpio_map_bytes(bank)));
        },
        None => {},
    }
    assert(collect(s4) == (Slots {
        vendor_info: Some(v.vendor_info),
        gpio_map_bank0: Some(v.gpio_map_bank0),
        dt_blob: v.dt_blob,
        gpio_map_bank1: v.gpio_map_bank1,
        custom_atoms: Seq::empty(),
        skipped: 0,
    }));
    lemma_collect_customs(s4, v.custom_atoms, v.custom_atoms.len() as int);
    assert(v.custom_atoms.take(v.custom_atoms.len() as int) =~= v.custom_atoms);
    assert(s4 + v.custom_atoms =~= v.records());
    assert(Seq::<(u8, Seq<u8>)>::empty() + v.custom_atoms =~= v.custom_atoms);
}

/// The twelve bytes of a written header, one by one.
proof fn lemma_header_bytes(h: HeaderView)
    requires
        h.signature.len() == 4,
    ensures
        header_bytes(h).len() == 12,
        header_bytes(h).subrange(0, 4) == h.signature,
        header_bytes(h)[4] == h.version,
        header_bytes(h)[5] == 0,
        read_le16(header_bytes(h), 6) == h.numatoms,
        read_le32(header_bytes(h), 8) == h.eeplen,
{
    let front = h.signature + seq![h.version, 0u8];
    let s = header_bytes(h);
    assert(front.len() == 6);
    assert(s == front + le16(h.numatoms) + le32(h.eeplen));
    assert(s.subrange(0, 4) =~= h.signature);
    assert(s[4] == front[4]);
    assert(s[5] == front[5]);
    assert(s[6] == le16(h.numatoms)[0]);
    assert(s[7] == le16(h.numatoms)[1]);
    assert(s[8] == le32(h.eeplen)[0]);
    assert(s[9] == le32(h.eeplen)[1]);
    assert(s[10] == le32(h.eeplen)[2]);
    assert(s[11] == le32(h.eeplen)[3]);
}

/// A written header with a zero reserved byte is read back as it was.
pub proof fn lemma_header_round_trip(h: HeaderView, rest: Seq<u8>)
    requires
        h.signature.len() == 4,
        h.reserved == 0,
    ensures
        header_bytes(h).len() == 12,
        decode_header(header_bytes(h) + rest) == h,
        (header_bytes(h) + rest).subrange(0, 4) == h.signature,
{
    lemma_header_bytes(h);
    let hb = header_bytes(h);
    let s = hb + rest;
    assert(s.subrange(0, 4) =~= hb.subrange(0, 4));
    assert forall|i: int| 0 <= i < 12 implies s[i] == hb[i] by {}
    assert(read_le16(s, 6) == read_le16(hb, 6));
    assert(read_le32(s, 8) == read_le32(hb, 8));
}

/// Every payload of a framed image fits a 16-bit length.
proof fn lemma_framed_payloads(v: EepromView)
    requires
        v.framed(),
    ensures
        forall|i: int| 0 <= i < v.records().len() ==> (#[trigger] v.records()[i]).1.len() <= 0xFFFF,
{
    lemma_vendor_info_round_trip(v.vendor_info);
    lemma_gpio_map_round_trip(v.gpio_map_bank0);
    match v.gpio_map_bank1 {
        Some(bank) => {
            lemma_gpio_map_round_trip(bank);
        },
        None => {},
    }
    assert forall|i: int| 0 <= i < v.records().len() implies (#[trigger] v.records()[i]).1.len()
        <= 0xFFFF by {
        let f = v.records().len() - v.custom_atoms.len();
        if i >= f {
            assert(v.records()[i] == v.custom_atoms[i - f]);
        }
    }
}

/// Reading what was written gives the image back: for a canonical image,
/// reading its serialized bytes, with or without further bytes behind them,
/// gives that image with nothing dropped.
pub proof fn theorem_round_trip(v: EepromView, rest: Seq<u8>)
    requires
        v.canonical(),
    ensures
        parse(v.serialized() + rest) == Ok::<Parsed, EhatromError>(Parsed { eeprom: v, skipped: 0 }),
{
    let data = v.serialized() + rest;
    let rs = v.records();
    let body = records_bytes(rs);
    lemma_serialized_len(v);
    lemma_framed_payloads(v);
    lemma_header_round_trip(v.header, body + rest);
    assert(data =~= header_bytes(v.header) + (body + rest));
    assert(rs.take(rs.len() as int) =~= rs);
    assert(data.subrange(12, 12 + body.len() as int) =~= body);
    lemma_scan_written(data, rs, rs.len());
    lemma_collect_written(v);
}

/// An image written with its checksum trailer passes the checksum test,
/// and the bytes before the trailer are the image.
pub proof fn theorem_written_crc_matches(s: Seq<u8>)
    ensures
        crc_matches(with_crc(s)),
        with_crc(s).len() == s.len() + 4,
        with_crc(s).take(with_crc(s).len() - 4) == s,
{
    let w = with_crc(s);
    let c = crc32(s);
    lemma_le32_round_trip(c);
    assert(w.take(w.len() - 4) =~= s);
    assert(w[s.len() as int] == le32(c)[0]);
    assert(w[s.len() as int + 1] == le32(c)[1]);
    assert(w[s.len() as int + 2] == le32(c)[2]);
    assert(w[s.len() as int + 3] == le32(c)[3]);
}

/// Writing an image with its checksum trailer and reading it back: the
/// trailer passes the checksum test, and reading gives the image back
/// whether or not the trailer is cut off first.
pub proof fn theorem_round_trip_with_crc(v: EepromView)
    requires
        v.canonical(),
    ensures
        crc_matches(with_crc(v.serialized())),
        parse(with_crc(v.serialized()).take(with_crc(v.serialized()).len() - 4)) == Ok::<
            Parsed,
            EhatromError,
        >(Parsed { eeprom: v, skipped: 0 }),
        parse(with_crc(v.serialized())) == Ok::<Parsed, EhatromError>(
            Parsed { eeprom: v, skipped: 0 },
        ),
{
    let s = v.serialized();
    theorem_written_crc_matches(s);
    theorem_round_trip(v, Seq::empty());
    assert(s + Seq::<u8>::empty() =~= s);
    theorem_round_trip(v, le32(crc32(s)));
}

/// A buffer of twelve bytes or more that does not start with `R-Pi` is
/// refused for its signature, whatever else it holds.
pub proof fn theorem_bad_signature(data: Seq<u8>)
    requires
        data.len() >= 12,
        data.subrange(0, 4) != signature_bytes(),
    ensures
        parse(data) == Err::<Parsed, EhatromError>(EhatromError::BadSignature),
{
}

/// After the header is recomputed, its length field is the length of the
/// written image, as long as that length fits the field; and its atom count
/// is the number of atoms written, as long as that fits.
pub proof fn theorem_header_consistent(v: EepromView)
    requires
        v.wf(),
    ensures
        v.serialized_len() <= u32::MAX ==> v.recomputed().header.eeplen
            == v.recomputed().serialized().len(),
        v.atom_count() <= u16::MAX ==> v.recomputed().header.numatoms
            == v.recomputed().records().len(),
{
    let r = v.recomputed();
    assert(r.atom_count() == v.atom_count());
    assert(r.serialized_len() == v.serialized_len());
    lemma_serialized_len(r);
}

/// Scanning a buffer that breaks off inside a written run of atoms finds
/// the atoms that it holds in full and then fails.
proof fn lemma_scan_cut(cut: Seq<u8>, rs: Seq<(u8, Seq<u8>)>, k: nat)
    requires
        k <= rs.len(),
        forall|i: int| 0 <= i < rs.len() ==> (#[trigger] rs[i]).1.len() <= 0xFFFF,
        12 <= cut.len(),
        cut.len() - 12 <= records_bytes(rs).len(),
        cut.subrange(12, cut.len() as int) == records_bytes(rs).take(cut.len() - 12),
    ensures
        records_bytes(rs.take(k as int)).len() <= cut.len() - 12 ==> scan(cut, k) == Some(
            Scan { records: rs.take(k as int), end: 12 + records_bytes(rs.take(k as int)).len() as int },
        ),
        records_bytes(rs.take(k as int)).len() > cut.len() - 12 ==> scan(cut, k) is None,
    decreases k,
{
    let body = records_bytes(rs);
    let room = cut.len() - 12;
    let lk = records_bytes(rs.take(k as int)).len() as int;
    lemma_records_bytes_prefix(rs, k as int);
    if lk <= room {
        assert(cut.subrange(12, 12 + lk) =~= records_bytes(rs.take(k as int))) by {
            assert(cut.subrange(12, 12 + lk) =~= cut.subrange(12, cut.len() as int).take(lk));
            assert(body.take(room).take(lk) =~= body.take(lk));
        }
        lemma_scan_written(cut, rs, k);
    } else {
        if k == 0 {
            assert(rs.take(0) =~= Seq::<(u8, Seq<u8>)>::empty());
        } else {
            lemma_scan_cut(cut, rs, (k - 1) as nat);
            let lp = records_bytes(rs.take(k - 1)).len() as int;
            let r = rs[k - 1];
            lemma_records_bytes_step(rs, k - 1);
            if lp <= room {
                let at = 12 + lp;
                if at + 8 <= cut.len() {
                    assert(cut.subrange(at, at + 8) =~= record_bytes(r).take(8)) by {
                        assert forall|j: int| 0 <= j < 8 implies cut[at + j] == record_bytes(r)[j] by {
                            assert(cut[at + j] == cut.subrange(12, cut.len() as int)[lp + j]);
                            assert(body.take(room)[lp + j] == body[lp + j]);
                            assert(body[lp + j] == body.take(lk)[lp + j]);
                        }
                    }
                    lemma_read_record_header(cut, at, r);
                }
            }
        }
    }
}

/// Reading an image that was cut short fails: every proper prefix of the
/// serialized bytes of a framed image is refused as too short.
pub proof fn theorem_truncated(v: EepromView, n: int)
    requires
        v.framed(),
        0 <= n < v.serialized().len(),
    ensures
        parse(v.serialized().take(n)) == Err::<Parsed, EhatromError>(EhatromError::TooShort),
{
    let cut = v.serialized().take(n);
    if n >= 12 {
        let rs = v.records();
        let body = records_bytes(rs);
        let hb = header_bytes(v.header);
        lemma_serialized_len(v);
        lemma_framed_payloads(v);
        lemma_header_bytes(v.header);
        assert(cut =~= hb + body.take(n - 12));
        assert(cut.subrange(0, 4) =~= hb.subrange(0, 4));
        assert forall|i: int| 0 <= i < 12 implies cut[i] == hb[i] by {}
        assert(read_le16(cut, 6) == read_le16(hb, 6));
        assert(cut.subrange(12, cut.len() as int) =~= body.take(n - 12));
        assert(rs.take(rs.len() as int) =~= rs);
        lemma_scan_cut(cut, rs, rs.len());
    }
}

/// Without a vendor-info atom of full length, no vendor info is decoded.
pub proof fn lemma_no_vendor_info(rs: Seq<(u8, Seq<u8>)>)
    requires
        forall|i: int| 0 <= i < rs.len() ==> !((#[trigger] rs[i]).0 == 1 && rs[i].1.len() >= 54),
    ensures
        collect(rs).vendor_info is None,
    decreases rs.len(),
{
    if rs.len() > 0 {
        lemma_no_vendor_info(rs.drop_last());
    }
}

/// Without a bank-0 GPIO map of full length, no such map is decoded.
pub proof fn lemma_no_gpio_bank0(rs: Seq<(u8, Seq<u8>)>)
    requires
        forall|i: int| 0 <= i < rs.len() ==> !((#[trigger] rs[i]).0 == 2 && rs[i].1.len() >= 30),
    ensures
        collect(rs).gpio_map_bank0 is None,
    decreases rs.len(),
{
    if rs.len() > 0 {
        lemma_no_gpio_bank0(rs.drop_last());
    }
}

/// A vendor-info atom of full length, wherever it stands, is decoded.
pub proof fn lemma_some_vendor_info(rs: Seq<(u8, Seq<u8>)>, i: int)
    requires
        0 <= i < rs.len(),
        rs[i].0 == 1,
        rs[i].1.len() >= 54,
    ensures
        collect(rs).vendor_info is Some,
    decreases rs.len(),
{
    if i < rs.len() - 1 {
        lemma_some_vendor_info(rs.drop_last(), i);
    }
}

/// A buffer whose atoms hold no vendor info of full length is refused with
/// `MissingVendorInfo`, whatever else they hold.
pub proof fn theorem_missing_vendor_info(data: Seq<u8>, sc: Scan)
    requires
        data.len() >= 12,
        data.subrange(0, 4) == signature_bytes(),
        scan(data, decode_header(data).numatoms as nat) == Some(sc),
        forall|i: int|
            0 <= i < sc.records.len() ==> !((#[trigger] sc.records[i]).0 == 1
                && sc.records[i].1.len() >= 54),
    ensures
        parse(data) == Err::<Parsed, EhatromError>(EhatromError::MissingVendorInfo),
{
    lemma_no_vendor_info(sc.records);
}

/// A buffer whose atoms hold a vendor info of full length but no bank-0 GPIO
/// map of full length is refused with `MissingGpioBank0`.
pub proof fn theorem_missing_gpio_bank0(data: Seq<u8>, sc: Scan, vendor_at: int)
    requires
        data.len() >= 12,
        data.subrange(0, 4) == signature_bytes(),
        scan(data, decode_header(data).numatoms as nat) == Some(sc),
        0 <= vendor_at < sc.records.len(),
        sc.records[vendor_at].0 == 1,
        sc.records[vendor_at].1.len() >= 54,
        forall|i: int|
            0 <= i < sc.records.len() ==> !((#[trigger] sc.records[i]).0 == 2
                && sc.records[i].1.len() >= 30),
    ensures
        parse(data) == Err::<Parsed, EhatromError>(EhatromError::MissingGpioBank0),
{
    lemma_some_vendor_info(sc.records, vendor_at);
    lemma_no_gpio_bank0(sc.records);
}

/// The bytes of a header that carries the signature and declares as many
/// atoms as `rs` holds, followed by those atoms and by anything else, scan
/// to exactly the atoms `rs`.
pub proof fn lemma_scan_image(h: HeaderView, rs: Seq<(u8, Seq<u8>)>, rest: Seq<u8>)
    requires
        h.signature == signature_bytes(),
        h.numatoms == rs.len(),
        forall|i: int| 0 <= i < rs.len() ==> (#[trigger] rs[i]).1.len() <= 0xFFFF,
    ensures
        ({
            let data = header_bytes(h) + records_bytes(rs) + rest;
            &&& data.len() >= 12
            &&& data.subrange(0, 4) == signature_bytes()
            &&& scan(data, decode_header(data).numatoms as nat) == Some(
                Scan { records: rs, end: 12 + records_bytes(rs).len() as int },
            )
        }),
{
    let body = records_bytes(rs);
    let data = header_bytes(h) + body + rest;
    lemma_header_bytes(h);
    let hb = header_bytes(h);
    assert(data.subrange(0, 4) =~= hb.subrange(0, 4));
    assert forall|i: int| 0 <= i < 12 implies data[i] == hb[i] by {}
    assert(read_le16(data, 6) == read_le16(hb, 6));
    assert(rs.take(rs.len() as int) =~= rs);
    assert(data.subrange(12, 12 + body.len() as int) =~= body);
    lemma_scan_written(data, rs, rs.len());
}

/// A written image whose atoms leave out the vendor info is refused with
/// `MissingVendorInfo`.
pub proof fn theorem_written_without_vendor_info(
    h: HeaderView,
    rs: Seq<(u8, Seq<u8>)>,
    rest: Seq<u8>,
)
    requires
        h.signature == signature_bytes(),
        h.numatoms == rs.len(),
        forall|i: int| 0 <= i < rs.len() ==> (#[trigger] rs[i]).1.len() <= 0xFFFF,
        forall|i: int| 0 <= i < rs.len() ==> (#[trigger] rs[i]).0 != 1,
    ensures
        parse(header_bytes(h) + records_bytes(rs) + rest) == Err::<Parsed, EhatromError>(
            EhatromError::MissingVendorInfo,
        ),
{
    lemma_scan_image(h, rs, rest);
    let data = header_bytes(h) + records_bytes(rs) + rest;
    theorem_missing_vendor_info(
        data,
        Scan { records: rs, end: 12 + records_bytes(rs).len() as int },
    );
}

/// A written image whose atoms hold a vendor info of full length but leave
/// out the GPIO map of bank 0 is refused with `MissingGpioBank0`.
pub proof fn theorem_written_without_gpio_bank0(
    h: HeaderView,
    rs: Seq<(u8, Seq<u8>)>,
    rest: Seq<u8>,
    vendor_at: int,
)
    requires
        h.signature == signature_bytes(),
        h.numatoms == rs.len(),
        forall|i: int| 0 <= i < rs.len() ==> (#[trigger] rs[i]).1.len() <= 0xFFFF,
        0 <= vendor_at < rs.len(),
        rs[vendor_at].0 == 1,
        rs[vendor_at].1.len() >= 54,
        forall|i: int| 0 <= i < rs.len() ==> (#[trigger] rs[i]).0 != 2,
    ensures
        parse(header_bytes(h) + records_bytes(rs) + rest) == Err::<Parsed, EhatromError>(
            EhatromError::MissingGpioBank0,
        ),
{
    lemma_scan_image(h, rs, rest);
    let data = header_bytes(h) + records_bytes(rs) + rest;
    theorem_missing_gpio_bank0(
        data,
        Scan { records: rs, end: 12 + records_bytes(rs).len() as int },
        vendor_at,
    );
}

/// The checksum catches every change of a single byte: a buffer that passes
/// the checksum test fails it once any one byte, of the content or of the
/// trailer, holds another value.
pub proof fn theorem_crc_detects_byte_change(buf: Seq<u8>, i: int, b: u8)
    requires
        crc_matches(buf),
        0 <= i < buf.len(),
        b != buf[i],
    ensures
        !crc_matches(buf.update(i, b)),
{
    let n = buf.len() as int;
    let t = buf.update(i, b);
    if i < n - 4 {
        assert(t.take(n - 4) =~= buf.take(n - 4).update(i, b));
        lemma_crc32_one_byte_changed(buf.take(n - 4), i, b);
    } else {
        assert(t.take(n - 4) =~= buf.take(n - 4));
        if crc_matches(t) {
            lemma_read_le32_injective(t, n - 4, buf, n - 4);
        }
    }
}

/// The checksum catches every flip of a single bit.
pub proof fn theorem_crc_detects_bit_flip(buf: Seq<u8>, i: int, bit: u8)
    requires
        crc_matches(buf),
        0 <= i < buf.len(),
        bit < 8,
    ensures
        !crc_matches(buf.update(i, buf[i] ^ (1u8 << bit))),
{
    let x = buf[i];
    assert(bit < 8 ==> (x ^ (1u8 << bit)) != x) by (bit_vector);
    theorem_crc_detects_byte_change(buf, i, x ^ (1u8 << bit));
}

} // verus!
