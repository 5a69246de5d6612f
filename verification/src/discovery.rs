//! Which entries of a device directory are I2C buses, and in which order
//! they are tried.
//!
//! A bus is named `i2c-` followed by its number: decimal digits, with an
//! optional plus sign in front, that give a value within 32 bits. Buses are
//! tried by ascending number; buses of the same number keep the order in
//! which they were read. Where only the prefix counts, the entries are
//! listed in the order of the dictionary.

use vstd::prelude::*;
use vstd::string::StringSliceAdditionalSpecFns;
use vstd::utf8::encode_utf8;

verus! {

/// The value that the decimal digits `digits` spell.
pub open spec fn decimal_value(digits: Seq<u8>) -> nat
    decreases digits.len(),
{
    if digits.len() == 0 {
        0
    } else {
        10 * decimal_value(digits.drop_last()) + (digits.last() - 48) as nat
    }
}

/// Whether every byte of `s` is an ASCII digit.
pub open spec fn all_digits(s: Seq<u8>) -> bool {
    forall|i: int| 0 <= i < s.len() ==> 48 <= #[trigger] s[i] <= 57
}

/// The number that `digits` spell: one digit at least, nothing but digits,
/// and a value within 32 bits. Anything else is no number.
pub open spec fn digits_number(digits: Seq<u8>) -> Option<u32> {
    if digits.len() > 0 && all_digits(digits) && decimal_value(digits) <= u32::MAX {
        Some(decimal_value(digits) as u32)
    } else {
        None
    }
}

/// The number that `s` spells: digits, with an optional plus sign in front.
pub open spec fn unsigned_decimal(s: Seq<u8>) -> Option<u32> {
    if s.len() > 1 && s[0] == 43 {
        digits_number(s.skip(1))
    } else {
        digits_number(s)
    }
}

/// The ASCII bytes `i2c-`.
pub open spec fn bus_prefix() -> Seq<u8> {
    seq![105u8, 50u8, 99u8, 45u8]
}

/// The number of the bus that a directory entry names, if it names one.
pub open spec fn bus_number(name: Seq<u8>) -> Option<u32> {
    if name.len() > 4 && name.subrange(0, 4) == bus_prefix() {
        unsigned_decimal(name.skip(4))
    } else {
        None
    }
}

/// More digits never spell a smaller value.
proof fn lemma_decimal_value_prefix(digits: Seq<u8>, k: int)
    requires
        0 <= k <= digits.len(),
        all_digits(digits),
    ensures
        decimal_value(digits.take(k)) <= decimal_value(digits),
    decreases digits.len(),
{
    if k == digits.len() {
        assert(digits.take(k) =~= digits);
    } else {
        assert(48 <= digits[digits.len() - 1]);
        lemma_decimal_value_prefix(digits.drop_last(), k);
        assert(digits.drop_last().take(k) =~= digits.take(k));
    }
}

/// The number that the bytes of `bytes` from `from` on spell.
fn parse_decimal(bytes: &[u8], from: usize) -> (r: Option<u32>)
    requires
        from <= bytes@.len(),
    ensures
        r == unsigned_decimal(bytes@.skip(from as int)),
{
    let len: usize = bytes.len();
    let ghost s = bytes@.skip(from as int);
    let start: usize = if len - from > 1 && bytes[from] == 43 {
        from + 1
    } else {
        from
    };
    let ghost digits = bytes@.skip(start as int);
    proof {
        if start == from + 1 {
            assert(s[0] == 43);
            assert(s.skip(1) =~= digits);
        } else {
            if len - from > 1 {
                assert(s[0] != 43);
            }
            assert(s == digits);
        }
        assert(unsigned_decimal(s) == digits_number(digits));
    }
    if start == len {
        return None;
    }
    let mut acc: u64 = 0;
    let mut i: usize = start;
    assert(digits.take(0) =~= Seq::<u8>::empty());
    while i < len
        invariant
            start <= i <= len,
            len == bytes@.len(),
            digits == bytes@.skip(start as int),
            from <= len,
            unsigned_decimal(bytes@.skip(from as int)) == digits_number(digits),
            forall|j: int| 0 <= j < i - start ==> 48 <= #[trigger] digits[j] <= 57,
            acc == decimal_value(digits.take(i - start)),
            acc <= u32::MAX,
        decreases len - i,
    {
        let b: u8 = bytes[i];
        if b < 48 || b > 57 {
            assert(digits[i - start] == b);
            return None;
        }
        proof {
            assert(digits.take(i - start + 1).drop_last() =~= digits.take(i - start));
            assert(digits.take(i - start + 1).last() == b);
        }
        acc = acc * 10 + ((b - 48) as u64);
        if acc > 0xFFFF_FFFF {
            proof {
                if all_digits(digits) {
                    lemma_decimal_value_prefix(digits, i - start + 1);
                }
            }
            return None;
        }
        i += 1;
    }
    proof {
        assert(digits.take(len - start) =~= digits);
    }
    Some(acc as u32)
}

/// The number of the bus that the directory entry `name` names, if it names
/// one.
pub fn i2c_bus_number(name: &str) -> (r: Option<u32>)
    ensures
        r == bus_number(name.spec_bytes()),
{
    let bytes = name.as_bytes();
    if bytes.len() <= 4 {
        return None;
    }
    let prefixed = bytes[0] == 105 && bytes[1] == 50 && bytes[2] == 99 && bytes[3] == 45;
    assert(prefixed == (bytes@.subrange(0, 4) =~= bus_prefix()));
    if !prefixed {
        return None;
    }
    parse_decimal(bytes, 4)
}

/// Whether entry `i` comes before entry `j`: by its number, and among equal
/// numbers by its place.
pub open spec fn tried_before(numbers: Seq<Option<u32>>, i: int, j: int) -> bool {
    numbers[i].unwrap() < numbers[j].unwrap() || (numbers[i].unwrap() == numbers[j].unwrap() && i
        < j)
}

/// Whether `order` lists the places of exactly those entries that have a
/// number, each once, in the order in which they are tried. There is one
/// such list.
pub open spec fn is_bus_order(numbers: Seq<Option<u32>>, order: Seq<usize>) -> bool {
    &&& forall|a: int|
        0 <= a < order.len() ==> (#[trigger] order[a]) < numbers.len() && numbers[order[a] as int]
            is Some
    &&& forall|a: int, b: int|
        0 <= a < b < order.len() ==> tried_before(
            numbers,
            #[trigger] order[a] as int,
            #[trigger] order[b] as int,
        )
    &&& forall|i: int|
        0 <= i < numbers.len() && (#[trigger] numbers[i]) is Some ==> order.contains(i as usize)
}

/// The places of the entries that have a number, in the order in which they
/// are tried.
pub fn bus_order(numbers: &[Option<u32>]) -> (order: Vec<usize>)
    ensures
        is_bus_order(numbers@, order@),
{
    let n: usize = numbers.len();
    let mut order: Vec<usize> = Vec::new();
    let mut i: usize = 0;
    while i < n
        invariant
            i <= n,
            n == numbers@.len(),
            forall|a: int|
                0 <= a < order@.len() ==> (#[trigger] order@[a]) < i && numbers@[order@[a] as int]
                    is Some,
            forall|a: int, b: int|
                0 <= a < b < order@.len() ==> tried_before(
                    numbers@,
                    #[trigger] order@[a] as int,
                    #[trigger] order@[b] as int,
                ),
            forall|j: int|
                0 <= j < i && (#[trigger] numbers@[j]) is Some ==> order@.contains(j as usize),
        decreases n - i,
    {
        match numbers[i] {
            None => {},
            Some(v) => {
                let mut p: usize = 0;
                let mut found: bool = false;
                while p < order.len() && !found
                    invariant
                        p <= order@.len(),
                        i < n,
                        n == numbers@.len(),
                        forall|a: int|
                            0 <= a < order@.len() ==> (#[trigger] order@[a]) < i
                                && numbers@[order@[a] as int] is Some,
                        forall|a: int|
                            0 <= a < p ==> numbers@[(#[trigger] order@[a]) as int].unwrap() <= v,
                        found ==> p < order@.len() && numbers@[order@[p as int] as int].unwrap()
                            > v,
                    decreases order@.len() - p + (if found { 0int } else { 1int }),
                {
                    let at: usize = order[p];
                    let w: u32 = match numbers[at] {
                        Some(w) => w,
                        None => 0,
                    };
                    if w > v {
                        found = true;
                    } else {
                        p += 1;
                    }
                }
                let ghost before = order@;
                order.insert(p, i);
                proof {
                    before.insert_ensures(p as int, i);
                    let after = order@;
                    assert forall|a: int, b: int| 0 <= a < b < after.len() implies tried_before(
                        numbers@,
                        #[trigger] after[a] as int,
                        #[trigger] after[b] as int,
                    ) by {
                        if b < p {
                            assert(after[a] == before[a] && after[b] == before[b]);
                        } else if b == p {
                            assert(after[a] == before[a]);
                        } else if a < p {
                            assert(after[a] == before[a] && after[b] == before[b - 1]);
                        } else if a == p {
                            assert(after[b] == before[b - 1]);
                            if b - 1 > p {
                                assert(tried_before(
                                    numbers@,
                                    before[p as int] as int,
                                    before[b - 1] as int,
                                ));
                            }
                        } else {
                            assert(after[a] == before[a - 1] && after[b] == before[b - 1]);
                        }
                    }
                    assert forall|a: int| 0 <= a < after.len() implies (#[trigger] after[a]) < i
                        + 1 && numbers@[after[a] as int] is Some by {
                        if a < p {
                            assert(after[a] == before[a]);
                        } else if a > p {
                            assert(after[a] == before[a - 1]);
                        }
                    }
                    assert forall|j: int|
                        0 <= j < i + 1 && (#[trigger] numbers@[j]) is Some implies after.contains(
                        j as usize,
                    ) by {
                        if j == i {
                            assert(after[p as int] == i);
                        } else {
                            assert(before.contains(j as usize));
                            let k = choose|k: int| 0 <= k < before.len() && before[k] == j as usize;
                            if k < p {
                                assert(after[k] == before[k]);
                            } else {
                                assert(after[k + 1] == before[k]);
                            }
                        }
                    }
                }
            },
        }
        i += 1;
    }
    order
}

/// The bus number of each directory entry, or nothing for an entry that
/// names no bus.
pub open spec fn device_numbers(names: Seq<String>) -> Seq<Option<u32>> {
    Seq::new(names.len(), |i: int| bus_number(encode_utf8(names[i]@)))
}

/// The places in `names` of the directory entries that name an I2C bus,
/// in the order in which the buses are tried.
pub fn order_i2c_devices(names: &Vec<String>) -> (order: Vec<usize>)
    ensures
        is_bus_order(device_numbers(names@), order@),
{
    let n: usize = names.len();
    let mut numbers: Vec<Option<u32>> = Vec::new();
    let mut i: usize = 0;
    while i < n
        invariant
            i <= n,
            n == names@.len(),
            numbers@.len() == i,
            forall|k: int| 0 <= k < i ==> #[trigger] numbers@[k] == device_numbers(names@)[k],
        decreases n - i,
    {
        let number = i2c_bus_number(names[i].as_str());
        numbers.push(number);
        i += 1;
    }
    assert(numbers@ =~= device_numbers(names@));
    bus_order(numbers.as_slice())
}

/// Whether a directory entry starts with `i2c-`.
pub open spec fn has_bus_prefix(name: Seq<u8>) -> bool {
    name.len() >= 4 && name.subrange(0, 4) == bus_prefix()
}

/// Whether `a` stands at or before `b` in the order of the dictionary, taken
/// byte by byte: at the first byte in which they differ the smaller byte
/// comes first, and a name comes before every longer name that starts with it.
pub open spec fn bytes_le(a: Seq<u8>, b: Seq<u8>) -> bool
    decreases a.len(),
{
    if a.len() == 0 {
        true
    } else if b.len() == 0 {
        false
    } else if a[0] != b[0] {
        a[0] < b[0]
    } else {
        bytes_le(a.skip(1), b.skip(1))
    }
}

/// Of two names one stands at or before the other.
pub proof fn lemma_bytes_le_total(a: Seq<u8>, b: Seq<u8>)
    ensures
        bytes_le(a, b) || bytes_le(b, a),
    decreases a.len(),
{
    if a.len() > 0 && b.len() > 0 && a[0] == b[0] {
        lemma_bytes_le_total(a.skip(1), b.skip(1));
    }
}

/// The order of the dictionary is transitive.
pub proof fn lemma_bytes_le_transitive(a: Seq<u8>, b: Seq<u8>, c: Seq<u8>)
    requires
        bytes_le(a, b),
        bytes_le(b, c),
    ensures
        bytes_le(a, c),
    decreases a.len(),
{
    if a.len() > 0 && b.len() > 0 && c.len() > 0 && a[0] == b[0] && b[0] == c[0] {
        lemma_bytes_le_transitive(a.skip(1), b.skip(1), c.skip(1));
    }
}

/// Whether `a` stands at or before `b` in the order of the dictionary.
fn name_le(a: &[u8], b: &[u8]) -> (r: bool)
    ensures
        r == bytes_le(a@, b@),
{
    let n: usize = a.len();
    let m: usize = b.len();
    let mut i: usize = 0;
    assert(a@.skip(0) =~= a@ && b@.skip(0) =~= b@);
    while i < n && i < m
        invariant
            i <= n,
            i <= m,
            n == a@.len(),
            m == b@.len(),
            bytes_le(a@, b@) == bytes_le(a@.skip(i as int), b@.skip(i as int)),
        decreases n - i,
    {
        if a[i] != b[i] {
            return a[i] < b[i];
        }
        assert(a@.skip(i as int).skip(1) =~= a@.skip(i + 1));
        assert(b@.skip(i as int).skip(1) =~= b@.skip(i + 1));
        i += 1;
    }
    i == n
}

/// Whether entry `i` is listed before entry `j`: by the order of the
/// dictionary, and among equal names by its place.
pub open spec fn listed_before(names: Seq<Seq<u8>>, i: int, j: int) -> bool {
    !bytes_le(names[j], names[i]) || (bytes_le(names[i], names[j]) && i < j)
}

/// Whether `order` lists the places of exactly those entries that start
/// with `i2c-`, each once, in the order of the dictionary.
pub open spec fn is_bus_listing(names: Seq<Seq<u8>>, order: Seq<usize>) -> bool {
    &&& forall|a: int|
        0 <= a < order.len() ==> (#[trigger] order[a]) < names.len() && has_bus_prefix(
            names[order[a] as int],
        )
    &&& forall|a: int, b: int|
        0 <= a < b < order.len() ==> listed_before(
            names,
            #[trigger] order[a] as int,
            #[trigger] order[b] as int,
        )
    &&& forall|i: int|
        0 <= i < names.len() && has_bus_prefix(#[trigger] names[i]) ==> order.contains(i as usize)
}

/// The bytes of each directory entry.
pub open spec fn entry_bytes(names: Seq<String>) -> Seq<Seq<u8>> {
    Seq::new(names.len(), |i: int| encode_utf8(names[i]@))
}

/// The place at which entry `i` goes into `order`: behind every entry that
/// stands at or before it.
fn listing_place(names: &Vec<String>, order: &Vec<usize>, i: usize) -> (p: usize)
    requires
        i < names@.len(),
        forall|a: int| 0 <= a < order@.len() ==> (#[trigger] order@[a]) < i,
    ensures
        p <= order@.len(),
        forall|a: int|
            0 <= a < p ==> bytes_le(
                entry_bytes(names@)[(#[trigger] order@[a]) as int],
                entry_bytes(names@)[i as int],
            ),
        p < order@.len() ==> !bytes_le(
            entry_bytes(names@)[order@[p as int] as int],
            entry_bytes(names@)[i as int],
        ),
{
    let name = names[i].as_str().as_bytes();
    let mut p: usize = 0;
    let mut found: bool = false;
    while p < order.len() && !found
        invariant
            p <= order@.len(),
            i < names@.len(),
            name@ == entry_bytes(names@)[i as int],
            forall|a: int| 0 <= a < order@.len() ==> (#[trigger] order@[a]) < i,
            forall|a: int|
                0 <= a < p ==> bytes_le(
                    entry_bytes(names@)[(#[trigger] order@[a]) as int],
                    entry_bytes(names@)[i as int],
                ),
            found ==> p < order@.len() && !bytes_le(
                entry_bytes(names@)[order@[p as int] as int],
                entry_bytes(names@)[i as int],
            ),
        decreases order@.len() - p + (if found { 0int } else { 1int }),
    {
        let other = names[order[p]].as_str().as_bytes();
        if name_le(other, name) {
            p += 1;
        } else {
            found = true;
        }
    }
    p
}

/// The places in `names` of the directory entries that start with `i2c-`,
/// in the order of the dictionary.
pub fn list_i2c_buses(names: &Vec<String>) -> (order: Vec<usize>)
    ensures
        is_bus_listing(entry_bytes(names@), order@),
{
    let n: usize = names.len();
    let ghost keys = entry_bytes(names@);
    let mut order: Vec<usize> = Vec::new();
    let mut i: usize = 0;
    while i < n
        invariant
            i <= n,
            n == names@.len(),
            keys == entry_bytes(names@),
            forall|a: int|
                0 <= a < order@.len() ==> (#[trigger] order@[a]) < i && has_bus_prefix(
                    keys[order@[a] as int],
                ),
            forall|a: int, b: int|
                0 <= a < b < order@.len() ==> listed_before(
                    keys,
                    #[trigger] order@[a] as int,
                    #[trigger] order@[b] as int,
                ),
            forall|j: int|
                0 <= j < i && has_bus_prefix(#[trigger] keys[j]) ==> order@.contains(j as usize),
        decreases n - i,
    {
        let bytes = names[i].as_str().as_bytes();
        let prefixed = bytes.len() >= 4 && bytes[0] == 105 && bytes[1] == 50 && bytes[2] == 99
            && bytes[3] == 45;
        proof {
            if bytes.len() >= 4 {
                assert(prefixed == (bytes@.subrange(0, 4) =~= bus_prefix()));
            }
            assert(prefixed == has_bus_prefix(keys[i as int]));
        }
        if prefixed {
            let p = listing_place(names, &order, i);
            let ghost before = order@;
            order.insert(p, i);
            proof {
                before.insert_ensures(p as int, i);
                let after = order@;
                assert forall|a: int, b: int| 0 <= a < b < after.len() implies listed_before(
                    keys,
                    #[trigger] after[a] as int,
                    #[trigger] after[b] as int,
                ) by {
                    if b < p {
                        assert(after[a] == before[a] && after[b] == before[b]);
                    } else if b == p {
                        assert(after[a] == before[a]);
                        assert(bytes_le(keys[before[a] as int], keys[i as int]));
                    } else if a < p {
                        assert(after[a] == before[a] && after[b] == before[b - 1]);
                    } else if a == p {
                        assert(after[b] == before[b - 1]);
                        let first = keys[before[p as int] as int];
                        let other = keys[before[b - 1] as int];
                        if b - 1 > p {
                            assert(listed_before(keys, before[p as int] as int, before[b - 1] as int));
                            lemma_bytes_le_total(first, other);
                            if bytes_le(other, keys[i as int]) {
                                lemma_bytes_le_transitive(first, other, keys[i as int]);
                            }
                        }
                    } else {
                        assert(after[a] == before[a - 1] && after[b] == before[b - 1]);
                    }
                }
                assert forall|a: int| 0 <= a < after.len() implies (#[trigger] after[a]) < i + 1
                    && has_bus_prefix(keys[after[a] as int]) by {
                    if a < p {
                        assert(after[a] == before[a]);
                    } else if a > p {
                        assert(after[a] == before[a - 1]);
                    }
                }
                assert forall|j: int|
                    0 <= j < i + 1 && has_bus_prefix(#[trigger] keys[j]) implies after.contains(
                    j as usize,
                ) by {
                    if j == i {
                        assert(after[p as int] == i);
                    } else {
                        assert(before.contains(j as usize));
                        let k = choose|k: int| 0 <= k < before.len() && before[k] == j as usize;
                        if k < p {
                            assert(after[k] == before[k]);
                        } else {
                            assert(after[k + 1] == before[k]);
                        }
                    }
                }
            }
        }
        i += 1;
    }
    order
}

} // verus!
