//! Reflected CRC-32 (IEEE 802.3) over byte sequences.
//!
//! The checksum is defined bit by bit in [`crc32`]; the executable
//! [`Hasher`] computes it through a 256-entry table and is proved to agree.

use vstd::prelude::*;

verus! {

/// The reflected IEEE 802.3 generator polynomial.
pub const CRC32_POLYNOMIAL: u32 = 0xEDB88320;

/// One shift of the register: the low bit decides whether the polynomial
/// is folded in.
pub open spec fn shift_bit(c: u32) -> u32 {
    if c & 1 == 1 {
        (c >> 1) ^ 0xEDB88320u32
    } else {
        c >> 1
    }
}

/// Eight shifts of the register.
pub open spec fn shift_byte(c: u32) -> u32 {
    shift_bit(shift_bit(shift_bit(shift_bit(shift_bit(shift_bit(shift_bit(shift_bit(c))))))))
}

/// The register after `n` shifts.
pub open spec fn shift_bits(c: u32, n: nat) -> u32
    decreases n,
{
    if n == 0 {
        c
    } else {
        shift_bit(shift_bits(c, (n - 1) as nat))
    }
}

/// The register after one more input byte.
pub open spec fn feed_byte(c: u32, b: u8) -> u32 {
    shift_byte(c ^ (b as u32))
}

/// The register after the bytes of `s`, in order, starting from `c`.
pub open spec fn feed(c: u32, s: Seq<u8>) -> u32
    decreases s.len(),
{
    if s.len() == 0 {
        c
    } else {
        feed_byte(feed(c, s.drop_last()), s.last())
    }
}

/// The CRC-32 of `s`: the register starts at all ones and is inverted at
/// the end.
pub open spec fn crc32(s: Seq<u8>) -> u32 {
    feed(0xFFFF_FFFFu32, s) ^ 0xFFFF_FFFFu32
}

/// Entry `i` of the lookup table.
pub open spec fn table_entry(i: int) -> u32 {
    shift_byte(i as u32)
}

/// Whether `t` is the full lookup table.
pub open spec fn is_crc32_table(t: Seq<u32>) -> bool {
    &&& t.len() == 256
    &&& forall|i: int| 0 <= i < 256 ==> #[trigger] t[i] == table_entry(i)
}

proof fn lemma_shift_byte_unfold(c: u32)
    ensures
        shift_bits(c, 8) == shift_byte(c),
{
    reveal_with_fuel(shift_bits, 9);
}

/// A table lookup on the low byte does the work of eight shifts.
#[verifier::rlimit(40)]
proof fn lemma_table_step(c: u32, b: u8)
    ensures
        feed_byte(c, b) == (c >> 8) ^ shift_byte((c ^ (b as u32)) & 0xFF),
        (c ^ (b as u32)) & 0xFF < 256,
{
    let x: u32 = c ^ (b as u32);
    assert(shift_byte(x) == (x >> 8) ^ shift_byte(x & 0xFF)) by (bit_vector);
    assert((c ^ (b as u32)) >> 8 == c >> 8) by (bit_vector);
    assert((c ^ (b as u32)) & 0xFF < 256) by (bit_vector);
}

/// Feeding a concatenation is feeding the parts one after the other.
pub proof fn lemma_feed_concat(c: u32, a: Seq<u8>, b: Seq<u8>)
    ensures
        feed(c, a + b) == feed(feed(c, a), b),
    decreases b.len(),
{
    if b.len() == 0 {
        assert(a + b =~= a);
    } else {
        lemma_feed_concat(c, a, b.drop_last());
        assert((a + b).drop_last() =~= a + b.drop_last());
        assert((a + b).last() == b.last());
    }
}

/// Eight shifts lose nothing: two registers that end up equal were equal.
#[verifier::rlimit(40)]
pub proof fn lemma_shift_byte_injective(x: u32, y: u32)
    requires
        shift_byte(x) == shift_byte(y),
    ensures
        x == y,
{
    assert(forall|a: u32, b: u32| shift_bit(a) == shift_bit(b) ==> a == b) by (bit_vector);
}

/// After one byte two registers agree only if they agreed before and the
/// bytes were the same, or if neither was.
pub proof fn lemma_feed_byte_injective(c1: u32, b1: u8, c2: u32, b2: u8)
    requires
        feed_byte(c1, b1) == feed_byte(c2, b2),
    ensures
        c1 == c2 <==> b1 == b2,
{
    lemma_shift_byte_injective(c1 ^ (b1 as u32), c2 ^ (b2 as u32));
    assert((c1 ^ (b1 as u32)) == (c2 ^ (b2 as u32)) ==> (c1 == c2 <==> b1 == b2)) by (bit_vector);
}

/// Feeding the same bytes keeps different registers different.
pub proof fn lemma_feed_injective(c1: u32, c2: u32, s: Seq<u8>)
    requires
        feed(c1, s) == feed(c2, s),
    ensures
        c1 == c2,
    decreases s.len(),
{
    if s.len() > 0 {
        lemma_feed_byte_injective(feed(c1, s.drop_last()), s.last(), feed(c2, s.drop_last()), s.last());
        lemma_feed_injective(c1, c2, s.drop_last());
    }
}

/// Changing one byte of the input changes the register at the end.
pub proof fn lemma_feed_one_byte_changed(c: u32, s: Seq<u8>, i: int, b: u8)
    requires
        0 <= i < s.len(),
        b != s[i],
    ensures
        feed(c, s.update(i, b)) != feed(c, s),
    decreases s.len(),
{
    let t = s.update(i, b);
    if i == s.len() - 1 {
        assert(t.drop_last() =~= s.drop_last());
        if feed(c, t) == feed(c, s) {
            lemma_feed_byte_injective(feed(c, s.drop_last()), b, feed(c, s.drop_last()), s.last());
        }
    } else {
        assert(t.drop_last() =~= s.drop_last().update(i, b));
        lemma_feed_one_byte_changed(c, s.drop_last(), i, b);
        if feed(c, t) == feed(c, s) {
            lemma_feed_byte_injective(
                feed(c, t.drop_last()),
                s.last(),
                feed(c, s.drop_last()),
                s.last(),
            );
        }
    }
}

/// Changing one byte of the input changes the checksum.
pub proof fn lemma_crc32_one_byte_changed(s: Seq<u8>, i: int, b: u8)
    requires
        0 <= i < s.len(),
        b != s[i],
    ensures
        crc32(s.update(i, b)) != crc32(s),
{
    lemma_feed_one_byte_changed(0xFFFF_FFFFu32, s, i, b);
    let x = feed(0xFFFF_FFFFu32, s.update(i, b));
    let y = feed(0xFFFF_FFFFu32, s);
    assert(x ^ 0xFFFF_FFFFu32 == y ^ 0xFFFF_FFFFu32 ==> x == y) by (bit_vector);
}

/// The checksum of a concatenation is reached by feeding the parts in turn.
pub proof fn lemma_crc32_chunked(a: Seq<u8>, b: Seq<u8>)
    ensures
        crc32(a + b) == feed(feed(0xFFFF_FFFFu32, a), b) ^ 0xFFFF_FFFFu32,
{
    lemma_feed_concat(0xFFFF_FFFFu32, a, b);
}

/// Builds the 256-entry lookup table.
pub fn generate_crc32_table() -> (table: [u32; 256])
    ensures
        is_crc32_table(table@),
{
    let mut table: [u32; 256] = [0u32; 256];
    let mut i: usize = 0;
    while i < 256
        invariant
            i <= 256,
            table@.len() == 256,
            forall|k: int| 0 <= k < i ==> #[trigger] table@[k] == table_entry(k),
        decreases 256 - i,
    {
        let mut crc: u32 = i as u32;
        let mut j: usize = 0;
        while j < 8
            invariant
                j <= 8,
                i < 256,
                crc == shift_bits(i as u32, j as nat),
            decreases 8 - j,
        {
            if crc & 1 != 0 {
                crc = (crc >> 1) ^ CRC32_POLYNOMIAL;
            } else {
                crc >>= 1;
            }
            proof {
                let p = shift_bits(i as u32, j as nat);
                assert(p & 1 != 0 <==> p & 1 == 1) by (bit_vector);
            }
            j += 1;
        }
        proof {
            lemma_shift_byte_unfold(i as u32);
        }
        table[i] = crc;
        i += 1;
    }
    table
}

/// Incremental CRC-32 accumulator.
pub struct Hasher {
    crc: u32,
    table: [u32; 256],
}

impl Hasher {
    #[verifier::type_invariant]
    spec fn table_ok(self) -> bool {
        is_crc32_table(self.table@)
    }

    /// The current value of the shift register.
    pub closed spec fn register(&self) -> u32 {
        self.crc
    }

    /// A fresh accumulator: the register holds all ones.
    pub fn new() -> (h: Self)
        ensures
            h.register() == 0xFFFF_FFFFu32,
    {
        Hasher { crc: 0xFFFF_FFFF, table: generate_crc32_table() }
    }

    /// Feeds `data` into the register.
    pub fn update(&mut self, data: &[u8])
        ensures
            final(self).register() == feed(old(self).register(), data@),
    {
        proof {
            use_type_invariant(&*self);
        }
        let mut crc: u32 = self.crc;
        let n: usize = data.len();
        let mut i: usize = 0;
        while i < n
            invariant
                i <= n,
                n == data@.len(),
                is_crc32_table(self.table@),
                crc == feed(old(self).register(), data@.take(i as int)),
            decreases n - i,
        {
            let byte: u8 = data[i];
            let index: u32 = (crc ^ (byte as u32)) & 0xFF;
            proof {
                lemma_table_step(crc, byte);
                assert(data@.take(i + 1).drop_last() =~= data@.take(i as int));
                assert(data@.take(i + 1).last() == byte);
            }
            crc = (crc >> 8) ^ self.table[index as usize];
            i += 1;
        }
        proof {
            assert(data@.take(n as int) =~= data@);
        }
        self.crc = crc;
    }

    /// The checksum of everything fed so far.
    pub fn finalize(self) -> (crc: u32)
        ensures
            crc == self.register() ^ 0xFFFF_FFFFu32,
    {
        self.crc ^ 0xFFFF_FFFF
    }
}

impl Default for Hasher {
    fn default() -> (h: Self)
        ensures
            h.register() == 0xFFFF_FFFFu32,
    {
        Hasher::new()
    }
}

} // verus!
