//! The frames that carry an image to and from an EEPROM chip: a two-byte
//! offset, high byte first, and for a write one page of data behind it.

use vstd::prelude::*;
use crate::wire::copy_range;

verus! {

/// Bytes in one page write.
pub const PAGE_SIZE: usize = 16;

/// The largest image that two offset bytes can address.
pub const MAX_IMAGE_LEN: usize = 0x1_0000;

/// The two bytes that select `offset`, high byte first.
pub open spec fn offset_bytes(offset: int) -> Seq<u8> {
    seq![(offset / 256) as u8, (offset % 256) as u8]
}

/// How many pages an image of `len` bytes takes.
pub open spec fn page_count(len: nat) -> nat {
    (len + 15) / 16
}

/// Where page `k` of an image of `len` bytes ends.
pub open spec fn page_end(len: nat, k: int) -> int {
    if 16 * k + 16 <= len {
        16 * k + 16
    } else {
        len as int
    }
}

/// The frame that writes page `k`: the offset of the page, then its bytes.
pub open spec fn page_frame(data: Seq<u8>, k: int) -> Seq<u8> {
    offset_bytes(16 * k) + data.subrange(16 * k, page_end(data.len(), k))
}

/// The frame that sets the read position to `offset`.
pub fn offset_frame(offset: u16) -> (frame: [u8; 2])
    ensures
        frame@ == offset_bytes(offset as int),
{
    let frame: [u8; 2] = [(offset / 256) as u8, (offset % 256) as u8];
    assert(frame@ =~= offset_bytes(offset as int));
    frame
}

/// The frames that write `data` page by page, in the order in which they
/// are sent. The last page may be short; an empty image takes no frame.
pub fn write_frames(data: &[u8]) -> (frames: Vec<Vec<u8>>)
    requires
        data@.len() <= MAX_IMAGE_LEN,
    ensures
        frames@.len() == page_count(data@.len()),
        forall|k: int| 0 <= k < frames@.len() ==> (#[trigger] frames@[k])@ == page_frame(data@, k),
{
    let len: usize = data.len();
    let mut frames: Vec<Vec<u8>> = Vec::new();
    let mut offset: usize = 0;
    while offset < len
        invariant
            len == data@.len(),
            len <= 0x1_0000,
            offset <= len,
            offset % 16 == 0 || offset == len,
            offset == len ==> frames@.len() == page_count(len as nat),
            offset < len ==> frames@.len() * 16 == offset,
            forall|k: int|
                0 <= k < frames@.len() ==> (#[trigger] frames@[k])@ == page_frame(data@, k),
        decreases len - offset,
    {
        let end: usize = if len - offset < PAGE_SIZE { len } else { offset + PAGE_SIZE };
        let ghost k = frames@.len() as int;
        let mut frame: Vec<u8> = Vec::new();
        frame.push((offset / 256) as u8);
        frame.push((offset % 256) as u8);
        let mut page = copy_range(data, offset, end);
        frame.append(&mut page);
        assert(frame@ =~= page_frame(data@, k));
        frames.push(frame);
        offset = end;
    }
    frames
}

} // verus!
