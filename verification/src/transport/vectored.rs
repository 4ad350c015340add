//! Bookkeeping of a vectored write of a frame header followed by its payload: how a
//! partial write advances through the two parts.
use vstd::prelude::*;

verus! {

/// Advances the offsets into `header` and `payload` after `n` more bytes were
/// written from the remainder of the header followed by the remainder of the
/// payload: the header is consumed first, the rest of `n` goes to the payload.
pub fn advance_offsets(
    header_len: usize,
    payload_len: usize,
    header_offset: usize,
    payload_offset: usize,
    n: usize,
) -> (r: (usize, usize))
    requires
        header_offset <= header_len,
        payload_offset <= payload_len,
        n <= (header_len - header_offset) + (payload_len - payload_offset),
    ensures
        r.0 <= header_len,
        r.1 <= payload_len,
        r.0 + r.1 == header_offset + payload_offset + n,
        r.0 == if header_offset + n <= header_len {
            header_offset + n
        } else {
            header_len as int
        },
{
    if n <= header_len - header_offset {
        (header_offset + n, payload_offset)
    } else {
        let header_rem = header_len - header_offset;
        (header_len, payload_offset + (n - header_rem))
    }
}

/// Whether a frame is finished once `header_offset` and `payload_offset` bytes of
/// its parts are written.
pub fn write_complete(header_len: usize, payload_len: usize, header_offset: usize, payload_offset: usize) -> (b: bool)
    ensures
        b == (header_offset >= header_len && payload_offset >= payload_len),
{
    header_offset >= header_len && payload_offset >= payload_len
}

} // verus!
