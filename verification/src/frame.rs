//! TCP framing of DNS messages: a two-byte big-endian length prefix
//! before each message. The listeners read and write the
//! streams; the framing rules live here.

use vstd::prelude::*;

use crate::bytes::{be16, u16_of};

verus! {

/// Length announced by a two-byte prefix; `None` for the empty frame.
pub fn parse_frame_length(b0: u8, b1: u8) -> (r: Option<usize>)
    ensures
        match r {
            Some(n) => n == u16_of(b0, b1) && n > 0,
            None => u16_of(b0, b1) == 0,
        },
{
    let n = (b0 as usize) * 256 + (b1 as usize);
    if n == 0 {
        None
    } else {
        Some(n)
    }
}

/// Prefix the response with its two-byte length; `None` when it cannot
/// be framed in 16 bits.
pub fn frame_response(r: &Vec<u8>) -> (out: Option<Vec<u8>>)
    ensures
        match out {
            Some(f) => r@.len() <= 0xFFFF && f@ == be16(r@.len() as u16) + r@ && f@.len() == 2
                + r@.len(),
            None => r@.len() > 0xFFFF,
        },
{
    if r.len() > 0xFFFF {
        return None;
    }
    let mut f: Vec<u8> = Vec::new();
    crate::bytes::push_u16(&mut f, r.len() as u16);
    crate::bytes::extend_bytes(&mut f, r);
    Some(f)
}

} // verus!
