use vstd::prelude::*;

use crate::numfmt::{append_decimal, dec};
use vstd::string::StringSliceAdditionalSpecFns;

verus! {

/// Largest payload the handle server accepts, in bytes.
pub const MAX_PAYLOAD: u32 = 1024;

/// The little-endian value of four bytes.
pub open spec fn le_value(b: Seq<u8>) -> int {
    b[0] + 256 * b[1] + 65536 * b[2] + 16777216 * b[3]
}

/// The four little-endian bytes of `n`.
pub open spec fn le_bytes(n: u32) -> Seq<u8> {
    seq![(n % 256) as u8, ((n / 256) % 256) as u8, ((n / 65536) % 256) as u8, (n / 16777216) as u8]
}

/// Reads a little-endian 32-bit length from the first four bytes of `b`.
pub fn decode_len(b: &[u8]) -> (r: u32)
    requires
        b@.len() >= 4,
    ensures
        r == le_value(b@),
{
    b[0] as u32 + 256 * (b[1] as u32) + 65536 * (b[2] as u32) + 16777216 * (b[3] as u32)
}

/// Checks a payload length: it must be between 1 and 1024 bytes.
pub fn check_payload_len(len: u32) -> (r: Result<usize, String>)
    ensures
        0 < len <= MAX_PAYLOAD ==> r == Ok::<usize, String>(len as usize),
        !(0 < len <= MAX_PAYLOAD) ==> (r matches Err(e) && e@ == "Invalid payload length: "@ + dec(len as nat)),
{
    if len == 0 || len > MAX_PAYLOAD {
        let mut s = String::from_str("Invalid payload length: ");
        append_decimal(&mut s, len as u64);
        return Err(s);
    }
    Ok(len as usize)
}

/// The reply that acknowledges a handle: the single byte 1.
pub fn ack_frame() -> (r: Vec<u8>)
    ensures
        r@ == seq![1u8],
{
    let mut v: Vec<u8> = Vec::new();
    v.push(1);
    v
}

/// The reply that reports an error: the byte 0, the message's length in
/// bytes as four little-endian bytes (cut to 32 bits), then the message.
pub fn error_frame(msg: &str) -> (r: Vec<u8>)
    ensures
        r@ == seq![0u8] + le_bytes(msg.spec_bytes().len() as u32) + msg.spec_bytes(),
{
    let bytes = msg.as_bytes();
    let n = bytes.len() as u32;
    let mut v: Vec<u8> = Vec::new();
    v.push(0);
    v.push((n % 256) as u8);
    v.push(((n / 256) % 256) as u8);
    v.push(((n / 65536) % 256) as u8);
    v.push((n / 16777216) as u8);
    let ghost head = v@;
    let mut i: usize = 0;
    while i < bytes.len()
        invariant
            i <= bytes@.len(),
            v@ == head + bytes@.take(i as int),
        decreases bytes@.len() - i,
    {
        v.push(bytes[i]);
        i = i + 1;
        proof {
            assert(v@ =~= head + bytes@.take(i as int));
        }
    }
    proof {
        assert(bytes@.take(i as int) =~= bytes@);
        assert(head =~= seq![0u8] + le_bytes(n));
    }
    v
}

} // verus!
