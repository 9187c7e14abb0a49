//! The plugin output frame: a 4-byte little-endian length followed by that
//! many bytes of JSON text.
//!
//! Plugins write their answer in this frame into their linear memory; the host
//! reads it back from the address the plugin returned.
use vstd::prelude::*;

verus! {

/// The four little-endian bytes of `n`.
pub open spec fn le_bytes(n: u32) -> Seq<u8> {
    seq![
        (n % 256) as u8,
        ((n / 256) % 256) as u8,
        ((n / 65536) % 256) as u8,
        ((n / 16777216) % 256) as u8,
    ]
}

/// The number whose little-endian bytes are `b[0..4]`.
pub open spec fn le_value(b: Seq<u8>) -> nat
    recommends
        b.len() >= 4,
{
    (b[0] + 256 * b[1] + 65536 * b[2] + 16777216 * b[3]) as nat
}

/// A framed payload: its length in four little-endian bytes, then the payload.
/// The length is taken modulo 2^32, as a `u32` cast takes it.
pub open spec fn framed(payload: Seq<u8>) -> Seq<u8> {
    le_bytes(payload.len() as u32) + payload
}

pub proof fn lemma_le_roundtrip(n: u32)
    ensures
        le_bytes(n).len() == 4,
        le_value(le_bytes(n)) == n,
{
    let b = le_bytes(n);
    assert(b[0] == n % 256);
    assert(b[1] == (n / 256) % 256);
    assert(b[2] == (n / 65536) % 256);
    assert(b[3] == (n / 16777216) % 256);
    assert((n % 256) + 256 * ((n / 256) % 256) + 65536 * ((n / 65536) % 256) + 16777216 * ((n
        / 16777216) % 256) == n) by (nonlinear_arith)
        requires
            n <= u32::MAX,
    {
        vstd::arithmetic::div_mod::lemma_fundamental_div_mod(n as int, 256);
        vstd::arithmetic::div_mod::lemma_fundamental_div_mod((n / 256) as int, 256);
        vstd::arithmetic::div_mod::lemma_fundamental_div_mod((n / 65536) as int, 256);
        vstd::arithmetic::div_mod::lemma_div_denominator(n as int, 256, 256);
        vstd::arithmetic::div_mod::lemma_div_denominator(n as int, 65536, 256);
    }
}

/// Frames `json` for the host: four little-endian length bytes, then the bytes themselves.
pub fn write_output(json: &[u8]) -> (out: Vec<u8>)
    ensures
        out@ == framed(json@),
{
    #[verifier::truncate]
    let n = json.len() as u32;
    let mut out: Vec<u8> = Vec::new();
    out.push((n % 256) as u8);
    out.push(((n / 256) % 256) as u8);
    out.push(((n / 65536) % 256) as u8);
    out.push(((n / 16777216) % 256) as u8);
    let mut i: usize = 0;
    while i < json.len()
        invariant
            i <= json@.len(),
            out@ == le_bytes(n) + json@.subrange(0, i as int),
        decreases json@.len() - i,
    {
        out.push(json[i]);
        i = i + 1;
        assert(json@.subrange(0, i as int) == json@.subrange(0, i - 1 as int).push(json@[i - 1]));
    }
    assert(json@.subrange(0, json@.len() as int) == json@);
    out
}

/// Why a frame could not be read back.
#[derive(Debug, Clone, Copy, PartialEq, Eq, Structural)]
pub enum FrameError {
    /// The four length bytes lie outside the memory.
    LengthOutOfBounds,
    /// The payload that the length announces runs past the end of the memory.
    DataOutOfBounds,
}

/// Reads the frame that starts at `ptr` in `mem`: the payload whose length the
/// four bytes at `ptr` give, little-endian.
pub fn read_output(mem: &[u8], ptr: usize) -> (r: Result<Vec<u8>, FrameError>)
    ensures
        (ptr + 4 > mem@.len()) ==> r == Err::<Vec<u8>, FrameError>(FrameError::LengthOutOfBounds),
        ptr + 4 <= mem@.len() ==> ({
            let n = le_value(mem@.subrange(ptr as int, ptr + 4));
            &&& (ptr + 4 + n > mem@.len()) ==> r == Err::<Vec<u8>, FrameError>(
                FrameError::DataOutOfBounds,
            )
            &&& (ptr + 4 + n <= mem@.len()) ==> (r matches Ok(v) && v@ == mem@.subrange(
                ptr + 4,
                ptr + 4 + n,
            ))
        }),
{
    if ptr > mem.len() || mem.len() - ptr < 4 {
        return Err(FrameError::LengthOutOfBounds);
    }
    let b0 = mem[ptr] as usize;
    let b1 = mem[ptr + 1] as usize;
    let b2 = mem[ptr + 2] as usize;
    let b3 = mem[ptr + 3] as usize;
    let ghost hdr = mem@.subrange(ptr as int, ptr + 4);
    assert(hdr[0] == b0 && hdr[1] == b1 && hdr[2] == b2 && hdr[3] == b3);
    let start = ptr + 4;
    let room = mem.len() - start;
    // the length is compared piecewise so that no intermediate value can overflow
    if b3 > 0 && room < 16777216 {
        return Err(FrameError::DataOutOfBounds);
    }
    let n: usize = b0 + 256 * b1 + 65536 * b2 + 16777216 * b3;
    if n > room {
        return Err(FrameError::DataOutOfBounds);
    }
    let mut v: Vec<u8> = Vec::new();
    let mut i: usize = 0;
    while i < n
        invariant
            i <= n,
            start + n <= mem@.len(),
            mem@.len() == mem.len(),
            v@ == mem@.subrange(start as int, start + i),
        decreases n - i,
    {
        v.push(mem[start + i]);
        i = i + 1;
    }
    Ok(v)
}

/// Reading back a frame that was written at `ptr` gives the payload that was framed.
pub proof fn lemma_frame_roundtrip(mem: Seq<u8>, ptr: int, payload: Seq<u8>)
    requires
        payload.len() <= u32::MAX,
        0 <= ptr,
        ptr + 4 + payload.len() <= mem.len(),
        mem.subrange(ptr, ptr + 4 + payload.len()) == framed(payload),
    ensures
        le_value(mem.subrange(ptr, ptr + 4)) == payload.len(),
        mem.subrange(ptr + 4, ptr + 4 + le_value(mem.subrange(ptr, ptr + 4))) == payload,
{
    lemma_le_roundtrip(payload.len() as u32);
    let f = framed(payload);
    assert(mem.subrange(ptr, ptr + 4) == f.subrange(0, 4));
    assert(f.subrange(0, 4) == le_bytes(payload.len() as u32));
    assert(mem.subrange(ptr + 4, ptr + 4 + payload.len()) == f.subrange(4, 4 + payload.len() as int));
    assert(f.subrange(4, 4 + payload.len() as int) == payload);
}

} // verus!
