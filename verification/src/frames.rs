//! Layout of a sequence of RGBA frames stored one after another in a single
//! buffer, as an animation encoder consumes them.

use vstd::prelude::*;

verus! {

/// The lowest quantization speed that an encoder accepts.
pub const MIN_SPEED: i32 = 1;

/// The highest quantization speed that an encoder accepts.
pub const MAX_SPEED: i32 = 30;

/// The number of bytes of one RGBA frame.
pub open spec fn frame_bytes(width: u16, height: u16) -> int {
    width as int * height as int * 4
}

/// Frame `index` lies whole inside a buffer of `len` bytes.
pub open spec fn frame_fits(len: int, width: u16, height: u16, index: int) -> bool {
    (index + 1) * frame_bytes(width, height) <= len
}

/// The speed brought into the range that an encoder accepts.
pub fn clamp_speed(speed: i32) -> (r: i32)
    ensures
        MIN_SPEED <= r <= MAX_SPEED,
        MIN_SPEED <= speed <= MAX_SPEED ==> r == speed,
        speed < MIN_SPEED ==> r == MIN_SPEED,
        speed > MAX_SPEED ==> r == MAX_SPEED,
{
    if speed < MIN_SPEED {
        MIN_SPEED
    } else if speed > MAX_SPEED {
        MAX_SPEED
    } else {
        speed
    }
}

/// Where frame `index` lies in a buffer of `len` bytes: its first byte and
/// the byte after its last. `None` for a frame that the buffer does not
/// hold whole, and for every frame after such a one.
pub fn frame_span(len: usize, width: u16, height: u16, index: u32) -> (r: Option<(usize, usize)>)
    ensures
        r is Some <==> frame_fits(len as int, width, height, index as int),
        r matches Some(span) ==> span.0 as int == index * frame_bytes(width, height) && span.1
            as int == (index + 1) * frame_bytes(width, height),
{
    proof {
        assert(0 <= width as int * height as int <= 0xffff * 0xffff) by (nonlinear_arith)
            requires
                0 <= width as int <= 0xffff,
                0 <= height as int <= 0xffff,
        ;
    }
    let area: u64 = width as u64 * height as u64;
    let size: u64 = area * 4;
    if size == 0 {
        proof {
            assert((index + 1) * 0 == 0 && index * 0 == 0) by (nonlinear_arith);
        }
        return Some((0, 0));
    }
    let whole: u64 = len as u64 / size;
    if index as u64 >= whole {
        proof {
            lemma_frames_past_the_end(len as int, size as int, index as int);
        }
        return None;
    }
    proof {
        lemma_frames_before_the_end(len as int, size as int, index as int);
    }
    let start: u64 = index as u64 * size;
    Some((start as usize, (start + size) as usize))
}

/// The number of frames, out of `frame_count`, that a buffer of `len` bytes
/// holds whole: the frames that are encoded. Frames past the end of the
/// buffer are left out.
pub fn whole_frames(len: usize, width: u16, height: u16, frame_count: u32) -> (r: u32)
    ensures
        r <= frame_count,
        forall|i: int| 0 <= i < r ==> frame_fits(len as int, width, height, i),
        r < frame_count ==> !frame_fits(len as int, width, height, r as int),
{
    let mut n: u32 = 0;
    while n < frame_count
        invariant
            n <= frame_count,
            forall|i: int| 0 <= i < n ==> frame_fits(len as int, width, height, i),
        decreases frame_count - n,
    {
        if frame_span(len, width, height, n).is_none() {
            return n;
        }
        n += 1;
    }
    n
}

/// A frame at or past the number of whole frames does not fit.
proof fn lemma_frames_past_the_end(len: int, size: int, index: int)
    requires
        0 <= len,
        0 < size,
        index >= len / size,
    ensures
        (index + 1) * size > len,
{
    vstd::arithmetic::div_mod::lemma_fundamental_div_mod(len, size);
    vstd::arithmetic::div_mod::lemma_mod_bound(len, size);
    assert((index + 1) * size >= (len / size + 1) * size) by (nonlinear_arith)
        requires
            index >= len / size,
            0 < size,
    ;
    assert((len / size + 1) * size == size * (len / size) + size) by (nonlinear_arith);
}

/// A frame before the number of whole frames fits.
proof fn lemma_frames_before_the_end(len: int, size: int, index: int)
    requires
        0 <= len,
        0 < size,
        0 <= index < len / size,
    ensures
        (index + 1) * size <= len,
        0 <= index * size,
        (index + 1) * size == index * size + size,
{
    vstd::arithmetic::div_mod::lemma_fundamental_div_mod(len, size);
    vstd::arithmetic::div_mod::lemma_mod_bound(len, size);
    assert((index + 1) * size <= (len / size) * size) by (nonlinear_arith)
        requires
            index + 1 <= len / size,
            0 < size,
    ;
    assert((len / size) * size == size * (len / size)) by (nonlinear_arith);
    assert(0 <= index * size && (index + 1) * size == index * size + size) by (nonlinear_arith)
        requires
            0 <= index,
            0 < size,
    ;
}

} // verus!
