use vstd::arithmetic::div_mod::lemma_fundamental_div_mod_converse;
use vstd::prelude::*;

verus! {

/// The number of pixels of a square picture with `size` pixels a side.
pub open spec fn plane(size: nat) -> nat {
    size * size
}

/// Where the byte of channel `c` at row `y`, column `x` lies in a decoded
/// picture, whose three channel bytes of one pixel stand side by side.
pub open spec fn pixel_offset(c: int, y: int, x: int, size: nat) -> int {
    (y * size + x) * 3 + c
}

/// Where the same byte lies in the tensor: all of channel 0, then all of
/// channel 1, then all of channel 2, each row by row.
pub open spec fn tensor_offset(c: int, y: int, x: int, size: nat) -> int {
    c * plane(size) + (y * size + x)
}

/// The channel-major arrangement of the bytes of a decoded picture.
pub open spec fn channel_major(pixels: Seq<u8>, size: nat) -> Seq<u8> {
    Seq::new(3 * plane(size), |k: int| pixels[(k % plane(size) as int) * 3 + k / plane(size) as int])
}

/// The tensor holds at (channel, row, column) the byte that the picture holds
/// for that channel at (row, column).
pub proof fn lemma_channel_major_at(pixels: Seq<u8>, size: nat, c: int, y: int, x: int)
    requires
        pixels.len() == 3 * plane(size),
        0 <= c < 3,
        0 <= y < size,
        0 <= x < size,
    ensures
        0 <= tensor_offset(c, y, x, size) < 3 * plane(size),
        0 <= pixel_offset(c, y, x, size) < 3 * plane(size),
        channel_major(pixels, size)[tensor_offset(c, y, x, size)] == pixels[pixel_offset(
            c,
            y,
            x,
            size,
        )],
{
    let p = plane(size) as int;
    let r = y * size + x;
    assert(0 <= r < p) by (nonlinear_arith)
        requires
            0 <= y < size,
            0 <= x < size,
            r == y * size + x,
            p == size * size,
    ;
    assert(0 <= c * p <= 2 * p) by (nonlinear_arith)
        requires
            0 <= c < 3,
            0 <= p,
    ;
    lemma_fundamental_div_mod_converse(c * p + r, p, c, r);
}

/// Rearranges a decoded picture of `size` by `size` pixels, three bytes a
/// pixel, into channel-major order. There is a result exactly when the number
/// of bytes fits the size.
pub fn to_channel_major(pixels: &Vec<u8>, size: usize) -> (r: Option<Vec<u8>>)
    ensures
        r is Some <==> pixels.len() == 3 * plane(size as nat),
        r matches Some(t) ==> t@ == channel_major(pixels@, size as nat),
{
    let area: usize = match size.checked_mul(size) {
        Some(a) => a,
        None => {
            return None;
        },
    };
    let total: usize = match area.checked_mul(3) {
        Some(t) => t,
        None => {
            return None;
        },
    };
    if pixels.len() != total {
        return None;
    }
    let mut out: Vec<u8> = Vec::new();
    let mut c: usize = 0;
    while c < 3
        invariant
            c <= 3,
            area == plane(size as nat),
            pixels.len() == 3 * area,
            out.len() == c * area,
            forall|k: int|
                0 <= k < out.len() ==> out[k] == pixels[(k % area as int) * 3 + k / area as int],
        decreases 3 - c,
    {
        let mut p: usize = 0;
        while p < area
            invariant
                p <= area,
                c < 3,
                pixels.len() == 3 * area,
                out.len() == c * area + p,
                forall|k: int|
                    0 <= k < out.len() ==> out[k] == pixels[(k % area as int) * 3 + k
                        / area as int],
            decreases area - p,
        {
            proof {
                assert(0 <= c * area <= 2 * area) by (nonlinear_arith)
                    requires
                        0 <= c < 3,
                        0 <= area,
                ;
                lemma_fundamental_div_mod_converse(
                    c * area + p,
                    area as int,
                    c as int,
                    p as int,
                );
            }
            out.push(pixels[p * 3 + c]);
            p += 1;
        }
        proof {
            assert((c + 1) * area == c * area + area) by (nonlinear_arith);
        }
        c += 1;
    }
    proof {
        assert(out@ =~= channel_major(pixels@, size as nat));
    }
    Some(out)
}

} // verus!
