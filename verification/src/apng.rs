//! Pixel conversion for animation frames: a renderer hands out RGBA with
//! premultiplied alpha, an image file stores it straight.

use vstd::prelude::*;

verus! {

/// The straight value of channel `c` of a pixel with alpha `a` (not 0):
/// `c * 255 / a`, rounded to the nearest, at most 255.
pub open spec fn straight(c: u8, a: u8) -> u8 {
    let v = (c as int * 255 + a as int / 2) / a as int;
    if v > 255 {
        255u8
    } else {
        v as u8
    }
}

/// Channel `j` of pixel `i` of premultiplied RGBA data, made straight: a
/// pixel with alpha 0 becomes `(0, 0, 0, 0)`, one with alpha 255 stays as
/// it is, and the colour channels of the others are divided by alpha.
pub open spec fn straight_channel(d: Seq<u8>, i: int, j: int) -> u8 {
    let a = d[4 * i + 3];
    if a == 0 {
        0u8
    } else if a == 255 || j == 3 {
        d[4 * i + j]
    } else {
        straight(d[4 * i + j], a)
    }
}

fn straight_exec(c: u8, a: u8) -> (r: u8)
    requires
        a != 0,
    ensures
        r == straight(c, a),
{
    let v: u16 = (c as u16 * 255 + a as u16 / 2) / a as u16;
    if v > 255 {
        255
    } else {
        v as u8
    }
}

/// Premultiplied RGBA to straight RGBA, four bytes to a pixel; bytes after
/// the last whole pixel are dropped.
pub fn unpremultiply(data: &[u8]) -> (r: Vec<u8>)
    ensures
        r@.len() == 4 * (data@.len() / 4),
        forall|i: int, j: int|
            0 <= i < data@.len() / 4 && 0 <= j < 4 ==> #[trigger] r@[4 * i + j] == straight_channel(
                data@,
                i,
                j,
            ),
{
    let n = data.len() / 4;
    let mut out: Vec<u8> = Vec::new();
    let mut i: usize = 0;
    while i < n
        invariant
            n == data@.len() / 4,
            i <= n,
            out@.len() == 4 * i,
            forall|k: int, j: int|
                0 <= k < i && 0 <= j < 4 ==> #[trigger] out@[4 * k + j] == straight_channel(
                    data@,
                    k,
                    j,
                ),
        decreases n - i,
    {
        proof {
            assert(4 * n <= data@.len()) by (nonlinear_arith)
                requires
                    n == data@.len() / 4,
            ;
            assert(4 * i + 4 <= data@.len());
            assert(data@.len() == data.len());
        }
        let b = 4 * i;
        let a = data[b + 3];
        let ghost before = out@;
        if a == 0 {
            out.push(0);
            out.push(0);
            out.push(0);
            out.push(0);
        } else if a == 255 {
            out.push(data[b]);
            out.push(data[b + 1]);
            out.push(data[b + 2]);
            out.push(a);
        } else {
            let r = straight_exec(data[b], a);
            let g = straight_exec(data[b + 1], a);
            let bl = straight_exec(data[b + 2], a);
            out.push(r);
            out.push(g);
            out.push(bl);
            out.push(a);
        }
        proof {
            assert forall|k: int, j: int| 0 <= k < i + 1 && 0 <= j < 4 implies #[trigger] out@[4 * k
                + j] == straight_channel(data@, k, j) by {
                if k < i {
                    assert(out@[4 * k + j] == before[4 * k + j]);
                } else {
                    assert(4 * k + j == 4 * i + j);
                }
            }
        }
        i += 1;
    }
    out
}

/// Alpha passes through unchanged, and a pixel whose alpha is 0 or 255
/// comes out whole: black and transparent, or as it was.
pub proof fn unpremultiply_keeps_alpha(d: Seq<u8>, i: int)
    requires
        0 <= i < d.len() / 4,
    ensures
        straight_channel(d, i, 3) == d[4 * i + 3],
        d[4 * i + 3] == 255 ==> forall|j: int| 0 <= j < 4 ==> straight_channel(d, i, j) == d[4 * i + j],
        d[4 * i + 3] == 0 ==> forall|j: int| 0 <= j < 4 ==> straight_channel(d, i, j) == 0,
{
}

/// A colour channel that does not exceed its alpha, as premultiplied data
/// holds, needs no clamping: its straight value is `c * 255 / a` rounded,
/// and it is 255 exactly when the channel equals alpha.
pub proof fn straight_of_valid_pixel(c: u8, a: u8)
    requires
        0 < a,
        c <= a,
    ensures
        straight(c, a) as int == (c as int * 255 + a as int / 2) / a as int,
        straight(c, a) == 255 <==> c == a,
{
    let v = (c as int * 255 + a as int / 2) / a as int;
    assert(v <= 255) by (nonlinear_arith)
        requires
            0 < a,
            c <= a,
            v == (c as int * 255 + a as int / 2) / a as int,
    ;
    assert(c == a ==> v == 255) by (nonlinear_arith)
        requires
            0 < a,
            v == (c as int * 255 + a as int / 2) / a as int,
    ;
    if c < a {
        assert(v < 255) by (nonlinear_arith)
            requires
                0 < a,
                c < a,
                v == (c as int * 255 + a as int / 2) / a as int,
        ;
    }
}

} // verus!
