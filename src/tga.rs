//! Decoding of run-length encoded TGA images (24 or 32 bits per pixel) into
//! RGBA bytes; a 24-bit pixel gets an opaque alpha byte.
use crate::codec::Error;
use vstd::prelude::*;

verus! {

/// The RGBA bytes of one stored pixel of 3 or 4 bytes.
pub open spec fn expand(p: Seq<u8>) -> Seq<u8> {
    if p.len() == 3 {
        p.push(255u8)
    } else {
        p
    }
}

/// `k` copies of the pixel `px`.
pub open spec fn repeat(px: Seq<u8>, k: nat) -> Seq<u8>
    decreases k,
{
    if k == 0 {
        Seq::empty()
    } else {
        repeat(px, (k - 1) as nat) + px
    }
}

/// The pixels stored back to back in `bytes`, `bpp` bytes each.
pub open spec fn raw(bytes: Seq<u8>, bpp: nat) -> Seq<u8>
    decreases bytes.len(),
{
    if bpp == 0 || bytes.len() < bpp {
        Seq::empty()
    } else {
        raw(bytes.take(bytes.len() - bpp), bpp) + expand(bytes.skip(bytes.len() - bpp))
    }
}

pub open spec fn prepend_bytes(out: Seq<u8>, r: Result<Seq<u8>, Error>) -> Result<Seq<u8>, Error> {
    match r {
        Ok(rest) => Ok(out + rest),
        Err(e) => Err(e),
    }
}

/// The RGBA bytes of the first `need` pixels that the packets at the front
/// of `b` encode. A packet byte of 128 or more starts a run of that many
/// minus 127 copies of one pixel; below 128, that many plus one pixels
/// follow as they are. Packets stop once `need` pixels are there.
#[verifier::opaque]
pub open spec fn rle(b: Seq<u8>, bpp: nat, need: nat) -> Result<Seq<u8>, Error>
    decreases need,
{
    if need == 0 || bpp == 0 {
        Ok(Seq::empty())
    } else if b.len() == 0 {
        Err(Error::Truncated)
    } else if b[0] >= 128 {
        let count = b[0] - 127;
        let k = if count < need { count as nat } else { need };
        if b.len() < 1 + bpp {
            Err(Error::Truncated)
        } else {
            prepend_bytes(
                repeat(expand(b.subrange(1, 1 + bpp as int)), k),
                rle(b.skip(1 + bpp as int), bpp, (need - k) as nat),
            )
        }
    } else {
        let count = b[0] + 1;
        let k = if count < need { count as nat } else { need };
        if b.len() < 1 + k * bpp {
            Err(Error::Truncated)
        } else {
            prepend_bytes(
                raw(b.subrange(1, 1 + (k * bpp) as int), bpp),
                rle(b.skip(1 + (k * bpp) as int), bpp, (need - k) as nat),
            )
        }
    }
}

proof fn lemma_raw_push(bytes: Seq<u8>, bpp: nat, i: nat)
    requires
        bpp > 0,
        (i + 1) * bpp <= bytes.len(),
    ensures
        raw(bytes.take(((i + 1) * bpp) as int), bpp) == raw(bytes.take((i * bpp) as int), bpp)
            + expand(bytes.subrange((i * bpp) as int, ((i + 1) * bpp) as int)),
{
    let t = bytes.take(((i + 1) * bpp) as int);
    assert((i + 1) * bpp == i * bpp + bpp) by (nonlinear_arith);
    assert(t.take(t.len() - bpp) =~= bytes.take((i * bpp) as int));
    assert(t.skip(t.len() - bpp) =~= bytes.subrange((i * bpp) as int, ((i + 1) * bpp) as int));
}

/// Appends `k` copies of `px`.
fn push_run(out: &mut Vec<u8>, px: &Vec<u8>, k: usize)
    ensures
        final(out)@ == old(out)@ + repeat(px@, k as nat),
{
    let mut i: usize = 0;
    while i < k
        invariant
            i <= k,
            out@ == old(out)@ + repeat(px@, i as nat),
        decreases k - i,
    {
        let ghost before = out@;
        let mut j: usize = 0;
        while j < px.len()
            invariant
                j <= px@.len(),
                out@ == before + px@.take(j as int),
            decreases px@.len() - j,
        {
            out.push(px[j]);
            j = j + 1;
            proof {
                assert(out@ =~= before + px@.take(j as int));
            }
        }
        proof {
            assert(px@.take(j as int) =~= px@);
            assert(repeat(px@, (i + 1) as nat) == repeat(px@, i as nat) + px@);
            assert(out@ =~= old(out)@ + repeat(px@, (i + 1) as nat));
        }
        i = i + 1;
    }
}

/// The RGBA bytes of the pixel stored at `b[start..start + bpp]`.
fn pixel_at(b: &[u8], start: usize, bpp: usize) -> (r: Vec<u8>)
    requires
        bpp == 3 || bpp == 4,
        start + bpp <= b@.len(),
    ensures
        r@ == expand(b@.subrange(start as int, start + bpp)),
{
    let mut r: Vec<u8> = Vec::new();
    r.push(b[start]);
    r.push(b[start + 1]);
    r.push(b[start + 2]);
    if bpp == 4 {
        r.push(b[start + 3]);
    } else {
        r.push(255);
    }
    proof {
        assert(r@ =~= expand(b@.subrange(start as int, start + bpp)));
    }
    r
}

/// Appends the `k` pixels stored after the packet byte at `b[p]`.
fn raw_packet(b: &[u8], p: usize, bpp: usize, k: usize, out: &mut Vec<u8>)
    requires
        bpp == 3 || bpp == 4,
        p + 1 + k * bpp <= b@.len(),
    ensures
        final(out)@ == old(out)@ + raw(b@.skip(p as int).subrange(1, 1 + k * bpp), bpp as nat),
{
    let blen: usize = b.len();
    let ghost s = b@.skip(p as int);
    let ghost before = out@;
    let ghost bytes = s.subrange(1, 1 + k * bpp);
    let mut i: usize = 0;
    while i < k
        invariant
            bpp == 3 || bpp == 4,
            i <= k,
            blen == b@.len(),
            p + 1 + k * bpp <= b@.len(),
            s == b@.skip(p as int),
            bytes == s.subrange(1, 1 + k * bpp),
            out@ == before + raw(bytes.take(i * bpp), bpp as nat),
        decreases k - i,
    {
        proof {
            assert((i + 1) * bpp <= k * bpp) by (nonlinear_arith)
                requires
                    i < k,
            ;
            assert((i + 1) * bpp == i * bpp + bpp) by (nonlinear_arith);
        }
        let start: usize = p + 1 + i * bpp;
        let px = pixel_at(b, start, bpp);
        let mut j: usize = 0;
        let ghost mid = out@;
        while j < px.len()
            invariant
                j <= px@.len(),
                out@ == mid + px@.take(j as int),
            decreases px@.len() - j,
        {
            out.push(px[j]);
            j = j + 1;
            proof {
                assert(out@ =~= mid + px@.take(j as int));
            }
        }
        proof {
            assert(px@.take(j as int) =~= px@);
            lemma_raw_push(bytes, bpp as nat, i as nat);
            assert(bytes.subrange(i * bpp, (i + 1) * bpp) =~= b@.subrange(start as int, start + bpp));
        }
        i = i + 1;
    }
    proof {
        assert(bytes.take(k * bpp) =~= bytes);
    }
}

proof fn lemma_prepend_assoc(a: Seq<u8>, b: Seq<u8>, r: Result<Seq<u8>, Error>)
    ensures
        prepend_bytes(a, prepend_bytes(b, r)) == prepend_bytes(a + b, r),
{
    match r {
        Ok(x) => {
            assert(a + (b + x) =~= a + b + x);
        },
        Err(_) => {},
    }
}

/// One step of `rle` on a run packet.
proof fn lemma_rle_run(s: Seq<u8>, bpp: nat, need: nat, k: nat)
    requires
        bpp == 3 || bpp == 4,
        need > 0,
        s.len() > 0,
        s[0] >= 128,
        k == if s[0] - 127 < need { (s[0] - 127) as nat } else { need },
    ensures
        s.len() < 1 + bpp ==> rle(s, bpp, need) == Err::<Seq<u8>, Error>(Error::Truncated),
        s.len() >= 1 + bpp ==> rle(s, bpp, need) == prepend_bytes(
            repeat(expand(s.subrange(1, 1 + bpp as int)), k),
            rle(s.skip(1 + bpp as int), bpp, (need - k) as nat),
        ),
{
    reveal(rle);
}

/// One step of `rle` on a raw packet.
proof fn lemma_rle_raw(s: Seq<u8>, bpp: nat, need: nat, k: nat)
    requires
        bpp == 3 || bpp == 4,
        need > 0,
        s.len() > 0,
        s[0] < 128,
        k == if s[0] + 1 < need { (s[0] + 1) as nat } else { need },
    ensures
        s.len() < 1 + k * bpp ==> rle(s, bpp, need) == Err::<Seq<u8>, Error>(Error::Truncated),
        s.len() >= 1 + k * bpp ==> rle(s, bpp, need) == prepend_bytes(
            raw(s.subrange(1, 1 + (k * bpp) as int), bpp),
            rle(s.skip(1 + (k * bpp) as int), bpp, (need - k) as nat),
        ),
{
    reveal(rle);
}

proof fn lemma_rle_base(s: Seq<u8>, bpp: nat, need: nat)
    ensures
        need == 0 ==> rle(s, bpp, need) == Ok::<Seq<u8>, Error>(Seq::empty()),
        need > 0 && bpp > 0 && s.len() == 0 ==> rle(s, bpp, need) == Err::<Seq<u8>, Error>(
            Error::Truncated,
        ),
{
    reveal(rle);
}

/// Decodes the packets of `b` from `pos` on until `need` pixels are there.
pub fn decode_rle(b: &[u8], pos: usize, bpp: usize, need: usize) -> (r: Result<Vec<u8>, Error>)
    requires
        bpp == 3 || bpp == 4,
        pos <= b@.len(),
    ensures
        match r {
            Ok(v) => rle(b@.skip(pos as int), bpp as nat, need as nat) == Ok::<_, Error>(v@),
            Err(e) => rle(b@.skip(pos as int), bpp as nat, need as nat) == Err::<Seq<u8>, _>(e),
        },
{
    let mut out: Vec<u8> = Vec::new();
    let blen: usize = b.len();
    let mut p: usize = pos;
    let mut left: usize = need;
    let ghost total = rle(b@.skip(pos as int), bpp as nat, need as nat);
    proof {
        assert(out@ + Seq::<u8>::empty() =~= out@);
    }
    while left > 0
        invariant
            bpp == 3 || bpp == 4,
            blen == b@.len(),
            p <= b@.len(),
            total == rle(b@.skip(pos as int), bpp as nat, need as nat),
            total == prepend_bytes(out@, rle(b@.skip(p as int), bpp as nat, left as nat)),
        decreases left,
    {
        let ghost s = b@.skip(p as int);
        if p >= blen {
            proof {
                lemma_rle_base(s, bpp as nat, left as nat);
            }
            return Err(Error::Truncated);
        }
        let c = b[p];
        assert(s[0] == c);
        let ghost before = out@;
        if c >= 128 {
            let count: usize = (c - 127) as usize;
            let k: usize = if count < left { count } else { left };
            proof {
                lemma_rle_run(s, bpp as nat, left as nat, k as nat);
            }
            if blen - p < 1 + bpp {
                return Err(Error::Truncated);
            }
            let px = pixel_at(b, p + 1, bpp);
            proof {
                assert(b@.subrange(p + 1, p + 1 + bpp) =~= s.subrange(1, 1 + bpp as int));
            }
            push_run(&mut out, &px, k);
            p = p + 1 + bpp;
            left = left - k;
            proof {
                assert(s.skip(1 + bpp as int) =~= b@.skip(p as int));
                lemma_prepend_assoc(before, repeat(px@, k as nat), rle(b@.skip(p as int), bpp as nat, left as nat));
            }
        } else {
            let count: usize = c as usize + 1;
            let k: usize = if count < left { count } else { left };
            proof {
                lemma_rle_raw(s, bpp as nat, left as nat, k as nat);
            }
            if (blen - p - 1) / bpp < k {
                proof {
                    vstd::arithmetic::div_mod::lemma_fundamental_div_mod((b@.len() - p - 1) as int, bpp as int);
                    assert(((b@.len() - p - 1) as int / bpp as int + 1) * bpp as int <= k * bpp) by (nonlinear_arith)
                        requires
                            (b@.len() - p - 1) as int / bpp as int + 1 <= k,
                            bpp > 0,
                    ;
                }
                return Err(Error::Truncated);
            }
            proof {
                assert(k * bpp <= ((b@.len() - p - 1) as int / bpp as int) * bpp) by (nonlinear_arith)
                    requires
                        k <= (b@.len() - p - 1) as int / bpp as int,
                        bpp > 0,
                ;
                vstd::arithmetic::div_mod::lemma_fundamental_div_mod((b@.len() - p - 1) as int, bpp as int);
            }
            raw_packet(b, p, bpp, k, &mut out);
            p = p + 1 + k * bpp;
            left = left - k;
            proof {
                assert(s.skip(1 + k * bpp) =~= b@.skip(p as int));
                lemma_prepend_assoc(before, raw(s.subrange(1, 1 + k * bpp), bpp as nat), rle(b@.skip(p as int), bpp as nat, left as nat));
            }
        }
    }
    proof {
        lemma_rle_base(b@.skip(p as int), bpp as nat, 0);
        assert(out@ + Seq::<u8>::empty() =~= out@);
    }
    Ok(out)
}

/// A little-endian 16-bit value.
pub open spec fn le16(lo: u8, hi: u8) -> nat {
    (lo as nat) + 256 * (hi as nat)
}

/// What decoding `b` gives: width, height and RGBA bytes. The header holds
/// the width at bytes 12-13, the height at 14-15 and the pixel depth at 16;
/// the packets start at byte 18.
pub open spec fn tga_spec(b: Seq<u8>) -> Result<(u32, u32, Seq<u8>), Error> {
    if b.len() < 18 {
        Err(Error::Truncated)
    } else if b[16] != 24 && b[16] != 32 {
        Err(Error::Unsupported)
    } else {
        let w = le16(b[12], b[13]);
        let h = le16(b[14], b[15]);
        let bpp: nat = if b[16] == 24 { 3 } else { 4 };
        match rle(b.skip(18), bpp, w * h) {
            Ok(d) => Ok((w as u32, h as u32, d)),
            Err(e) => Err(e),
        }
    }
}

/// Decodes a run-length encoded TGA image of 24 or 32 bits per pixel.
pub fn decode(tga: &[u8]) -> (r: Result<(u32, u32, Vec<u8>), Error>)
    ensures
        match r {
            Ok((w, h, d)) => tga_spec(tga@) == Ok::<_, Error>((w, h, d@)),
            Err(e) => tga_spec(tga@) == Err::<(u32, u32, Seq<u8>), _>(e),
        },
{
    if tga.len() < 18 {
        return Err(Error::Truncated);
    }
    let width: u32 = tga[12] as u32 + 256 * tga[13] as u32;
    let height: u32 = tga[14] as u32 + 256 * tga[15] as u32;
    let depth = tga[16];
    let bpp: usize = if depth == 24 {
        3
    } else if depth == 32 {
        4
    } else {
        return Err(Error::Unsupported);
    };
    proof {
        assert(width <= 65535 && height <= 65535);
        assert(width * height <= 65535 * 65535) by (nonlinear_arith)
            requires
                width <= 65535,
                height <= 65535,
        ;
    }
    let need: usize = width as usize * height as usize;
    match decode_rle(tga, 18, bpp, need) {
        Ok(d) => Ok((width, height, d)),
        Err(e) => Err(e),
    }
}

} // verus!
