use vstd::prelude::*;

verus! {

/// Why an image was refused.
#[derive(Clone, Copy, Debug, PartialEq, Eq, Structural)]
pub enum ImageError {
    /// The file does not start with the `BM` magic.
    NotBmp,
    /// Only 24 bits per pixel are supported.
    UnsupportedDepth,
    /// The header or the pixel rows run past the end of the file.
    Truncated,
}

/// The little-endian 16-bit number at `i`.
pub open spec fn le16(d: Seq<u8>, i: int) -> int {
    d[i] + 256 * d[i + 1]
}

/// The little-endian 32-bit number at `i`.
pub open spec fn le32(d: Seq<u8>, i: int) -> int {
    d[i] + 256 * d[i + 1] + 65536 * d[i + 2] + 16777216 * d[i + 3]
}

/// Bytes per stored row of `w` pixels: three per pixel, padded to a multiple of four.
pub open spec fn row_size(w: int) -> int {
    ((w * 3 + 3) / 4) * 4
}

/// Every pixel of a `w` by `h` image stored from `off` lies within `len` bytes.
pub open spec fn pixels_fit(len: int, off: int, w: int, h: int) -> bool {
    w == 0 || h == 0 || off + (h - 1) * row_size(w) + 3 * w <= len
}

/// The first `x` pixels of the stored row starting at `start`, as RGB
/// (stored as BGR).
pub open spec fn row_rgb(d: Seq<u8>, start: int, x: nat) -> Seq<u8>
    decreases x,
{
    if x == 0 {
        Seq::empty()
    } else {
        let p = start + 3 * (x - 1);
        row_rgb(d, start, (x - 1) as nat) + seq![d[p + 2], d[p + 1], d[p]]
    }
}

/// The top `k` rows of the image, as RGB; rows are stored bottom-up.
pub open spec fn image_rgb(d: Seq<u8>, off: int, w: int, h: int, k: nat) -> Seq<u8>
    decreases k,
{
    if k == 0 {
        Seq::empty()
    } else {
        image_rgb(d, off, w, h, (k - 1) as nat) + row_rgb(d, off + (h - k) * row_size(w), w as nat)
    }
}

/// The width, height and RGB bytes (top row first) of a 24-bit BMP file.
pub open spec fn decoded(d: Seq<u8>) -> Result<(u32, u32, Seq<u8>), ImageError> {
    if d.len() < 2 || d[0] != 66 || d[1] != 77 {
        Err(ImageError::NotBmp)
    } else if d.len() < 30 {
        Err(ImageError::Truncated)
    } else if le16(d, 28) != 24 {
        Err(ImageError::UnsupportedDepth)
    } else if !pixels_fit(d.len() as int, le32(d, 10), le32(d, 18), le32(d, 22)) {
        Err(ImageError::Truncated)
    } else {
        let w = le32(d, 18);
        let h = le32(d, 22);
        Ok((w as u32, h as u32, image_rgb(d, le32(d, 10), w, h, h as nat)))
    }
}

fn read_le32(d: &[u8], i: usize) -> (r: u32)
    requires
        i + 4 <= d@.len(),
    ensures
        r == le32(d@, i as int),
{
    d[i] as u32 + 256 * (d[i + 1] as u32) + 65536 * (d[i + 2] as u32) + 16777216 * (d[i + 3] as u32)
}

/// Whether `off + rows * rs + 3 * width` passes `len`.
fn exceeds(off: u32, rows: u32, rs: u64, width: u32, len: usize) -> (r: bool)
    requires
        rs < 0x8_0000_0000,
    ensures
        r == (off + rows * rs + 3 * width > len),
{
    assert(rows as u128 * rs as u128 <= 0x1_0000_0000 * 0x8_0000_0000) by (nonlinear_arith)
        requires
            rows < 0x1_0000_0000,
            rs < 0x8_0000_0000,
    ;
    (off as u128) + (rows as u128) * (rs as u128) + 3 * (width as u128) > len as u128
}

proof fn lemma_row_start(off: int, y: int, h: int, rs: int, w: int, len: int)
    requires
        0 <= y < h,
        0 <= rs,
        0 < w,
        off >= 0,
        off + (h - 1) * rs + 3 * w <= len,
    ensures
        0 <= off + y * rs,
        off + y * rs + 3 * w <= len,
{
    assert(0 <= y * rs <= (h - 1) * rs) by (nonlinear_arith)
        requires
            0 <= y < h,
            0 <= rs,
    ;
}

/// Decodes a 24-bit uncompressed BMP file into its width, height and RGB
/// bytes, top row first.
pub fn load_bmp(d: &[u8]) -> (r: Result<(u32, u32, Vec<u8>), ImageError>)
    ensures
        decoded(d@) matches Ok((w, h, px)) ==> (r matches Ok((w2, h2, v)) && w2 == w && h2 == h
            && v@ == px),
        decoded(d@) matches Err(e) ==> r matches Err(e2) && e2 == e,
{
    if d.len() < 2 || d[0] != 66 || d[1] != 77 {
        return Err(ImageError::NotBmp);
    }
    if d.len() < 30 {
        return Err(ImageError::Truncated);
    }
    let depth = d[28] as u16 + 256 * (d[29] as u16);
    if depth != 24 {
        return Err(ImageError::UnsupportedDepth);
    }
    let off = read_le32(d, 10);
    let width = read_le32(d, 18);
    let height = read_le32(d, 22);
    let rs: u64 = ((width as u64 * 3 + 3) / 4) * 4;
    let len = d.len();
    assert(rs < 0x8_0000_0000);
    if width != 0 && height != 0 && exceeds(off, height - 1, rs, width, len) {
        return Err(ImageError::Truncated);
    }
    let ghost w = width as int;
    let ghost h = height as int;
    let mut pixels: Vec<u8> = Vec::new();
    if width == 0 {
        proof {
            assert forall|k: nat| k <= h implies image_rgb(d@, off as int, w, h, k) =~= Seq::<
                u8,
            >::empty() by {
                lemma_empty_rows(d@, off as int, w, h, k);
            }
        }
        return Ok((width, height, pixels));
    }
    let mut k: u32 = 0;
    while k < height
        invariant
            0 < w,
            w == width,
            h == height,
            k <= height,
            rs == row_size(w),
            len == d@.len(),
            pixels_fit(len as int, off as int, w, h),
            pixels@ == image_rgb(d@, off as int, w, h, k as nat),
        decreases height - k,
    {
        let y = height - 1 - k;
        proof {
            lemma_row_start(off as int, y as int, h, rs as int, w, len as int);
        }
        let start: usize = (off as u128 + (y as u128) * (rs as u128)) as usize;
        let ghost before = pixels@;
        let mut x: u32 = 0;
        while x < width
            invariant
                0 < w,
                w == width,
                x <= width,
                len == d@.len(),
                start + 3 * w <= d@.len(),
                pixels@ == before + row_rgb(d@, start as int, x as nat),
            decreases width - x,
        {
            let p: usize = start + 3 * (x as usize);
            pixels.push(d[p + 2]);
            pixels.push(d[p + 1]);
            pixels.push(d[p]);
            assert(pixels@ =~= before + row_rgb(d@, start as int, (x + 1) as nat));
            x = x + 1;
        }
        assert(start as int == off + (h - (k + 1)) * row_size(w));
        k = k + 1;
    }
    Ok((width, height, pixels))
}

proof fn lemma_empty_rows(d: Seq<u8>, off: int, w: int, h: int, k: nat)
    requires
        w == 0,
    ensures
        image_rgb(d, off, w, h, k) =~= Seq::<u8>::empty(),
    decreases k,
{
    if k > 0 {
        lemma_empty_rows(d, off, w, h, (k - 1) as nat);
    }
}

} // verus!
