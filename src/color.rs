//! Colors, and the byte layout of pixel buffers.
use vstd::prelude::*;

verus! {

/// A pixel in the order the view framebuffer keeps it: blue, green, red, alpha.
#[derive(Clone, Copy, Debug, PartialEq, Eq, Structural)]
pub struct Bgra8 {
    pub b: u8,
    pub g: u8,
    pub r: u8,
    pub a: u8,
}

/// A pixel in the order image files keep it: red, green, blue, alpha.
#[derive(Clone, Copy, Debug, PartialEq, Eq, Structural)]
pub struct Rgba8 {
    pub r: u8,
    pub g: u8,
    pub b: u8,
    pub a: u8,
}

impl Bgra8 {
    /// The fully transparent color, all channels zero.
    pub fn transparent() -> (c: Bgra8)
        ensures
            c == rgba_to_bgra(transparent_rgba()),
    {
        Bgra8 { b: 0, g: 0, r: 0, a: 0 }
    }

    pub fn new(b: u8, g: u8, r: u8, a: u8) -> (c: Bgra8)
        ensures
            c == (Bgra8 { b, g, r, a }),
    {
        Bgra8 { b, g, r, a }
    }

    /// The same color with its channels in file order.
    pub fn to_rgba(self) -> (c: Rgba8)
        ensures
            c == bgra_to_rgba(self),
    {
        Rgba8 { r: self.r, g: self.g, b: self.b, a: self.a }
    }
}

impl Rgba8 {
    /// The fully transparent color, all channels zero.
    pub fn transparent() -> (c: Rgba8)
        ensures
            c == transparent_rgba(),
    {
        Rgba8 { r: 0, g: 0, b: 0, a: 0 }
    }

    pub fn new(r: u8, g: u8, b: u8, a: u8) -> (c: Rgba8)
        ensures
            c == (Rgba8 { r, g, b, a }),
    {
        Rgba8 { r, g, b, a }
    }

    /// The same color with its channels in framebuffer order.
    pub fn to_bgra(self) -> (c: Bgra8)
        ensures
            c == rgba_to_bgra(self),
    {
        Bgra8 { b: self.b, g: self.g, r: self.r, a: self.a }
    }
}

pub open spec fn bgra_to_rgba(c: Bgra8) -> Rgba8 {
    Rgba8 { r: c.r, g: c.g, b: c.b, a: c.a }
}

pub open spec fn rgba_to_bgra(c: Rgba8) -> Bgra8 {
    Bgra8 { b: c.b, g: c.g, r: c.r, a: c.a }
}

pub open spec fn transparent_rgba() -> Rgba8 {
    Rgba8 { r: 0, g: 0, b: 0, a: 0 }
}

/// Channel `k` (0 to 3) of a pixel as it lies in memory.
pub open spec fn bgra_channel(c: Bgra8, k: int) -> u8 {
    if k == 0 {
        c.b
    } else if k == 1 {
        c.g
    } else if k == 2 {
        c.r
    } else {
        c.a
    }
}

/// Channel `k` (0 to 3) of a pixel as image files hold it.
pub open spec fn rgba_channel(c: Rgba8, k: int) -> u8 {
    if k == 0 {
        c.r
    } else if k == 1 {
        c.g
    } else if k == 2 {
        c.b
    } else {
        c.a
    }
}

/// The bytes of a framebuffer: four per pixel, blue first.
pub open spec fn bgra_bytes(p: Seq<Bgra8>) -> Seq<u8> {
    Seq::new(4 * p.len(), |i: int| bgra_channel(p[i / 4], i % 4))
}

/// The bytes of the pixel data of an image file: four per pixel, red first.
pub open spec fn rgba_bytes(p: Seq<Bgra8>) -> Seq<u8> {
    Seq::new(4 * p.len(), |i: int| rgba_channel(bgra_to_rgba(p[i / 4]), i % 4))
}

/// Pixels read from framebuffer bytes, four bytes each.
pub open spec fn bgra_from_bytes(b: Seq<u8>) -> Seq<Bgra8> {
    Seq::new(
        b.len() / 4,
        |i: int| Bgra8 { b: b[4 * i], g: b[4 * i + 1], r: b[4 * i + 2], a: b[4 * i + 3] },
    )
}

/// Pixels read from the RGBA bytes of an image file, four bytes each.
pub open spec fn bgra_from_rgba_bytes(b: Seq<u8>) -> Seq<Bgra8> {
    Seq::new(
        b.len() / 4,
        |i: int| Bgra8 { r: b[4 * i], g: b[4 * i + 1], b: b[4 * i + 2], a: b[4 * i + 3] },
    )
}

pub(crate) proof fn lemma_div_mod_4(i: int, k: int)
    requires
        0 <= i,
        0 <= k < 4,
    ensures
        (4 * i + k) / 4 == i,
        (4 * i + k) % 4 == k,
{
    assert((4 * i + k) / 4 == i) by (nonlinear_arith)
        requires
            0 <= i,
            0 <= k < 4,
    ;
    assert((4 * i + k) % 4 == k) by (nonlinear_arith)
        requires
            0 <= i,
            0 <= k < 4,
    ;
}

proof fn lemma_chunk_in_bounds(i: int, len: int)
    requires
        0 <= i < len / 4,
    ensures
        4 * i + 3 < len,
{
    assert(4 * i + 3 < len) by (nonlinear_arith)
        requires
            0 <= i < len / 4,
    ;
}

/// Reading back the bytes of a framebuffer gives its pixels.
pub proof fn lemma_bgra_bytes_round_trip(p: Seq<Bgra8>)
    ensures
        bgra_from_bytes(bgra_bytes(p)) == p,
{
    let b = bgra_bytes(p);
    assert(b.len() / 4 == p.len()) by {
        lemma_div_mod_4(p.len() as int, 0);
    }
    assert forall|i: int| 0 <= i < p.len() implies #[trigger] bgra_from_bytes(b)[i] == p[i] by {
        lemma_div_mod_4(i, 0);
        lemma_div_mod_4(i, 1);
        lemma_div_mod_4(i, 2);
        lemma_div_mod_4(i, 3);
    }
    assert(bgra_from_bytes(b) =~= p);
}

/// The bytes of a framebuffer, blue first.
pub fn to_bgra_bytes(pixels: &[Bgra8]) -> (r: Vec<u8>)
    requires
        4 * pixels@.len() <= usize::MAX,
    ensures
        r@ == bgra_bytes(pixels@),
{
    let mut out: Vec<u8> = Vec::new();
    let n = pixels.len();
    let mut i: usize = 0;
    while i < n
        invariant
            n == pixels@.len(),
            4 * n <= usize::MAX,
            i <= n,
            out@ =~= Seq::new(4 * i as nat, |j: int| bgra_channel(pixels@[j / 4], j % 4)),
        decreases n - i,
    {
        let c = pixels[i];
        out.push(c.b);
        out.push(c.g);
        out.push(c.r);
        out.push(c.a);
        proof {
            assert forall|j: int| 0 <= j < 4 * (i + 1) implies #[trigger] out@[j] == bgra_channel(
                pixels@[j / 4],
                j % 4,
            ) by {
                if j >= 4 * i {
                    lemma_div_mod_4(i as int, j - 4 * i);
                }
            }
        }
        i = i + 1;
    }
    out
}

/// The bytes of an image file, red first: what gets written when a view is
/// saved as a still image.
pub fn to_rgba_bytes(pixels: &[Bgra8]) -> (r: Vec<u8>)
    requires
        4 * pixels@.len() <= usize::MAX,
    ensures
        r@ == rgba_bytes(pixels@),
{
    let mut out: Vec<u8> = Vec::new();
    let n = pixels.len();
    let mut i: usize = 0;
    while i < n
        invariant
            n == pixels@.len(),
            4 * n <= usize::MAX,
            i <= n,
            out@ =~= Seq::new(
                4 * i as nat,
                |j: int| rgba_channel(bgra_to_rgba(pixels@[j / 4]), j % 4),
            ),
        decreases n - i,
    {
        let c = pixels[i].to_rgba();
        out.push(c.r);
        out.push(c.g);
        out.push(c.b);
        out.push(c.a);
        proof {
            assert forall|j: int| 0 <= j < 4 * (i + 1) implies #[trigger] out@[j] == rgba_channel(
                bgra_to_rgba(pixels@[j / 4]),
                j % 4,
            ) by {
                if j >= 4 * i {
                    lemma_div_mod_4(i as int, j - 4 * i);
                }
            }
        }
        i = i + 1;
    }
    out
}

/// Pixels from framebuffer bytes; a trailing partial pixel is ignored.
pub fn from_bgra_bytes(bytes: &[u8]) -> (r: Vec<Bgra8>)
    ensures
        r@ == bgra_from_bytes(bytes@),
{
    let len = bytes.len();
    let n = len / 4;
    let mut out: Vec<Bgra8> = Vec::new();
    let mut i: usize = 0;
    while i < n
        invariant
            len == bytes@.len(),
            n == len / 4,
            i <= n,
            out@ =~= bgra_from_bytes(bytes@).take(i as int),
        decreases n - i,
    {
        proof {
            lemma_chunk_in_bounds(i as int, bytes@.len() as int);
        }
        let k = 4 * i;
        out.push(Bgra8 { b: bytes[k], g: bytes[k + 1], r: bytes[k + 2], a: bytes[k + 3] });
        i = i + 1;
    }
    out
}

/// The pixel data of an image file did not split into whole pixels.
#[derive(Clone, Copy, Debug, PartialEq, Eq, Structural)]
pub enum PixelBufferError {
    /// The buffer length is not a multiple of four.
    InvalidSize,
}

/// Pixels in framebuffer order from the RGBA bytes of a loaded image.
/// Fails exactly when the bytes do not make whole pixels.
pub fn from_rgba_bytes(bytes: &[u8]) -> (r: Result<Vec<Bgra8>, PixelBufferError>)
    ensures
        bytes@.len() % 4 != 0 <==> r is Err,
        r is Ok ==> r->Ok_0@ == bgra_from_rgba_bytes(bytes@),
{
    if bytes.len() % 4 != 0 {
        return Err(PixelBufferError::InvalidSize);
    }
    let len = bytes.len();
    let n = len / 4;
    let mut out: Vec<Bgra8> = Vec::new();
    let mut i: usize = 0;
    while i < n
        invariant
            len == bytes@.len(),
            n == len / 4,
            i <= n,
            out@ =~= bgra_from_rgba_bytes(bytes@).take(i as int),
        decreases n - i,
    {
        proof {
            lemma_chunk_in_bounds(i as int, bytes@.len() as int);
        }
        let k = 4 * i;
        out.push(Bgra8::new(bytes[k + 2], bytes[k + 1], bytes[k], bytes[k + 3]));
        i = i + 1;
    }
    Ok(out)
}

} // verus!
