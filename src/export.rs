//! Preparing the pixels of a view for export as an indexed-palette
//! animation: the palette, the indexed pixels, the frames and the delay.
use vstd::prelude::*;

use crate::color::{bgra_to_rgba, rgba_to_bgra, transparent_rgba, Bgra8, Rgba8};
use crate::history::{extent_len, ViewExtent};

verus! {

/// The order of colors: by red, then green, then blue, then alpha.
pub open spec fn color_lt(a: Rgba8, b: Rgba8) -> bool {
    a.r < b.r || (a.r == b.r && (a.g < b.g || (a.g == b.g && (a.b < b.b || (a.b == b.b
        && a.a < b.a)))))
}

pub open spec fn strictly_sorted(p: Seq<Rgba8>) -> bool {
    forall|i: int, j: int| 0 <= i < j < p.len() ==> color_lt(#[trigger] p[i], #[trigger] p[j])
}

/// The colors an exported buffer needs: those of its pixels, and transparent.
pub open spec fn export_colors(pixels: Seq<Bgra8>) -> Set<Rgba8> {
    pixels.map_values(|c: Bgra8| bgra_to_rgba(c)).to_set().insert(transparent_rgba())
}

/// A palette for the buffer: each color it needs, once, in color order.
pub open spec fn is_export_palette(p: Seq<Rgba8>, pixels: Seq<Bgra8>) -> bool {
    strictly_sorted(p) && p.to_set() == export_colors(pixels)
}

/// The palette index for a color: its position, or the transparent index
/// zero when the palette lacks it.
pub open spec fn palette_index(p: Seq<Rgba8>, c: Rgba8) -> int {
    if p.contains(c) {
        choose|i: int| 0 <= i < p.len() && p[i] == c
    } else {
        0
    }
}

/// The indexed form of a buffer.
pub open spec fn indexed_pixels(p: Seq<Rgba8>, pixels: Seq<Bgra8>) -> Seq<u8> {
    Seq::new(pixels.len(), |i: int| palette_index(p, bgra_to_rgba(pixels[i])) as u8)
}

fn color_less(a: Rgba8, b: Rgba8) -> (r: bool)
    ensures
        r == color_lt(a, b),
{
    a.r < b.r || (a.r == b.r && (a.g < b.g || (a.g == b.g && (a.b < b.b || (a.b == b.b && a.a
        < b.a)))))
}

/// Binary search in a sorted palette: the position of the color, or the
/// position where it would be inserted.
pub fn find_color(p: &[Rgba8], c: Rgba8) -> (r: Result<usize, usize>)
    requires
        strictly_sorted(p@),
    ensures
        match r {
            Ok(i) => i < p@.len() && p@[i as int] == c,
            Err(i) => {
                &&& i <= p@.len()
                &&& forall|j: int| 0 <= j < i ==> color_lt(#[trigger] p@[j], c)
                &&& forall|j: int| i <= j < p@.len() ==> color_lt(c, #[trigger] p@[j])
            },
        },
{
    let mut lo: usize = 0;
    let mut hi: usize = p.len();
    while lo < hi
        invariant
            strictly_sorted(p@),
            lo <= hi <= p@.len(),
            forall|j: int| 0 <= j < lo ==> color_lt(#[trigger] p@[j], c),
            forall|j: int| hi <= j < p@.len() ==> color_lt(c, #[trigger] p@[j]),
        decreases hi - lo,
    {
        let mid = lo + (hi - lo) / 2;
        let m = p[mid];
        if color_less(m, c) {
            lo = mid + 1;
        } else if color_less(c, m) {
            hi = mid;
        } else {
            return Ok(mid);
        }
    }
    Err(lo)
}

proof fn lemma_sorted_unique(p: Seq<Rgba8>, i: int, c: Rgba8)
    requires
        strictly_sorted(p),
        0 <= i < p.len(),
        p[i] == c,
    ensures
        palette_index(p, c) == i,
{
    assert(p.contains(c));
    let k = choose|k: int| 0 <= k < p.len() && p[k] == c;
    if k < i {
        assert(color_lt(p[k], p[i]));
    } else if i < k {
        assert(color_lt(p[i], p[k]));
    }
}

/// The palette index of each pixel; a color the palette lacks maps to the
/// transparent index zero.
pub fn index_pixels(palette: &[Rgba8], pixels: &[Bgra8]) -> (r: Vec<u8>)
    requires
        strictly_sorted(palette@),
        palette@.len() <= 256,
    ensures
        r@ == indexed_pixels(palette@, pixels@),
{
    let mut out: Vec<u8> = Vec::new();
    let n = pixels.len();
    let mut i: usize = 0;
    while i < n
        invariant
            strictly_sorted(palette@),
            palette@.len() <= 256,
            n == pixels@.len(),
            i <= n,
            out@ =~= indexed_pixels(palette@, pixels@).take(i as int),
        decreases n - i,
    {
        let c = pixels[i].to_rgba();
        match find_color(palette, c) {
            Ok(k) => {
                proof {
                    lemma_sorted_unique(palette@, k as int, c);
                }
                out.push(k as u8);
            },
            Err(_) => {
                proof {
                    if palette@.contains(c) {
                        let k = choose|k: int| 0 <= k < palette@.len() && palette@[k] == c;
                        assert(color_lt(c, palette@[k]) || color_lt(palette@[k], c));
                    }
                }
                out.push(0);
            },
        }
        i = i + 1;
    }
    out
}

proof fn lemma_sorted_no_duplicates(p: Seq<Rgba8>)
    requires
        strictly_sorted(p),
    ensures
        p.no_duplicates(),
        p.to_set().len() == p.len(),
{
    assert forall|i: int, j: int| 0 <= i < p.len() && 0 <= j < p.len() && i != j implies p[i]
        != p[j] by {
        if i < j {
            assert(color_lt(p[i], p[j]));
        } else {
            assert(color_lt(p[j], p[i]));
        }
    }
    p.unique_seq_to_set();
}

proof fn lemma_export_colors_step(pixels: Seq<Bgra8>, i: int)
    requires
        0 <= i < pixels.len(),
    ensures
        export_colors(pixels.take(i + 1)) == export_colors(pixels.take(i)).insert(
            bgra_to_rgba(pixels[i]),
        ),
{
    let f = |c: Bgra8| bgra_to_rgba(c);
    assert(pixels.take(i + 1).map_values(f) =~= pixels.take(i).map_values(f).push(f(pixels[i])));
    pixels.take(i).map_values(f).lemma_push_to_set_commute(f(pixels[i]));
    assert(export_colors(pixels.take(i + 1)) =~= export_colors(pixels.take(i)).insert(
        bgra_to_rgba(pixels[i]),
    ));
}

proof fn lemma_export_colors_prefix(pixels: Seq<Bgra8>, i: int)
    requires
        0 <= i <= pixels.len(),
    ensures
        export_colors(pixels.take(i)).subset_of(export_colors(pixels)),
        export_colors(pixels).finite(),
{
    let f = |c: Bgra8| bgra_to_rgba(c);
    assert forall|c: Rgba8| #[trigger] export_colors(pixels.take(i)).contains(c) implies export_colors(
        pixels,
    ).contains(c) by {
        if c != transparent_rgba() {
            assert(pixels.take(i).map_values(f).contains(c));
            let k = choose|k: int| 0 <= k < i && pixels.take(i).map_values(f)[k] == c;
            assert(pixels.map_values(f)[k] == c);
        }
    }
    vstd::seq_lib::seq_to_set_is_finite(pixels.map_values(f));
}

/// A sorted palette for the buffer: every color of its pixels once, and
/// transparent at index zero. `None` when that takes more than 256 colors.
pub fn build_palette(pixels: &[Bgra8]) -> (r: Option<Vec<Rgba8>>)
    ensures
        r is Some <==> export_colors(pixels@).len() <= 256,
        r is Some ==> is_export_palette(r->0@, pixels@),
        r is Some ==> r->0@.len() == export_colors(pixels@).len(),
        r is Some ==> r->0@[0] == transparent_rgba(),
{
    let mut p: Vec<Rgba8> = Vec::new();
    p.push(Rgba8::transparent());
    proof {
        assert(pixels@.take(0).map_values(|c: Bgra8| bgra_to_rgba(c)) =~= Seq::<Rgba8>::empty());
        assert forall|x: Rgba8| #[trigger] p@.to_set().contains(x) <==> x == transparent_rgba() by {
            if x == transparent_rgba() {
                assert(p@[0] == x);
            }
        }
        assert forall|x: Rgba8| #[trigger] export_colors(pixels@.take(0)).contains(x) <==> x
            == transparent_rgba() by {
            assert(!Seq::<Rgba8>::empty().contains(x));
        }
        assert(p@.to_set() =~= export_colors(pixels@.take(0)));
    }
    let n = pixels.len();
    let mut i: usize = 0;
    while i < n
        invariant
            n == pixels@.len(),
            i <= n,
            strictly_sorted(p@),
            1 <= p@.len() <= 256,
            p@.to_set() == export_colors(pixels@.take(i as int)),
        decreases n - i,
    {
        let c = pixels[i].to_rgba();
        proof {
            lemma_export_colors_step(pixels@, i as int);
        }
        match find_color(p.as_slice(), c) {
            Ok(k) => {
                proof {
                    assert(p@.to_set().contains(c));
                    assert(p@.to_set().insert(c) =~= p@.to_set());
                }
            },
            Err(pos) => {
                if p.len() == 256 {
                    proof {
                        let q = p@.push(c);
                        assert(!p@.contains(c)) by {
                            if p@.contains(c) {
                                let k = choose|k: int| 0 <= k < p@.len() && p@[k] == c;
                                assert(color_lt(c, p@[k]) || color_lt(p@[k], c));
                            }
                        }
                        assert(strictly_sorted(p@));
                        lemma_sorted_no_duplicates(p@);
                        assert(q.no_duplicates()) by {
                            assert forall|a: int, b: int| 0 <= a < q.len() && 0 <= b < q.len() && a
                                != b implies q[a] != q[b] by {
                                if a < p@.len() && b < p@.len() {
                                } else if a < p@.len() {
                                    assert(p@.contains(q[a]));
                                } else {
                                    assert(p@.contains(q[b]));
                                }
                            }
                        }
                        q.unique_seq_to_set();
                        p@.lemma_push_to_set_commute(c);
                        lemma_export_colors_prefix(pixels@, i + 1);
                        vstd::set_lib::lemma_len_subset(q.to_set(), export_colors(pixels@));
                    }
                    return None;
                }
                let ghost old_p = p@;
                p.insert(pos, c);
                proof {
                    assert forall|a: int, b: int| 0 <= a < b < p@.len() implies color_lt(
                        #[trigger] p@[a],
                        #[trigger] p@[b],
                    ) by {
                        if b < pos {
                            assert(color_lt(old_p[a], old_p[b]));
                        } else if b == pos {
                            assert(color_lt(old_p[a], c));
                        } else if a < pos {
                            assert(color_lt(old_p[a], old_p[b - 1]));
                        } else if a == pos {
                            assert(color_lt(c, old_p[b - 1]));
                        } else {
                            assert(color_lt(old_p[a - 1], old_p[b - 1]));
                        }
                    }
                    assert forall|x: Rgba8| #[trigger] p@.to_set().contains(x) <==> old_p.to_set().insert(
                        c,
                    ).contains(x) by {
                        if p@.contains(x) {
                            let k = choose|k: int| 0 <= k < p@.len() && p@[k] == x;
                            if k < pos {
                                assert(old_p[k] == x);
                            } else if k > pos {
                                assert(old_p[k - 1] == x);
                            }
                        }
                        if old_p.contains(x) {
                            let k = choose|k: int| 0 <= k < old_p.len() && old_p[k] == x;
                            if k < pos {
                                assert(p@[k] == x);
                            } else {
                                assert(p@[k + 1] == x);
                            }
                        }
                        if x == c {
                            assert(p@[pos as int] == x);
                        }
                    }
                    assert(p@.to_set() =~= old_p.to_set().insert(c));
                }
            },
        }
        i = i + 1;
    }
    proof {
        assert(pixels@.take(n as int) =~= pixels@);
        lemma_sorted_no_duplicates(p@);
        assert(p@.to_set().contains(transparent_rgba()));
        let k = choose|k: int| 0 <= k < p@.len() && p@[k] == transparent_rgba();
        if k > 0 {
            assert(color_lt(p@[0], p@[k]));
        }
    }
    Some(p)
}

/// Exporting loses nothing when the buffer needs at most 256 colors: each
/// index is a palette position, and looking it up gives back the pixel, in
/// either channel order.
pub proof fn lemma_export_lossless(pixels: Seq<Bgra8>, palette: Seq<Rgba8>)
    requires
        is_export_palette(palette, pixels),
        export_colors(pixels).len() <= 256,
    ensures
        forall|i: int|
            0 <= i < pixels.len() ==> {
                let k = #[trigger] indexed_pixels(palette, pixels)[i];
                &&& k < palette.len()
                &&& palette[k as int] == bgra_to_rgba(pixels[i])
                &&& rgba_to_bgra(palette[k as int]) == pixels[i]
            },
{
    lemma_sorted_no_duplicates(palette);
    assert forall|i: int| 0 <= i < pixels.len() implies {
        let k = #[trigger] indexed_pixels(palette, pixels)[i];
        &&& k < palette.len()
        &&& palette[k as int] == bgra_to_rgba(pixels[i])
        &&& rgba_to_bgra(palette[k as int]) == pixels[i]
    } by {
        let f = |c: Bgra8| bgra_to_rgba(c);
        let c = bgra_to_rgba(pixels[i]);
        assert(pixels.map_values(f)[i] == c);
        assert(export_colors(pixels).contains(c));
        assert(palette.contains(c));
        let j = palette_index(palette, c);
        assert(0 <= j < palette.len() && palette[j] == c);
    }
}

/// Frame `k` of an animation strip held as rows of `nframes * fw` values:
/// from each of the first `rows` rows, the `fw` values of that frame.
pub open spec fn frame_spec(image: Seq<u8>, fw: nat, nframes: nat, k: nat, rows: nat) -> Seq<u8>
    decreases rows,
{
    if rows == 0 {
        Seq::empty()
    } else {
        let start = (rows - 1) * (fw * nframes) + k * fw;
        frame_spec(image, fw, nframes, k, (rows - 1) as nat) + image.subrange(start, start + fw)
    }
}

proof fn lemma_row_in_bounds(y: int, k: int, fw: int, fh: int, n: int)
    requires
        0 <= y < fh,
        0 <= k < n,
        0 <= fw,
    ensures
        0 <= y * (fw * n) + k * fw,
        y * (fw * n) + k * fw + fw <= fw * fh * n,
        fw * n <= fw * fh * n,
        0 <= y * (fw * n),
        0 <= k * fw,
{
    assert(fw * n <= fw * fh * n) by (nonlinear_arith)
        requires
            1 <= fh,
            0 <= fw,
            0 <= n,
    ;
    assert(0 <= y * (fw * n)) by (nonlinear_arith)
        requires
            0 <= y,
            0 <= fw,
            0 <= n,
    ;
    assert(0 <= k * fw) by (nonlinear_arith)
        requires
            0 <= k,
            0 <= fw,
    ;
    assert(0 <= y * (fw * n) + k * fw) by (nonlinear_arith)
        requires
            0 <= y,
            0 <= k,
            0 <= fw,
            0 <= n,
    ;
    assert(k * fw + fw <= n * fw) by (nonlinear_arith)
        requires
            k < n,
            0 <= fw,
    ;
    assert(y * (fw * n) + fw * n <= fh * (fw * n)) by (nonlinear_arith)
        requires
            y < fh,
            0 <= fw * n,
    ;
    assert(fh * (fw * n) == fw * fh * n) by (nonlinear_arith);
}

/// Cuts an animation strip into its frames, left to right: row by row, each
/// frame takes its `fw` values.
pub fn split_frames(image: &[u8], fw: usize, fh: usize, nframes: usize) -> (r: Vec<Vec<u8>>)
    requires
        image@.len() == fw * fh * nframes,
    ensures
        r@.len() == nframes,
        forall|k: int|
            0 <= k < nframes ==> (#[trigger] r@[k])@ == frame_spec(
                image@,
                fw as nat,
                nframes as nat,
                k as nat,
                fh as nat,
            ),
{
    let len = image.len();
    let mut frames: Vec<Vec<u8>> = Vec::new();
    let mut k: usize = 0;
    while k < nframes
        invariant
            image@.len() == fw * fh * nframes,
            len == image@.len(),
            k <= nframes,
            frames@.len() == k,
            forall|j: int|
                0 <= j < k ==> (#[trigger] frames@[j])@ == frame_spec(
                    image@,
                    fw as nat,
                    nframes as nat,
                    j as nat,
                    fh as nat,
                ),
        decreases nframes - k,
    {
        let mut frame: Vec<u8> = Vec::new();
        let mut y: usize = 0;
        while y < fh
            invariant
                image@.len() == fw * fh * nframes,
                len == image@.len(),
            len == image@.len(),
                k < nframes,
                y <= fh,
                frame@ == frame_spec(image@, fw as nat, nframes as nat, k as nat, y as nat),
            decreases fh - y,
        {
            proof {
                lemma_row_in_bounds(y as int, k as int, fw as int, fh as int, nframes as int);
            }
            let start = y * (fw * nframes) + k * fw;
            let ghost before = frame@;
            let mut x: usize = 0;
            while x < fw
                invariant
                    image@.len() == fw * fh * nframes,
                    len == image@.len(),
                len == image@.len(),
            len == image@.len(),
                    start + fw <= image@.len(),
                    x <= fw,
                    frame@ == before + image@.subrange(start as int, start + x),
                decreases fw - x,
            {
                frame.push(image[start + x]);
                proof {
                    assert(image@.subrange(start as int, start + x + 1) =~= image@.subrange(
                        start as int,
                        start + x,
                    ).push(image@[start + x]));
                    assert(before + image@.subrange(start as int, start + x + 1) =~= (before
                        + image@.subrange(start as int, start + x)).push(image@[start + x]));
                }
                x = x + 1;
            }
            y = y + 1;
        }
        frames.push(frame);
        k = k + 1;
    }
    frames
}

/// The frame delay in hundredths of a second, as the animation format keeps
/// it: milliseconds over ten, at most `u16::MAX`.
pub open spec fn frame_delay_spec(ms: u128) -> u16 {
    if ms / 10 > u16::MAX {
        u16::MAX
    } else {
        (ms / 10) as u16
    }
}

pub fn frame_delay(ms: u128) -> (r: u16)
    ensures
        r == frame_delay_spec(ms),
{
    let d = ms / 10;
    if d > 65535 {
        65535
    } else {
        d as u16
    }
}

/// The palette as the animation format stores it: red, green and blue of
/// each color, alpha dropped.
pub open spec fn rgb_bytes(p: Seq<Rgba8>) -> Seq<u8> {
    Seq::new(
        3 * p.len(),
        |i: int|
            if i % 3 == 0 {
                p[i / 3].r
            } else if i % 3 == 1 {
                p[i / 3].g
            } else {
                p[i / 3].b
            },
    )
}

proof fn lemma_div_mod_3(i: int, k: int)
    requires
        0 <= i,
        0 <= k < 3,
    ensures
        (3 * i + k) / 3 == i,
        (3 * i + k) % 3 == k,
{
    assert((3 * i + k) / 3 == i) by (nonlinear_arith)
        requires
            0 <= i,
            0 <= k < 3,
    ;
    assert((3 * i + k) % 3 == k) by (nonlinear_arith)
        requires
            0 <= i,
            0 <= k < 3,
    ;
}

/// Why an animation could not be prepared.
#[derive(Clone, Copy, Debug, PartialEq, Eq, Structural)]
pub enum ExportError {
    /// A frame is wider or taller than the format allows.
    FrameTooLarge,
    /// The buffer needs more than 256 colors, transparent included.
    TooManyColors,
}

/// An animation ready for an indexed-palette encoder. Index zero of the
/// palette is transparent.
pub struct GifAnimation {
    pub width: u16,
    pub height: u16,
    /// The palette, sorted, transparent first.
    pub colors: Vec<Rgba8>,
    /// The palette indices of each frame, row by row.
    pub frames: Vec<Vec<u8>>,
    /// The frame delay in hundredths of a second.
    pub delay: u16,
}

impl GifAnimation {
    /// The palette index of the transparent color.
    pub fn transparent_index(&self) -> (r: u8)
        ensures
            r == 0,
    {
        0
    }

    /// The palette with alpha dropped, three bytes per color.
    pub fn palette_rgb(&self) -> (r: Vec<u8>)
        requires
            3 * self.colors@.len() <= usize::MAX,
        ensures
            r@ == rgb_bytes(self.colors@),
    {
        let mut out: Vec<u8> = Vec::new();
        let n = self.colors.len();
        let mut i: usize = 0;
        while i < n
            invariant
                n == self.colors@.len(),
                3 * n <= usize::MAX,
                i <= n,
                out@ =~= rgb_bytes(self.colors@).take(3 * i as int),
            decreases n - i,
        {
            let c = self.colors[i];
            out.push(c.r);
            out.push(c.g);
            out.push(c.b);
            proof {
                lemma_div_mod_3(i as int, 0);
                lemma_div_mod_3(i as int, 1);
                lemma_div_mod_3(i as int, 2);
                assert(out@ =~= rgb_bytes(self.colors@).take(3 * (i + 1) as int));
            }
            i = i + 1;
        }
        proof {
            assert(rgb_bytes(self.colors@).take(3 * n as int) =~= rgb_bytes(self.colors@));
        }
        out
    }
}

/// Prepares the pixels of a view, a strip of `extent.nframes` frames, for
/// export as a looping animation: a sorted palette of the colors it uses,
/// transparent at index zero, each frame as palette indices, and the delay
/// in hundredths of a second.
pub fn gif_animation(extent: ViewExtent, pixels: &[Bgra8], delay_ms: u128) -> (r: Result<
    GifAnimation,
    ExportError,
>)
    requires
        pixels@.len() == extent_len(extent),
    ensures
        r is Err && r->Err_0 == ExportError::FrameTooLarge <==> (extent.fw > u16::MAX || extent.fh
            > u16::MAX),
        r is Err && r->Err_0 == ExportError::TooManyColors <==> (extent.fw <= u16::MAX && extent.fh
            <= u16::MAX && export_colors(pixels@).len() > 256),
        r is Ok ==> ({
            let a = r->Ok_0;
            &&& a.width == extent.fw
            &&& a.height == extent.fh
            &&& a.delay == frame_delay_spec(delay_ms)
            &&& is_export_palette(a.colors@, pixels@)
            &&& a.colors@[0] == transparent_rgba()
            &&& a.frames@.len() == extent.nframes
            &&& forall|k: int|
                0 <= k < extent.nframes ==> (#[trigger] a.frames@[k])@ == frame_spec(
                    indexed_pixels(a.colors@, pixels@),
                    extent.fw as nat,
                    extent.nframes as nat,
                    k as nat,
                    extent.fh as nat,
                )
        }),
{
    if extent.fw > 65535 || extent.fh > 65535 {
        return Err(ExportError::FrameTooLarge);
    }
    let colors = match build_palette(pixels) {
        Some(p) => p,
        None => {
            return Err(ExportError::TooManyColors);
        },
    };
    let indexed = index_pixels(colors.as_slice(), pixels);
    let frames = split_frames(
        indexed.as_slice(),
        extent.fw as usize,
        extent.fh as usize,
        extent.nframes,
    );
    Ok(
        GifAnimation {
            width: extent.fw as u16,
            height: extent.fh as u16,
            colors,
            frames,
            delay: frame_delay(delay_ms),
        },
    )
}

} // verus!
