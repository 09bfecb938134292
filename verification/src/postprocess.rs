//! CPU post-process pipeline for AI output and fast quantize (offline path):
//! nearest-neighbour downscale, palette quantize, optional despeckle.

use vstd::prelude::*;

use crate::document::pixels::Rgba;

verus! {

/// How an outline is drawn around the processed sprite.
#[derive(Debug, Clone, Copy, PartialEq, Eq, Structural, Default)]
pub enum OutlineMode {
    #[default]
    NoOutline,
    Black1px,
    ProjectStyle,
}

/// The settings of the post-process pipeline.
#[derive(Debug, Clone, Copy, PartialEq, Eq, Structural)]
pub struct PostProcessOptions {
    pub target_width: u32,
    pub target_height: u32,
    pub max_colors: u8,
    pub dither: bool,
    pub despeckle: bool,
    pub outline: OutlineMode,
}

/// The colour of pixel `i` of an RGBA buffer, four bytes a pixel.
pub open spec fn pixel_at(rgba: Seq<u8>, i: int) -> Rgba {
    Rgba { r: rgba[4 * i], g: rgba[4 * i + 1], b: rgba[4 * i + 2], a: rgba[4 * i + 3] }
}

/// The source pixel that target pixel `k` (row-major, `tw` wide) samples:
/// column `x * width / tw` of row `y * height / th`.
pub open spec fn sample_index(width: u32, height: u32, tw: u32, th: u32, k: int) -> int {
    (((k / tw as int) * height as int) / th as int) * width as int + ((k % tw as int) * width as int) / tw as int
}

/// The nearest-neighbour downscale of a `width` x `height` image to `tw` x `th`.
pub open spec fn downscaled(rgba: Seq<u8>, width: u32, height: u32, tw: u32, th: u32) -> Seq<Rgba> {
    Seq::new((tw * th) as nat, |k: int| pixel_at(rgba, sample_index(width, height, tw, th, k)))
}

/// The palette of the first `n` pixels: each colour not seen before, in scan
/// order, until `limit` colours are taken.
pub open spec fn palette_scan(s: Seq<Rgba>, n: nat, limit: nat) -> Seq<Rgba>
    decreases n,
{
    if n == 0 {
        Seq::empty()
    } else {
        let p = palette_scan(s, (n - 1) as nat, limit);
        if p.len() < limit && !p.contains(s[n - 1]) {
            p.push(s[n - 1])
        } else {
            p
        }
    }
}

/// The squared distance of two colours, alpha included.
pub open spec fn color_distance(a: Rgba, b: Rgba) -> int {
    (a.r - b.r) * (a.r - b.r) + (a.g - b.g) * (a.g - b.g) + (a.b - b.b) * (a.b - b.b) + (a.a - b.a) * (a.a - b.a)
}

/// The index of the colour among the first `n` of `p` nearest to `c`, the
/// first one on ties.
pub open spec fn nearest_index(p: Seq<Rgba>, c: Rgba, n: nat) -> int
    decreases n,
{
    if n <= 1 {
        0
    } else {
        let j = nearest_index(p, c, (n - 1) as nat);
        if color_distance(p[n - 1], c) < color_distance(p[j], c) {
            n - 1
        } else {
            j
        }
    }
}

/// The number of colours the palette may hold: `max_colors`, at least one.
pub open spec fn color_limit(max_colors: u8) -> nat {
    if max_colors == 0 {
        1
    } else {
        max_colors as nat
    }
}

/// Each pixel replaced by the nearest colour of the image's palette.
pub open spec fn quantized(s: Seq<Rgba>, limit: nat) -> Seq<Rgba> {
    let p = palette_scan(s, s.len(), limit);
    Seq::new(s.len(), |k: int| p[nearest_index(p, s[k], p.len())])
}

/// Pixel `k` of a `tw` x `th` image is a speckle: it lies inside the border
/// and its four neighbours share one colour that differs from its own.
pub open spec fn speckle(q: Seq<Rgba>, tw: int, th: int, k: int) -> bool {
    let x = k % tw;
    let y = k / tw;
    &&& 0 < x < tw - 1
    &&& 0 < y < th - 1
    &&& q[k - 1] == q[k + 1]
    &&& q[k - 1] == q[k - tw]
    &&& q[k - 1] == q[k + tw]
    &&& q[k - 1] != q[k]
}

/// Each speckle takes the colour of its neighbours.
pub open spec fn despeckled(q: Seq<Rgba>, tw: int, th: int) -> Seq<Rgba> {
    Seq::new(q.len(), |k: int| if speckle(q, tw, th, k) { q[k - 1] } else { q[k] })
}

/// The pipeline has work to do: both sizes are positive and the buffer holds
/// `width * height` pixels.
pub open spec fn processable(rgba: Seq<u8>, width: u32, height: u32, opts: PostProcessOptions) -> bool {
    &&& width > 0
    &&& height > 0
    &&& opts.target_width > 0
    &&& opts.target_height > 0
    &&& width * height * 4 <= rgba.len()
}

/// The palette of the downscaled image.
pub open spec fn processed_palette(rgba: Seq<u8>, width: u32, height: u32, opts: PostProcessOptions) -> Seq<Rgba> {
    let s = downscaled(rgba, width, height, opts.target_width, opts.target_height);
    palette_scan(s, s.len(), color_limit(opts.max_colors))
}

/// The pixels of the result: downscaled, quantized, then despeckled when asked.
pub open spec fn processed(rgba: Seq<u8>, width: u32, height: u32, opts: PostProcessOptions) -> Seq<Rgba> {
    let q = quantized(
        downscaled(rgba, width, height, opts.target_width, opts.target_height),
        color_limit(opts.max_colors),
    );
    if opts.despeckle {
        despeckled(q, opts.target_width as int, opts.target_height as int)
    } else {
        q
    }
}

/// Channel `j` of a colour: red, green, blue, alpha.
pub open spec fn channel(c: Rgba, j: int) -> u8 {
    if j == 0 {
        c.r
    } else if j == 1 {
        c.g
    } else if j == 2 {
        c.b
    } else {
        c.a
    }
}

/// The RGBA bytes of a row-major image.
pub open spec fn rgba_bytes(s: Seq<Rgba>) -> Seq<u8> {
    Seq::new(4 * s.len(), |i: int| channel(s[i / 4], i % 4))
}

/// Where target pixel `k` samples lies inside the source image.
proof fn lemma_sample_in_range(width: u32, height: u32, tw: u32, th: u32, k: int)
    requires
        width > 0,
        height > 0,
        tw > 0,
        th > 0,
        0 <= k < tw * th,
    ensures
        0 <= k % (tw as int) < tw,
        0 <= k / (tw as int) < th,
        0 <= ((k % (tw as int)) * width) / (tw as int) < width,
        0 <= ((k / (tw as int)) * height) / (th as int) < height,
        0 <= sample_index(width, height, tw, th, k) < width * height,
{
    let t = tw as int;
    let x = k % t;
    let y = k / t;
    assert(0 <= x < t && 0 <= y < th) by (nonlinear_arith)
        requires
            t > 0,
            0 <= k < t * th,
            x == k % t,
            y == k / t,
    ;
    let sx = (x * width) / t;
    let sy = (y * height) / (th as int);
    assert(0 <= sx < width) by (nonlinear_arith)
        requires
            t > 0,
            0 <= x < t,
            width > 0,
            sx == (x * width) / t,
    ;
    assert(0 <= sy < height) by (nonlinear_arith)
        requires
            th > 0,
            0 <= y < th,
            height > 0,
            sy == (y * height) / (th as int),
    ;
    assert(0 <= sy * width + sx < width * height) by (nonlinear_arith)
        requires
            0 <= sy < height,
            0 <= sx < width,
    ;
}

/// The palette holds at most `limit` colours, none twice, and at least one
/// once a pixel has been scanned with room for one.
pub proof fn lemma_palette_scan(s: Seq<Rgba>, n: nat, limit: nat)
    requires
        n <= s.len(),
    ensures
        palette_scan(s, n, limit).len() <= limit,
        palette_scan(s, n, limit).no_duplicates(),
        n > 0 && limit > 0 ==> palette_scan(s, n, limit).len() > 0,
    decreases n,
{
    if n > 0 {
        lemma_palette_scan(s, (n - 1) as nat, limit);
    }
}

/// The nearest index lies among the first `n` colours.
proof fn lemma_nearest_index(p: Seq<Rgba>, c: Rgba, n: nat)
    ensures
        n > 0 ==> 0 <= nearest_index(p, c, n) < n,
    decreases n,
{
    if n > 1 {
        lemma_nearest_index(p, c, (n - 1) as nat);
    }
}

/// The processed image has the target size, and every pixel of it has a
/// colour of the palette, which holds at most `max_colors` colours (one when
/// `max_colors` is 0), none twice.
pub proof fn lemma_processed_colors(rgba: Seq<u8>, width: u32, height: u32, opts: PostProcessOptions)
    ensures
        processed(rgba, width, height, opts).len() == opts.target_width * opts.target_height,
        processed_palette(rgba, width, height, opts).len() <= color_limit(opts.max_colors),
        processed_palette(rgba, width, height, opts).no_duplicates(),
        forall|k: int|
            0 <= k < processed(rgba, width, height, opts).len() ==> processed_palette(
                rgba,
                width,
                height,
                opts,
            ).contains(#[trigger] processed(rgba, width, height, opts)[k]),
{
    let s = downscaled(rgba, width, height, opts.target_width, opts.target_height);
    let limit = color_limit(opts.max_colors);
    let p = palette_scan(s, s.len(), limit);
    lemma_palette_scan(s, s.len(), limit);
    let q = quantized(s, limit);
    assert forall|k: int| 0 <= k < q.len() implies p.contains(#[trigger] q[k]) by {
        lemma_nearest_index(p, s[k], p.len());
        assert(p[nearest_index(p, s[k], p.len())] == q[k]);
    }
    if opts.despeckle {
        let t = opts.target_width as int;
        let d = despeckled(q, t, opts.target_height as int);
        assert forall|k: int| 0 <= k < d.len() implies p.contains(#[trigger] d[k]) by {
            if speckle(q, t, opts.target_height as int, k) {
                assert(0 <= k - 1) by (nonlinear_arith)
                    requires
                        t > 0,
                        0 < k % t,
                        0 <= k,
                ;
                assert(q.contains(q[k - 1]));
                assert(p.contains(q[k - 1]));
            } else {
                assert(p.contains(q[k]));
            }
        }
    }
}

/// Whether `p` holds `c`.
fn palette_has(p: &Vec<Rgba>, c: Rgba) -> (r: bool)
    ensures
        r == p@.contains(c),
{
    let mut i: usize = 0;
    while i < p.len()
        invariant
            i <= p.len(),
            forall|j: int| 0 <= j < i ==> p@[j] != c,
        decreases p.len() - i,
    {
        if p[i] == c {
            return true;
        }
        i += 1;
    }
    false
}

/// The squared distance of two colours.
fn distance(a: Rgba, b: Rgba) -> (d: u32)
    ensures
        d == color_distance(a, b),
{
    let dr: i32 = a.r as i32 - b.r as i32;
    let dg: i32 = a.g as i32 - b.g as i32;
    let db: i32 = a.b as i32 - b.b as i32;
    let da: i32 = a.a as i32 - b.a as i32;
    assert(0 <= dr * dr <= 65025 && 0 <= dg * dg <= 65025 && 0 <= db * db <= 65025 && 0 <= da * da <= 65025)
        by (nonlinear_arith)
        requires
            -255 <= dr <= 255,
            -255 <= dg <= 255,
            -255 <= db <= 255,
            -255 <= da <= 255,
    ;
    (dr * dr + dg * dg + db * db + da * da) as u32
}

/// The index of the colour of `p` nearest to `c`, the first on ties.
fn nearest(p: &Vec<Rgba>, c: Rgba) -> (j: usize)
    requires
        p.len() > 0,
    ensures
        j == nearest_index(p@, c, p@.len()),
        j < p.len(),
{
    let mut best: usize = 0;
    let mut best_d: u32 = distance(p[0], c);
    let mut i: usize = 1;
    while i < p.len()
        invariant
            1 <= i <= p.len(),
            best == nearest_index(p@, c, i as nat),
            best < i,
            best_d == color_distance(p@[best as int], c),
        decreases p.len() - i,
    {
        let d = distance(p[i], c);
        if d < best_d {
            best = i;
            best_d = d;
        }
        i += 1;
    }
    best
}

/// The nearest-neighbour downscale of the image.
fn downscale(rgba: &[u8], width: u32, height: u32, tw: u32, th: u32) -> (s: Vec<Rgba>)
    requires
        width > 0,
        height > 0,
        tw > 0,
        th > 0,
        width * height * 4 <= rgba@.len(),
        tw * th * 4 <= usize::MAX,
    ensures
        s@ == downscaled(rgba@, width, height, tw, th),
{
    let n: usize = tw as usize * th as usize;
    let mut s: Vec<Rgba> = Vec::new();
    let mut k: usize = 0;
    while k < n
        invariant
            width > 0,
            height > 0,
            tw > 0,
            th > 0,
            width * height * 4 <= rgba@.len(),
            n == tw * th,
            k <= n,
            s@ =~= downscaled(rgba@, width, height, tw, th).take(k as int),
        decreases n - k,
    {
        proof {
            lemma_sample_in_range(width, height, tw, th, k as int);
        }
        let x = k % (tw as usize);
        let y = k / (tw as usize);
        assert((x as u64) * (width as u64) <= u64::MAX && (y as u64) * (height as u64) <= u64::MAX)
            by (nonlinear_arith)
            requires
                x < 0x1_0000_0000,
                y < 0x1_0000_0000,
                width < 0x1_0000_0000,
                height < 0x1_0000_0000,
        ;
        let sx = ((x as u64) * (width as u64) / (tw as u64)) as usize;
        let sy = ((y as u64) * (height as u64) / (th as u64)) as usize;
        proof {
            assert(sx as int == ((k as int % tw as int) * width) / tw as int);
            assert(sy as int == ((k as int / tw as int) * height) / th as int);
            assert(sy * width + sx == sample_index(width, height, tw, th, k as int));
            assert(sy * width + sx < width * height);
            assert(rgba@.len() == rgba.len());
            assert(4 * (sy * width + sx) + 3 < rgba@.len());
            assert(0 <= sy * width <= sy * width + sx);
        }
        let i = sy * (width as usize) + sx;
        let c = Rgba { r: rgba[4 * i], g: rgba[4 * i + 1], b: rgba[4 * i + 2], a: rgba[4 * i + 3] };
        s.push(c);
        k += 1;
    }
    s
}

/// The palette of the image: its colours in scan order, at most `limit` of them.
fn scan_palette(s: &Vec<Rgba>, limit: usize) -> (p: Vec<Rgba>)
    ensures
        p@ == palette_scan(s@, s@.len(), limit as nat),
{
    let mut p: Vec<Rgba> = Vec::new();
    let mut i: usize = 0;
    while i < s.len()
        invariant
            i <= s.len(),
            p@ == palette_scan(s@, i as nat, limit as nat),
        decreases s.len() - i,
    {
        let c = s[i];
        if p.len() < limit && !palette_has(&p, c) {
            p.push(c);
        }
        i += 1;
    }
    p
}

/// Each pixel replaced by the nearest colour of its palette.
fn quantize(s: &Vec<Rgba>, limit: usize) -> (q: Vec<Rgba>)
    requires
        limit > 0,
    ensures
        q@ == quantized(s@, limit as nat),
{
    let p = scan_palette(s, limit);
    proof {
        lemma_palette_scan(s@, s@.len(), limit as nat);
    }
    let mut q: Vec<Rgba> = Vec::new();
    let mut k: usize = 0;
    while k < s.len()
        invariant
            k <= s.len(),
            limit > 0,
            p@ == palette_scan(s@, s@.len(), limit as nat),
            s@.len() > 0 ==> p@.len() > 0,
            q@ =~= quantized(s@, limit as nat).take(k as int),
        decreases s.len() - k,
    {
        let j = nearest(&p, s[k]);
        q.push(p[j]);
        k += 1;
    }
    q
}

/// Each speckle of a `tw` x `th` image given the colour of its neighbours.
fn despeckle(q: &Vec<Rgba>, tw: usize, th: usize) -> (d: Vec<Rgba>)
    requires
        tw > 0,
        q@.len() == tw * th,
    ensures
        d@ == despeckled(q@, tw as int, th as int),
{
    let mut d: Vec<Rgba> = Vec::new();
    let mut k: usize = 0;
    while k < q.len()
        invariant
            tw > 0,
            q@.len() == tw * th,
            k <= q.len(),
            d@ =~= despeckled(q@, tw as int, th as int).take(k as int),
        decreases q.len() - k,
    {
        let x = k % tw;
        let y = k / tw;
        let mut c = q[k];
        if 0 < x && x + 1 < tw && 0 < y && y + 1 < th {
            assert(tw <= k && k + tw < q@.len()) by (nonlinear_arith)
                requires
                    tw > 0,
                    x == k % tw,
                    y == k / tw,
                    0 < y,
                    y + 1 < th,
                    q@.len() == tw * th,
            ;
            let left = q[k - 1];
            if left == q[k + 1] && left == q[k - tw] && left == q[k + tw] && left != q[k] {
                c = left;
            }
        }
        d.push(c);
        k += 1;
    }
    d
}

/// The RGBA bytes of an image.
fn to_bytes(s: &Vec<Rgba>) -> (out: Vec<u8>)
    requires
        4 * s@.len() <= usize::MAX,
    ensures
        out@ == rgba_bytes(s@),
{
    let mut out: Vec<u8> = Vec::new();
    let mut k: usize = 0;
    while k < s.len()
        invariant
            k <= s.len(),
            4 * s@.len() <= usize::MAX,
            out@ =~= rgba_bytes(s@.take(k as int)),
        decreases s.len() - k,
    {
        let c = s[k];
        proof {
            assert(rgba_bytes(s@.take(k as int + 1)) =~= rgba_bytes(s@.take(k as int)).push(c.r).push(c.g).push(
                c.b,
            ).push(c.a));
        }
        out.push(c.r);
        out.push(c.g);
        out.push(c.b);
        out.push(c.a);
        k += 1;
    }
    proof {
        assert(s@.take(s@.len() as int) =~= s@);
    }
    out
}

/// Nearest-neighbour downscale to `target_width` x `target_height`, then
/// palette quantize to at most `max_colors` colours (the first distinct
/// colours in scan order; every pixel takes the nearest of them), then, when
/// `despeckle` is set, each pixel whose four neighbours share another colour
/// takes that colour. The result is RGBA, four bytes a pixel. An input with
/// a zero size or fewer than `width * height` pixels gives no bytes.
/// `dither` and `outline` are not applied.
pub fn process_rgba(rgba: &[u8], width: u32, height: u32, opts: &PostProcessOptions) -> (out: Vec<u8>)
    requires
        opts.target_width * opts.target_height * 4 <= usize::MAX,
    ensures
        processable(rgba@, width, height, *opts) ==> out@ == rgba_bytes(processed(rgba@, width, height, *opts)),
        processable(rgba@, width, height, *opts) ==> out@.len() == opts.target_width * opts.target_height * 4,
        !processable(rgba@, width, height, *opts) ==> out@.len() == 0,
{
    let tw = opts.target_width;
    let th = opts.target_height;
    if width == 0 || height == 0 || tw == 0 || th == 0 {
        return Vec::new();
    }
    assert((width as u64) * (height as u64) <= u64::MAX) by (nonlinear_arith)
        requires
            width < 0x1_0000_0000,
            height < 0x1_0000_0000,
    ;
    let pixels: u64 = width as u64 * height as u64;
    if pixels > (rgba.len() / 4) as u64 {
        return Vec::new();
    }
    let down = downscale(rgba, width, height, tw, th);
    let limit: usize = if opts.max_colors == 0 {
        1
    } else {
        opts.max_colors as usize
    };
    let q = quantize(&down, limit);
    let fin = if opts.despeckle {
        despeckle(&q, tw as usize, th as usize)
    } else {
        q
    };
    proof {
        lemma_processed_colors(rgba@, width, height, *opts);
    }
    to_bytes(&fin)
}

} // verus!
