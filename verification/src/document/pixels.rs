//! Colours, palettes and pixel grids.

use vstd::prelude::*;

verus! {

/// The colour mode of a sprite.
#[derive(Debug, Clone, Copy, PartialEq, Eq, Structural)]
pub enum ColorMode {
    Rgb,
    Grayscale,
    Indexed,
}

/// The colour profile of a sprite.
#[derive(Debug, Clone, Copy, PartialEq, Eq, Structural, Default)]
pub enum ColorProfile {
    #[default]
    Srgb,
}

/// One colour with alpha.
#[derive(Debug, Clone, Copy, PartialEq, Eq, Structural, Default)]
pub struct Rgba {
    pub r: u8,
    pub g: u8,
    pub b: u8,
    pub a: u8,
}

/// The fully transparent black.
pub open spec fn transparent_color() -> Rgba {
    Rgba { r: 0, g: 0, b: 0, a: 0 }
}

/// Opaque white.
pub open spec fn white_color() -> Rgba {
    Rgba { r: 255, g: 255, b: 255, a: 255 }
}

impl Rgba {
    /// The fully transparent black.
    pub fn transparent() -> (c: Rgba)
        ensures
            c == transparent_color(),
    {
        Rgba { r: 0, g: 0, b: 0, a: 0 }
    }

    /// Opaque white.
    pub fn white() -> (c: Rgba)
        ensures
            c == white_color(),
    {
        Rgba { r: 255, g: 255, b: 255, a: 255 }
    }
}

/// The colour table of a sprite: up to 256 entries for indexed sprites.
#[derive(Debug, PartialEq, Eq)]
pub struct Palette {
    pub colors: Vec<Rgba>,
}

impl View for Palette {
    type V = Seq<Rgba>;

    open spec fn view(&self) -> Seq<Rgba> {
        self.colors@
    }
}

/// The colours of the default indexed palette: index 1 is white, all others transparent.
pub open spec fn default_indexed_colors() -> Seq<Rgba> {
    Seq::new(256, |i: int| if i == 1 { white_color() } else { transparent_color() })
}

impl Default for Palette {
    fn default() -> (p: Palette)
        ensures
            p@ == default_indexed_colors(),
    {
        Palette::indexed_default()
    }
}

impl Palette {
    pub const MAX_COLORS: usize = 256;

    /// 256 entries: index 1 white, every other entry transparent.
    pub fn indexed_default() -> (p: Palette)
        ensures
            p@ == default_indexed_colors(),
    {
        let mut colors: Vec<Rgba> = Vec::new();
        let mut i: usize = 0;
        while i < Self::MAX_COLORS
            invariant
                i <= 256,
                colors@ == default_indexed_colors().take(i as int),
            decreases 256 - i,
        {
            if i == 1 {
                colors.push(Rgba::white());
            } else {
                colors.push(Rgba::transparent());
            }
            i = i + 1;
        }
        Palette { colors }
    }

    pub fn len(&self) -> (n: usize)
        ensures
            n == self@.len(),
    {
        self.colors.len()
    }

    /// The colour at `index`, if the palette has that many entries.
    pub fn get(&self, index: u8) -> (c: Option<Rgba>)
        ensures
            c == (if (index as int) < self@.len() { Some(self@[index as int]) } else { None::<Rgba> }),
    {
        let i = index as usize;
        if i < self.colors.len() {
            Some(self.colors[i])
        } else {
            None
        }
    }
}

/// The pixels of one image, in one of the three colour modes.
#[derive(Debug, PartialEq, Eq)]
pub enum PixelGrid {
    Indexed { width: u32, height: u32, indices: Vec<u8> },
    Grayscale { width: u32, height: u32, values: Vec<u8> },
    Rgb { width: u32, height: u32, rgba: Vec<u8> },
}

/// What a pixel grid holds, as mathematical values.
#[verifier::ext_equal]
pub enum PixelGridView {
    Indexed { width: u32, height: u32, indices: Seq<u8> },
    Grayscale { width: u32, height: u32, values: Seq<u8> },
    Rgb { width: u32, height: u32, rgba: Seq<u8> },
}

impl View for PixelGrid {
    type V = PixelGridView;

    open spec fn view(&self) -> PixelGridView {
        match self {
            PixelGrid::Indexed { width, height, indices } => PixelGridView::Indexed {
                width: *width,
                height: *height,
                indices: indices@,
            },
            PixelGrid::Grayscale { width, height, values } => PixelGridView::Grayscale {
                width: *width,
                height: *height,
                values: values@,
            },
            PixelGrid::Rgb { width, height, rgba } => PixelGridView::Rgb {
                width: *width,
                height: *height,
                rgba: rgba@,
            },
        }
    }
}

/// `width * height` in `usize`, saturating at `usize::MAX`.
pub open spec fn pixel_count(width: u32, height: u32) -> int {
    if width * height <= usize::MAX {
        width * height
    } else {
        usize::MAX as int
    }
}

/// The number of bytes an empty grid of this size and mode holds.
pub open spec fn grid_byte_len(width: u32, height: u32, mode: ColorMode) -> int {
    match mode {
        ColorMode::Rgb => pixel_count(width, height) * 4,
        _ => pixel_count(width, height),
    }
}

/// An empty grid of this size and mode fits in memory's index range
/// (an RGB grid takes four bytes a pixel).
pub open spec fn grid_fits(width: u32, height: u32, mode: ColorMode) -> bool {
    grid_byte_len(width, height, mode) <= usize::MAX
}

/// The all-zero grid of this size and mode.
pub open spec fn empty_grid(width: u32, height: u32, mode: ColorMode) -> PixelGridView {
    let n = pixel_count(width, height);
    match mode {
        ColorMode::Indexed => PixelGridView::Indexed {
            width,
            height,
            indices: Seq::new(n as nat, |i: int| 0u8),
        },
        ColorMode::Grayscale => PixelGridView::Grayscale {
            width,
            height,
            values: Seq::new(n as nat, |i: int| 0u8),
        },
        ColorMode::Rgb => PixelGridView::Rgb {
            width,
            height,
            rgba: Seq::new((n * 4) as nat, |i: int| 0u8),
        },
    }
}

impl PixelGridView {
    pub open spec fn width(self) -> u32 {
        match self {
            PixelGridView::Indexed { width, .. } => width,
            PixelGridView::Grayscale { width, .. } => width,
            PixelGridView::Rgb { width, .. } => width,
        }
    }

    pub open spec fn height(self) -> u32 {
        match self {
            PixelGridView::Indexed { height, .. } => height,
            PixelGridView::Grayscale { height, .. } => height,
            PixelGridView::Rgb { height, .. } => height,
        }
    }

    pub open spec fn mode(self) -> ColorMode {
        match self {
            PixelGridView::Indexed { .. } => ColorMode::Indexed,
            PixelGridView::Grayscale { .. } => ColorMode::Grayscale,
            PixelGridView::Rgb { .. } => ColorMode::Rgb,
        }
    }
}

/// `width * height`, saturating at `usize::MAX`.
fn saturating_pixel_count(width: u32, height: u32) -> (n: usize)
    ensures
        n == pixel_count(width, height),
{
    match (width as usize).checked_mul(height as usize) {
        Some(n) => n,
        None => usize::MAX,
    }
}

/// A vector of `n` zero bytes.
pub(crate) fn zeros(n: usize) -> (v: Vec<u8>)
    ensures
        v@ == Seq::new(n as nat, |i: int| 0u8),
{
    let mut v: Vec<u8> = Vec::new();
    let mut i: usize = 0;
    while i < n
        invariant
            i <= n,
            v@ == Seq::new(i as nat, |k: int| 0u8),
        decreases n - i,
    {
        v.push(0);
        i = i + 1;
    }
    v
}

impl PixelGrid {
    /// A grid of the given size and mode with every byte zero.
    pub fn new_empty(width: u32, height: u32, mode: ColorMode) -> (g: PixelGrid)
        requires
            grid_fits(width, height, mode),
        ensures
            g@ == empty_grid(width, height, mode),
    {
        let count = saturating_pixel_count(width, height);
        match mode {
            ColorMode::Indexed => PixelGrid::Indexed { width, height, indices: zeros(count) },
            ColorMode::Grayscale => PixelGrid::Grayscale { width, height, values: zeros(count) },
            ColorMode::Rgb => PixelGrid::Rgb { width, height, rgba: zeros(count * 4) },
        }
    }

    pub fn width(&self) -> (w: u32)
        ensures
            w == self@.width(),
    {
        match self {
            PixelGrid::Indexed { width, .. } => *width,
            PixelGrid::Grayscale { width, .. } => *width,
            PixelGrid::Rgb { width, .. } => *width,
        }
    }

    pub fn height(&self) -> (h: u32)
        ensures
            h == self@.height(),
    {
        match self {
            PixelGrid::Indexed { height, .. } => *height,
            PixelGrid::Grayscale { height, .. } => *height,
            PixelGrid::Rgb { height, .. } => *height,
        }
    }

    pub fn mode(&self) -> (m: ColorMode)
        ensures
            m == self@.mode(),
    {
        match self {
            PixelGrid::Indexed { .. } => ColorMode::Indexed,
            PixelGrid::Grayscale { .. } => ColorMode::Grayscale,
            PixelGrid::Rgb { .. } => ColorMode::Rgb,
        }
    }

    /// The palette indices of an indexed grid.
    pub fn indexed_indices(&self) -> (r: Option<&[u8]>)
        ensures
            match self@ {
                PixelGridView::Indexed { indices, .. } => r is Some && r.unwrap()@ == indices,
                _ => r is None,
            },
    {
        match self {
            PixelGrid::Indexed { indices, .. } => Some(indices.as_slice()),
            _ => None,
        }
    }

    /// A copy of this grid.
    pub fn duplicate(&self) -> (g: PixelGrid)
        ensures
            g@ == self@,
    {
        match self {
            PixelGrid::Indexed { width, height, indices } => PixelGrid::Indexed {
                width: *width,
                height: *height,
                indices: copy_bytes(indices),
            },
            PixelGrid::Grayscale { width, height, values } => PixelGrid::Grayscale {
                width: *width,
                height: *height,
                values: copy_bytes(values),
            },
            PixelGrid::Rgb { width, height, rgba } => PixelGrid::Rgb {
                width: *width,
                height: *height,
                rgba: copy_bytes(rgba),
            },
        }
    }
}

/// A copy of a byte vector.
pub(crate) fn copy_bytes(v: &Vec<u8>) -> (r: Vec<u8>)
    ensures
        r@ == v@,
{
    let mut r: Vec<u8> = Vec::new();
    let mut i: usize = 0;
    while i < v.len()
        invariant
            i <= v.len(),
            r@ == v@.take(i as int),
        decreases v.len() - i,
    {
        r.push(v[i]);
        i = i + 1;
    }
    r
}

} // verus!
