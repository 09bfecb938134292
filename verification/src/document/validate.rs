//! The rules a well-formed document keeps.

use vstd::prelude::*;

use super::cel::Cel;
use super::layer::LayerView;
use super::pixels::ColorMode;
use super::sprite::{DocView, SpriteDocument};
use crate::error::CoreError;
use crate::text::{decimal, push_decimal};

verus! {

/// The number of background layers among the first `n` layers.
pub open spec fn background_count(layers: Seq<LayerView>, n: nat) -> nat
    decreases n,
{
    if n == 0 || n > layers.len() {
        0
    } else {
        background_count(layers, (n - 1) as nat) + if layers[n - 1].is_background {
            1nat
        } else {
            0nat
        }
    }
}

/// The layer at index `i` names a parent that does not exist.
pub open spec fn bad_parent(d: DocView, i: int) -> bool {
    d.layers[i].parent matches Some(p) && p >= d.layers.len()
}

/// The tileset at index `i` has an empty tile.
pub open spec fn bad_tileset(d: DocView, i: int) -> bool {
    d.tilesets[i].tile_width == 0 || d.tilesets[i].tile_height == 0
}

/// What is wrong with a cel, if anything.
pub open spec fn cel_problem(d: DocView, c: Cel) -> Option<Seq<char>> {
    if c.layer >= d.layers.len() || c.frame >= d.frames.len() {
        Some("cel references invalid layer or frame"@)
    } else if c.image_id >= d.images.len() {
        Some("cel references invalid image"@)
    } else if !d.layers[c.layer as int].accepts_cels() {
        Some("layer '"@ + d.layers[c.layer as int].name + "' does not accept cels"@)
    } else {
        None
    }
}

/// What is wrong with the first faulty cel among the first `n`, if any.
pub open spec fn first_cel_problem(d: DocView, n: nat) -> Option<Seq<char>>
    decreases n,
{
    if n == 0 || n > d.cels.len() {
        None
    } else {
        match first_cel_problem(d, (n - 1) as nat) {
            Some(m) => Some(m),
            None => cel_problem(d, d.cels[n - 1]),
        }
    }
}

/// Once a faulty cel is found among the first `k`, it stays the first one found.
pub proof fn lemma_first_cel_problem_stays(d: DocView, k: nat, n: nat)
    requires
        k <= n <= d.cels.len(),
    ensures
        first_cel_problem(d, k) is Some ==> first_cel_problem(d, n) == first_cel_problem(d, k),
    decreases n,
{
    if k < n {
        lemma_first_cel_problem_stays(d, k, (n - 1) as nat);
    }
}

/// No cel among the first `n` has a problem exactly when the first-problem search finds none.
pub proof fn lemma_first_cel_problem_none(d: DocView, n: nat)
    requires
        n <= d.cels.len(),
    ensures
        first_cel_problem(d, n) is None <==> forall|j: int| 0 <= j < n ==> (#[trigger] cel_problem(d, d.cels[j])) is None,
    decreases n,
{
    if n > 0 {
        lemma_first_cel_problem_none(d, (n - 1) as nat);
        if first_cel_problem(d, n) is None {
            assert forall|j: int| 0 <= j < n implies (#[trigger] cel_problem(d, d.cels[j])) is None by {
                if j < n - 1 {
                    assert(first_cel_problem(d, (n - 1) as nat) is None);
                }
            }
        }
    }
}

/// The message of the first rule the document breaks, or `None` when it keeps them all:
/// a canvas of 1 to 65535 pixels each way, at least one frame and one layer,
/// exactly one background layer, at the bottom and fully opaque, at most 256
/// colours in an indexed palette, layer parents that exist, cels on existing
/// layers, frames and images and only on layers that hold cels, and tiles of
/// positive size.
pub open spec fn validation_error(d: DocView) -> Option<Seq<char>> {
    let bg = background_count(d.layers, d.layers.len());
    if d.width == 0 || d.height == 0 {
        Some("canvas dimensions must be > 0"@)
    } else if d.width > 0xffff || d.height > 0xffff {
        Some("canvas dimensions exceed ASE limit"@)
    } else if d.frames.len() == 0 {
        Some("sprite must have at least one frame"@)
    } else if d.layers.len() == 0 {
        Some("sprite must have at least one layer"@)
    } else if bg != 1 {
        Some("expected exactly one background layer, found "@ + decimal(bg))
    } else if !d.layers[0].is_background {
        Some("background layer must be at stack index 0"@)
    } else if d.layers[0].opacity != 255 {
        Some("background layer must be fully opaque"@)
    } else if d.color_mode == ColorMode::Indexed && d.palette.len() > 256 {
        Some("indexed palette exceeds 256 colors"@)
    } else if exists|i: int| 0 <= i < d.layers.len() && #[trigger] bad_parent(d, i) {
        Some("invalid layer parent index"@)
    } else if first_cel_problem(d, d.cels.len()) is Some {
        first_cel_problem(d, d.cels.len())
    } else if exists|i: int| 0 <= i < d.tilesets.len() && #[trigger] bad_tileset(d, i) {
        Some("tileset tile size must be > 0"@)
    } else {
        None
    }
}

/// The document keeps every rule.
pub open spec fn is_valid(d: DocView) -> bool {
    validation_error(d) is None
}

impl SpriteDocument {
    /// Checks the document's rules, in the order `validation_error` lists them,
    /// and reports the first one broken.
    #[verifier::loop_isolation(false)]
    pub fn validate(&self) -> (r: Result<(), CoreError>)
        ensures
            match validation_error(self@) {
                None => r is Ok,
                Some(msg) => r matches Err(CoreError::Validation(m)) && m@ == msg,
            },
    {
        if self.width == 0 || self.height == 0 {
            return Err(CoreError::Validation("canvas dimensions must be > 0".to_owned()));
        }
        if self.width > 0xffff || self.height > 0xffff {
            return Err(CoreError::Validation("canvas dimensions exceed ASE limit".to_owned()));
        }
        if self.frames.len() == 0 {
            return Err(CoreError::Validation("sprite must have at least one frame".to_owned()));
        }
        if self.layers.len() == 0 {
            return Err(CoreError::Validation("sprite must have at least one layer".to_owned()));
        }
        let ghost d = self@;
        let mut bg_count: usize = 0;
        let mut i: usize = 0;
        while i < self.layers.len()
            invariant
                i <= self.layers.len(),
                d == self@,
                bg_count == background_count(d.layers, i as nat),
                bg_count <= i,
            decreases self.layers.len() - i,
        {
            if self.layers[i].is_background {
                bg_count = bg_count + 1;
            }
            i = i + 1;
        }
        if bg_count != 1 {
            let mut m = "expected exactly one background layer, found ".to_owned();
            push_decimal(&mut m, bg_count);
            return Err(CoreError::Validation(m));
        }
        if !self.layers[0].is_background {
            return Err(CoreError::Validation("background layer must be at stack index 0".to_owned()));
        }
        if self.layers[0].opacity != 255 {
            return Err(CoreError::Validation("background layer must be fully opaque".to_owned()));
        }
        if self.color_mode == ColorMode::Indexed && self.palette.len() > 256 {
            return Err(CoreError::Validation("indexed palette exceeds 256 colors".to_owned()));
        }
        let mut i: usize = 0;
        while i < self.layers.len()
            invariant
                i <= self.layers.len(),
                d == self@,
                forall|k: int| 0 <= k < i ==> !#[trigger] bad_parent(d, k),
            decreases self.layers.len() - i,
        {
            match self.layers[i].parent {
                Some(p) => {
                    if p >= self.layers.len() {
                        proof {
                            assert(bad_parent(d, i as int));
                        }
                        return Err(CoreError::Validation("invalid layer parent index".to_owned()));
                    }
                },
                None => {},
            }
            i = i + 1;
        }
        let mut i: usize = 0;
        while i < self.cels.len()
            invariant
                i <= self.cels.len(),
                d == self@,
                first_cel_problem(d, i as nat) is None,
            decreases self.cels.len() - i,
        {
            let cel = &self.cels[i];
            proof {
                lemma_first_cel_problem_stays(d, (i + 1) as nat, d.cels.len());
            }
            if cel.layer >= self.layers.len() || cel.frame >= self.frames.len() {
                return Err(CoreError::Validation("cel references invalid layer or frame".to_owned()));
            }
            if cel.image_id >= self.images.len() {
                return Err(CoreError::Validation("cel references invalid image".to_owned()));
            }
            let layer = &self.layers[cel.layer];
            if !layer.accepts_cels() {
                let mut m = "layer '".to_owned();
                m.append(layer.name.as_str());
                m.append("' does not accept cels");
                return Err(CoreError::Validation(m));
            }
            i = i + 1;
        }
        let mut i: usize = 0;
        while i < self.tilesets.len()
            invariant
                i <= self.tilesets.len(),
                d == self@,
                forall|k: int| 0 <= k < i ==> !#[trigger] bad_tileset(d, k),
            decreases self.tilesets.len() - i,
        {
            if self.tilesets[i].tile_width == 0 || self.tilesets[i].tile_height == 0 {
                proof {
                    assert(bad_tileset(d, i as int));
                }
                return Err(CoreError::Validation("tileset tile size must be > 0".to_owned()));
            }
            i = i + 1;
        }
        Ok(())
    }
}

} // verus!
