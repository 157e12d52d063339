//! Regions of the framebuffer and the patches that fill them.

use vstd::prelude::*;

verus! {

/// A region of the framebuffer.
#[derive(Clone, Copy, Debug, PartialEq, Eq, Structural)]
pub struct Rect {
    pub x: u16,
    pub y: u16,
    pub width: u16,
    pub height: u16,
}

impl Rect {
    /// The region lies within the 16-bit coordinate space of a framebuffer.
    pub open spec fn fits(self) -> bool {
        self.x + self.width <= 0xffff && self.y + self.height <= 0xffff
    }

    /// The number of pixels in the region.
    pub open spec fn area(self) -> nat {
        (self.width * self.height) as nat
    }

    /// Whether the region lies within the coordinate space of a framebuffer.
    pub fn is_fitting(&self) -> (ok: bool)
        ensures
            ok == self.fits(),
    {
        self.x as u32 + self.width as u32 <= 0xffff && self.y as u32 + self.height as u32 <= 0xffff
    }

    /// Whether the region holds no pixel.
    pub fn is_empty(&self) -> (empty: bool)
        ensures
            empty == (self.width == 0 || self.height == 0),
    {
        self.width == 0 || self.height == 0
    }
}

/// What the output sink is to do with a patch.
#[derive(Clone, Copy, Debug, PartialEq, Eq, Structural)]
pub enum PatchKind {
    /// Pixels to draw.
    Raw,
    /// Nothing to upload: the sink copies the source region of its own surface.
    CopyRegion(Rect),
    /// The shape of the pointer.
    Cursor,
    /// A compressed image that the sink hands on to an image decoder.
    Jpeg,
}

/// Decoded bytes together with the region they fill.
#[derive(Clone, Debug, PartialEq, Eq)]
pub struct ImagePatch {
    pub data: Vec<u8>,
    pub rect: Rect,
    pub kind: PatchKind,
}

/// A patch as contracts speak of it.
pub struct PatchModel {
    pub data: Seq<u8>,
    pub rect: Rect,
    pub kind: PatchKind,
}

impl View for ImagePatch {
    type V = PatchModel;

    open spec fn view(&self) -> PatchModel {
        PatchModel { data: self.data@, rect: self.rect, kind: self.kind }
    }
}

/// The models of a sequence of patches.
pub open spec fn patch_models(patches: Seq<ImagePatch>) -> Seq<PatchModel> {
    Seq::new(patches.len(), |i: int| patches[i]@)
}

} // verus!
