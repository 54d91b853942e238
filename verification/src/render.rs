//! Raster-frame vocabulary: the damaged region of a frame, the frame itself, and the typed
//! conditions a rasterizer reports.
use vstd::prelude::*;

verus! {

/// A damaged rectangle of a frame, in physical pixels.
#[derive(Clone, Copy, Debug, Eq, PartialEq, Structural)]
pub struct DamageRect {
    pub x: u32,
    pub y: u32,
    pub width: u32,
    pub height: u32,
}

pub open spec fn right_edge(r: DamageRect) -> int {
    r.x + r.width
}

pub open spec fn bottom_edge(r: DamageRect) -> int {
    r.y + r.height
}

/// The rectangle fits the `u32` coordinate space.
pub open spec fn fits(r: DamageRect) -> bool {
    right_edge(r) <= u32::MAX && bottom_edge(r) <= u32::MAX
}

/// `outer` covers `inner`.
pub open spec fn covers(outer: DamageRect, inner: DamageRect) -> bool {
    outer.x <= inner.x && outer.y <= inner.y && right_edge(inner) <= right_edge(outer)
        && bottom_edge(inner) <= bottom_edge(outer)
}

/// The smallest rectangle covering both `a` and `b`.
pub open spec fn union_of(a: DamageRect, b: DamageRect) -> DamageRect {
    let x = if a.x < b.x { a.x } else { b.x };
    let y = if a.y < b.y { a.y } else { b.y };
    let right = if right_edge(a) > right_edge(b) { right_edge(a) } else { right_edge(b) };
    let bottom = if bottom_edge(a) > bottom_edge(b) { bottom_edge(a) } else { bottom_edge(b) };
    DamageRect { x, y, width: (right - x) as u32, height: (bottom - y) as u32 }
}

impl DamageRect {
    /// The smallest rectangle covering both.
    pub fn union(self, other: Self) -> (r: Self)
        requires
            fits(self),
            fits(other),
        ensures
            r == union_of(self, other),
    {
        let x = if self.x < other.x { self.x } else { other.x };
        let y = if self.y < other.y { self.y } else { other.y };
        let r1 = self.x + self.width;
        let r2 = other.x + other.width;
        let right = if r1 > r2 { r1 } else { r2 };
        let b1 = self.y + self.height;
        let b2 = other.y + other.height;
        let bottom = if b1 > b2 { b1 } else { b2 };
        DamageRect { x, y, width: right - x, height: bottom - y }
    }
}

/// Merging damage is order-independent, and the merged rectangle fits and covers both.
pub proof fn law_union_commutes_and_covers(a: DamageRect, b: DamageRect)
    requires
        fits(a),
        fits(b),
    ensures
        union_of(a, b) == union_of(b, a),
        fits(union_of(a, b)),
        covers(union_of(a, b), a),
        covers(union_of(a, b), b),
{
}

/// A typed, non-fatal condition for which the embedder may choose a fallback.
#[derive(Clone, Debug, Eq, PartialEq)]
pub enum RenderNote {
    ImageDecodeFailed { source_id: String },
    ImageTooLarge { source_id: String, width: u32, height: u32, max_pixels: u64 },
}

/// A rendered frame: RGBA pixels, the damaged region, and recoverable notes.
#[derive(Clone, Debug)]
pub struct RasterFrame {
    pub width: u32,
    pub height: u32,
    pub rgba: Vec<u8>,
    pub damage: Option<DamageRect>,
    /// Recoverable image failures encountered while producing this frame.
    pub notes: Vec<RenderNote>,
}

/// Why a frame could not be rendered.
#[derive(Clone, Debug, Eq, PartialEq)]
pub enum RenderError {
    InvalidSurface,
    UnknownStyleKey(String),
    InvalidTextScale,
}

} // verus!
