use vstd::prelude::*;

verus! {

/// One RGBA pixel, eight bits per channel.
#[derive(Clone, Copy, PartialEq, Eq, Structural, Debug)]
pub struct Px {
    pub r: u8,
    pub g: u8,
    pub b: u8,
    pub a: u8,
}

/// The fully transparent black pixel: the content of a freshly allocated
/// canvas before anything is drawn on it.
pub open spec fn clear_px() -> Px {
    Px { r: 0, g: 0, b: 0, a: 0 }
}

/// What alpha-over blending returns for a canvas pixel `under` and a stamp
/// pixel `top` drawn over it.
pub uninterp spec fn blend_of(under: Px, top: Px) -> Px;

/// Relies on `image::Pixel::blend` for `image::Rgba<u8>`: source-over alpha
/// compositing, a pure function of the two pixel values. Its body returns at
/// once when the stamp pixel's alpha is 0, leaving the canvas pixel, and
/// copies the stamp pixel when its alpha is the maximum 255.
#[verifier::external_body]
pub(crate) fn blend_px(under: Px, top: Px) -> (r: Px)
    ensures
        r == blend_of(under, top),
        top.a == 0 ==> r == under,
        top.a == 255 ==> r == top,
{
    let mut p = image::Rgba([under.r, under.g, under.b, under.a]);
    image::Pixel::blend(&mut p, &image::Rgba([top.r, top.g, top.b, top.a]));
    Px { r: p.0[0], g: p.0[1], b: p.0[2], a: p.0[3] }
}

} // verus!
