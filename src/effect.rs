use vstd::prelude::*;

verus! {

/// One step of a layer's effect chain.
///
/// The parameters of `Blur` and `Contrast` are single-precision values held
/// as their IEEE-754 bit patterns; the library only carries them to the
/// pixel filters and never computes with them.
#[derive(Debug, Clone, Copy, PartialEq, Eq, Structural)]
pub enum Effect {
    Pass,
    Blur(u32),
    Contrast(u32),
    Invert,
}

#[verifier::external_type_specification]
#[verifier::external_body]
pub struct ExDynamicImage(image::DynamicImage);

/// Whether an image's raw sample container is exactly as long as its width,
/// height and channels ask, which the crate's encoders insist on. The
/// crate's constructors, decoders and filters allocate it so; only an image
/// built from an oversized raw container breaks it.
pub uninterp spec fn exact_buffer(img: image::DynamicImage) -> bool;

/// Relies on `image::DynamicImage::new_rgb32f`: allocates a fresh buffer of
/// the given size (`ImageBuffer::new`); nothing is stated of its pixels.
pub assume_specification[ image::DynamicImage::new_rgb32f ](w: u32, h: u32) -> (r: image::DynamicImage)
    ensures
        exact_buffer(r),
;

/// A layer: an image buffer and an effect chain that only ever grows at its
/// end.
#[derive(Debug, PartialEq)]
pub struct Layer {
    pub image: image::DynamicImage,
    pub effect_chain: Vec<Effect>,
}

impl Layer {
    /// A layer with a 1x1 placeholder buffer and an empty effect chain.
    pub fn new() -> (r: Layer)
        ensures
            r.effect_chain@ == Seq::<Effect>::empty(),
            exact_buffer(r.image),
    {
        Layer { image: image::DynamicImage::new_rgb32f(1, 1), effect_chain: Vec::new() }
    }

    /// Appends `e` to the effect chain.
    pub fn push_effect(&mut self, e: Effect)
        ensures
            final(self).effect_chain@ == old(self).effect_chain@.push(e),
            final(self).image == old(self).image,
    {
        self.effect_chain.push(e);
    }
}

/// The effect chains of a sequence of layers.
pub open spec fn chains_of(layers: Seq<Layer>) -> Seq<Seq<Effect>> {
    layers.map_values(|l: Layer| l.effect_chain@)
}

} // verus!
