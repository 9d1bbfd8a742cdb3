use vstd::prelude::*;

use crate::config::{Input, InputModel};
use crate::effect::{chains_of, exact_buffer, Effect, Layer};

verus! {

/// Where the source image bytes come from once the input is resolved.
#[derive(Debug, Clone, PartialEq, Eq)]
pub enum Source {
    /// Standard input, read to its end; the format is guessed from the bytes.
    Stdin,
    /// A file; the format is inferred by the codec.
    File(String),
}

/// Why a run fails after its tokens were read.
#[derive(Debug, Clone, Copy, PartialEq, Eq, Structural)]
pub enum ExecError {
    /// No input path was given and standard input was not selected.
    MissingInput,
    /// The source bytes are no image of a known format.
    DecodeFailure,
    /// The emitted buffer could not be encoded.
    EncodeFailure,
}

/// One application of an effect to a layer's buffer.
#[derive(Debug, Clone, Copy, PartialEq, Eq, Structural)]
pub struct Step {
    pub layer: usize,
    pub effect: Effect,
}

/// Resolves the configured input to a source of bytes.
pub fn resolve_input(input: &Input) -> (r: Result<Source, ExecError>)
    ensures
        match input@ {
            InputModel::Pipe => r matches Ok(Source::Stdin),
            InputModel::Path(Some(p)) => (match r {
                Ok(Source::File(q)) => q@ == p,
                _ => false,
            }),
            InputModel::Path(None) => r == Err::<Source, ExecError>(ExecError::MissingInput),
        },
{
    match input {
        Input::Pipe => Ok(Source::Stdin),
        Input::Path(Some(p)) => Ok(Source::File(p.clone())),
        Input::Path(None) => Err(ExecError::MissingInput),
    }
}

/// The steps that apply `chain` to the buffer of layer `k`, in chain order.
pub open spec fn layer_steps(k: int, chain: Seq<Effect>) -> Seq<Step> {
    chain.map_values(|e: Effect| Step { layer: k as usize, effect: e })
}

/// All steps of a run: layers in declaration order, each chain in append order.
pub open spec fn steps_of(chains: Seq<Seq<Effect>>) -> Seq<Step>
    decreases chains.len(),
{
    if chains.len() == 0 {
        Seq::empty()
    } else {
        steps_of(chains.drop_last()) + layer_steps(chains.len() - 1, chains.last())
    }
}

/// The layer whose final buffer is emitted: always the first.
pub fn output_layer(layers: &Vec<Layer>) -> (r: usize)
    requires
        layers.len() >= 1,
    ensures
        r == 0,
        r < layers.len(),
{
    0
}

/// Puts the decoded source image into the first layer's buffer; every other
/// buffer, and every effect chain, stays as it was.
pub fn load_source(layers: &mut Vec<Layer>, image: image::DynamicImage)
    requires
        old(layers).len() >= 1,
    ensures
        final(layers).len() == old(layers).len(),
        final(layers)@[0].image == image,
        forall|k: int| 0 < k < old(layers).len() ==> #[trigger] final(layers)@[k] == old(layers)@[k],
        chains_of(final(layers)@) == chains_of(old(layers)@),
{
    layers[0].image = image;
    assert(chains_of(layers@) =~= chains_of(old(layers)@));
}

/// What `image::DynamicImage::invert` makes of an image.
pub uninterp spec fn inverted(img: image::DynamicImage) -> image::DynamicImage;

/// Relies on `image::DynamicImage::invert`: inverts the colours in place; the
/// result depends on the image alone.
pub assume_specification[ image::DynamicImage::invert ](img: &mut image::DynamicImage)
    ensures
        *final(img) == inverted(*old(img)),
        exact_buffer(*old(img)) ==> exact_buffer(*final(img)),
;

/// Whether applying `e` to the buffer `prev` can give the buffer `next`.
pub open spec fn step_relates<B, C>(
    blur: B,
    contrast: C,
    e: Effect,
    prev: image::DynamicImage,
    next: image::DynamicImage,
) -> bool
    where
        B: Fn(&image::DynamicImage, u32) -> image::DynamicImage,
        C: Fn(&image::DynamicImage, u32) -> image::DynamicImage,
{
    match e {
        Effect::Pass => next == prev,
        Effect::Blur(x) => blur.ensures((&prev, x), next),
        Effect::Contrast(x) => contrast.ensures((&prev, x), next),
        Effect::Invert => next == inverted(prev),
    }
}

/// Whether `bufs` is the run of buffers that applying `chain` goes through:
/// `bufs[j + 1]` is what effect `j` makes of `bufs[j]`.
#[verifier::opaque]
pub open spec fn chain_run<B, C>(blur: B, contrast: C, bufs: Seq<image::DynamicImage>, chain: Seq<Effect>) -> bool
    where
        B: Fn(&image::DynamicImage, u32) -> image::DynamicImage,
        C: Fn(&image::DynamicImage, u32) -> image::DynamicImage,
{
    &&& bufs.len() == chain.len() + 1
    &&& forall|j: int| 0 <= j < chain.len() ==> #[trigger] step_relates(blur, contrast, chain[j], bufs[j], bufs[j + 1])
}

/// A chain with no effect but `Pass`.
pub open spec fn only_pass(chain: Seq<Effect>) -> bool {
    forall|j: int| 0 <= j < chain.len() ==> chain[j] == Effect::Pass
}

/// Whether `after`'s buffer is reached from `before`'s through a run of
/// `before`'s chain.
pub open spec fn layer_ran<B, C>(blur: B, contrast: C, before: Layer, after: Layer) -> bool
    where
        B: Fn(&image::DynamicImage, u32) -> image::DynamicImage,
        C: Fn(&image::DynamicImage, u32) -> image::DynamicImage,
{
    exists|bufs: Seq<image::DynamicImage>|
        #[trigger] chain_run(blur, contrast, bufs, before.effect_chain@) && bufs[0] == before.image
            && bufs.last() == after.image
}

/// Runs every layer's effect chain on that layer's buffer: layers in order,
/// each chain in append order, each effect seeing the result of the one
/// before. `blur` and `contrast` compute the filtered buffer for a
/// parameter's bit pattern. Returns the steps in the order they were
/// applied. Each layer's final buffer is reached from its first through its
/// own chain alone. The chains are left as they were, and a buffer whose
/// chain holds only `Pass` is left as it was.
#[verifier::spinoff_prover]
#[verifier::rlimit(50)]
pub fn apply_effects<B, C>(layers: &mut Vec<Layer>, blur: B, contrast: C) -> (r: Vec<Step>)
    where
        B: Fn(&image::DynamicImage, u32) -> image::DynamicImage,
        C: Fn(&image::DynamicImage, u32) -> image::DynamicImage,
    requires
        forall|img: &image::DynamicImage, x: u32| #[trigger] blur.requires((img, x)),
        forall|img: &image::DynamicImage, x: u32| #[trigger] contrast.requires((img, x)),
        forall|img: &image::DynamicImage, x: u32, out: image::DynamicImage|
            #[trigger] blur.ensures((img, x), out) ==> exact_buffer(out),
        forall|img: &image::DynamicImage, x: u32, out: image::DynamicImage|
            #[trigger] contrast.ensures((img, x), out) ==> exact_buffer(out),
    ensures
        forall|k: int|
            0 <= k < old(layers).len() && exact_buffer(old(layers)@[k].image) ==> #[trigger] exact_buffer(
                final(layers)@[k].image,
            ),
        r@ == steps_of(chains_of(old(layers)@)),
        final(layers).len() == old(layers).len(),
        chains_of(final(layers)@) == chains_of(old(layers)@),
        forall|k: int|
            0 <= k < old(layers).len() && only_pass(old(layers)@[k].effect_chain@)
                ==> #[trigger] final(layers)@[k].image == old(layers)@[k].image,
        forall|k: int|
            0 <= k < old(layers).len() ==> #[trigger] layer_ran(
                blur,
                contrast,
                old(layers)@[k],
                final(layers)@[k],
            ),
{
    let ghost start = layers@;
    let ghost chains = chains_of(start);
    let n = layers.len();
    let mut r: Vec<Step> = Vec::new();
    let ghost mut traces: Seq<Seq<image::DynamicImage>> = Seq::empty();
    let mut k: usize = 0;
    assert(chains.take(0) =~= Seq::<Seq<Effect>>::empty());
    while k < n
        invariant
            forall|img: &image::DynamicImage, x: u32, out: image::DynamicImage|
                #[trigger] blur.ensures((img, x), out) ==> exact_buffer(out),
            forall|img: &image::DynamicImage, x: u32, out: image::DynamicImage|
                #[trigger] contrast.ensures((img, x), out) ==> exact_buffer(out),
            forall|q: int|
                0 <= q < k && exact_buffer(start[q].image) ==> #[trigger] exact_buffer(layers@[q].image),
            traces.len() == k,
            forall|q: int|
                #![trigger traces[q]]
                0 <= q < k ==> chain_run(blur, contrast, traces[q], start[q].effect_chain@)
                    && traces[q][0] == start[q].image && traces[q].last() == layers@[q].image,
            n == layers.len(),
            chains == chains_of(start),
            r@ == steps_of(chains.take(k as int)),
            n == start.len(),
            k <= n,
            forall|img: &image::DynamicImage, x: u32| #[trigger] blur.requires((img, x)),
            forall|img: &image::DynamicImage, x: u32| #[trigger] contrast.requires((img, x)),
            forall|q: int| 0 <= q < n ==> #[trigger] layers@[q].effect_chain@ == start[q].effect_chain@,
            forall|q: int|
                0 <= q < k && only_pass(start[q].effect_chain@) ==> #[trigger] layers@[q].image
                    == start[q].image,
            forall|q: int| k <= q < n ==> #[trigger] layers@[q] == start[q],
        decreases n - k,
    {
        let m = layers[k].effect_chain.len();
        let ghost before = r@;
        let ghost mut tr: Seq<image::DynamicImage> = seq![layers@[k as int].image];
        proof {
            reveal(chain_run);
        }
        let mut j: usize = 0;
        while j < m
            invariant
                forall|img: &image::DynamicImage, x: u32, out: image::DynamicImage|
                    #[trigger] blur.ensures((img, x), out) ==> exact_buffer(out),
                forall|img: &image::DynamicImage, x: u32, out: image::DynamicImage|
                    #[trigger] contrast.ensures((img, x), out) ==> exact_buffer(out),
                forall|q: int|
                    0 <= q < k && exact_buffer(start[q].image) ==> #[trigger] exact_buffer(layers@[q].image),
                exact_buffer(start[k as int].image) ==> exact_buffer(layers@[k as int].image),
                tr.len() == j + 1,
                tr[0] == start[k as int].image,
                tr.last() == layers@[k as int].image,
                chain_run(blur, contrast, tr, start[k as int].effect_chain@.take(j as int)),
                traces.len() == k,
                forall|q: int|
                    #![trigger traces[q]]
                    0 <= q < k ==> chain_run(blur, contrast, traces[q], start[q].effect_chain@)
                        && traces[q][0] == start[q].image && traces[q].last() == layers@[q].image,
                n == layers.len(),
                chains == chains_of(start),
                r@ == before + layer_steps(k as int, chains[k as int].take(j as int)),
                n == start.len(),
                k < n,
                j <= m,
                m == start[k as int].effect_chain@.len(),
                forall|img: &image::DynamicImage, x: u32| #[trigger] blur.requires((img, x)),
                forall|img: &image::DynamicImage, x: u32| #[trigger] contrast.requires((img, x)),
                forall|q: int| 0 <= q < n ==> #[trigger] layers@[q].effect_chain@ == start[q].effect_chain@,
                forall|q: int|
                    0 <= q < k && only_pass(start[q].effect_chain@) ==> #[trigger] layers@[q].image
                        == start[q].image,
                forall|q: int| k < q < n ==> #[trigger] layers@[q] == start[q],
                only_pass(start[k as int].effect_chain@.take(j as int)) ==> layers@[k as int].image
                    == start[k as int].image,
            decreases m - j,
        {
            let e = layers[k].effect_chain[j];
            let ghost prev_img = layers@[k as int].image;
            assert(e == chains[k as int][j as int]);
            assert(e == start[k as int].effect_chain@[j as int]);
            r.push(Step { layer: k, effect: e });
            assert(layer_steps(k as int, chains[k as int].take(j + 1)) =~= layer_steps(
                k as int,
                chains[k as int].take(j as int),
            ).push(Step { layer: k, effect: e }));
            match e {
                Effect::Pass => {},
                Effect::Blur(x) => {
                    let out = blur(&layers[k].image, x);
                    layers[k].image = out;
                },
                Effect::Contrast(x) => {
                    let out = contrast(&layers[k].image, x);
                    layers[k].image = out;
                },
                Effect::Invert => {
                    layers[k].image.invert();
                },
            }
            assert(step_relates(blur, contrast, e, prev_img, layers@[k as int].image));
            proof {
                reveal(chain_run);
                let c = start[k as int].effect_chain@;
                let prev = tr.last();
                tr = tr.push(layers@[k as int].image);
                assert(step_relates(blur, contrast, c[j as int], prev, tr.last()));
                assert forall|jj: int| 0 <= jj < j + 1 implies #[trigger] step_relates(
                    blur,
                    contrast,
                    c.take(j + 1)[jj],
                    tr[jj],
                    tr[jj + 1],
                ) by {
                    if jj < j {
                        assert(c.take(j + 1)[jj] == c.take(j as int)[jj]);
                        assert(step_relates(blur, contrast, c.take(j as int)[jj], tr[jj], tr[jj + 1]));
                    } else {
                        assert(c.take(j + 1)[jj] == c[j as int]);
                    }
                }
                if only_pass(c.take(j + 1)) {
                    assert(c.take(j + 1)[j as int] == c[j as int]);
                    assert forall|q: int| 0 <= q < j implies c.take(j as int)[q] == Effect::Pass by {
                        assert(c.take(j as int)[q] == c.take(j + 1)[q]);
                    }
                }
            }
            j = j + 1;
        }
        assert(start[k as int].effect_chain@.take(m as int) =~= start[k as int].effect_chain@);
        assert(chains.take(k + 1).drop_last() =~= chains.take(k as int));
        proof {
            traces = traces.push(tr);
        }
        k = k + 1;
    }
    assert(chains.take(n as int) =~= chains);
    assert(chains_of(layers@) =~= chains_of(start));
    assert forall|q: int| 0 <= q < old(layers).len() implies #[trigger] layer_ran(
        blur,
        contrast,
        old(layers)@[q],
        layers@[q],
    ) by {
        let w = traces[q];
        assert(chain_run(blur, contrast, w, old(layers)@[q].effect_chain@));
    }
    r
}

#[verifier::external_type_specification]
#[verifier::external_body]
pub struct ExImageError(image::ImageError);

#[verifier::external_type_specification]
#[verifier::external_body]
pub struct ExImageFormat(image::ImageFormat);

/// The format that `image::guess_format` reads from the leading bytes, if
/// any.
pub uninterp spec fn guessed_format(b: Seq<u8>) -> Option<image::ImageFormat>;

/// What `image::load_from_memory_with_format` decodes from some bytes in a
/// given format, or nothing where they do not decode.
pub uninterp spec fn decoded_as(b: Seq<u8>, f: image::ImageFormat) -> Option<image::DynamicImage>;

/// The image that bytes read from standard input decode to, their format
/// guessed from the bytes themselves.
pub open spec fn piped_image(b: Seq<u8>) -> Option<image::DynamicImage> {
    match guessed_format(b) {
        Some(f) => decoded_as(b, f),
        None => None,
    }
}

/// What `image::DynamicImage::write_to` with `image::ImageFormat::Png`
/// writes for an image, or nothing where it cannot encode it.
pub uninterp spec fn png_of(img: image::DynamicImage) -> Option<Seq<u8>>;

/// Relies on `image::guess_format`: matches the leading bytes against the
/// crate's built-in table of signatures.
pub assume_specification[ image::guess_format ](buffer: &[u8]) -> (r: Result<
    image::ImageFormat,
    image::ImageError,
>)
    ensures
        r is Ok <==> guessed_format(buffer@) is Some,
        r is Ok ==> guessed_format(buffer@) == Some(r->Ok_0),
;

/// Relies on `image::load_from_memory_with_format`: decodes the bytes with
/// the built-in decoder of the format; a decoded image's buffer is allocated
/// at exactly its size.
pub assume_specification[ image::load_from_memory_with_format ](
    buf: &[u8],
    format: image::ImageFormat,
) -> (r: Result<image::DynamicImage, image::ImageError>)
    ensures
        r is Ok <==> decoded_as(buf@, format) is Some,
        r is Ok ==> decoded_as(buf@, format) == Some(r->Ok_0) && exact_buffer(r->Ok_0),
;

/// Relies on `image::DynamicImage::write_to` with `image::ImageFormat::Png`:
/// encodes the buffer as PNG into fresh bytes; the outcome depends on the
/// image alone.
#[verifier::external_body]
fn encode_png(img: &image::DynamicImage) -> (r: Result<Vec<u8>, image::ImageError>)
    requires
        exact_buffer(*img),
    ensures
        match r {
            Ok(b) => png_of(*img) == Some(b@),
            Err(_) => png_of(*img) is None,
        },
{
    let mut bytes: Vec<u8> = Vec::new();
    img.write_to(&mut std::io::Cursor::new(&mut bytes), image::ImageFormat::Png).map(|_| bytes)
}

/// Decodes bytes read from standard input, guessing their format from the
/// bytes themselves.
pub fn decode_piped(bytes: &Vec<u8>) -> (r: Result<image::DynamicImage, ExecError>)
    ensures
        match piped_image(bytes@) {
            Some(img) => r == Ok::<image::DynamicImage, ExecError>(img) && exact_buffer(img),
            None => r == Err::<image::DynamicImage, ExecError>(ExecError::DecodeFailure),
        },
{
    match image::guess_format(bytes.as_slice()) {
        Ok(format) => match image::load_from_memory_with_format(bytes.as_slice(), format) {
            Ok(img) => Ok(img),
            Err(_) => Err(ExecError::DecodeFailure),
        },
        Err(_) => Err(ExecError::DecodeFailure),
    }
}

/// Encodes the emitted buffer, the first layer's, as PNG.
pub fn encode_output(layers: &Vec<Layer>) -> (r: Result<Vec<u8>, ExecError>)
    requires
        layers.len() >= 1,
        exact_buffer(layers@[0].image),
    ensures
        match png_of(layers@[0].image) {
            Some(b) => r matches Ok(out) && out@ == b,
            None => r == Err::<Vec<u8>, ExecError>(ExecError::EncodeFailure),
        },
{
    let first = output_layer(layers);
    match encode_png(&layers[first].image) {
        Ok(bytes) => Ok(bytes),
        Err(_) => Err(ExecError::EncodeFailure),
    }
}

} // verus!
