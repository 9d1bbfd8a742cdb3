use image::{DynamicImage, ImageFormat, Rgb, RgbImage};
use imgpipe::builder::build;
use imgpipe::config::Input;
use imgpipe::effect::{Effect, Layer};
use imgpipe::executor::{
    apply_effects, decode_piped, encode_output, load_source, output_layer, resolve_input, ExecError,
    Source, Step,
};
use std::io::Cursor;

fn layer(chain: Vec<Effect>) -> Layer {
    let mut l = Layer::new();
    for e in chain {
        l.push_effect(e);
    }
    l
}

fn sample() -> DynamicImage {
    let mut img = RgbImage::new(8, 8);
    for (x, y, px) in img.enumerate_pixels_mut() {
        *px = Rgb([(x * 30) as u8, (y * 30) as u8, ((x + y) * 10) as u8]);
    }
    DynamicImage::ImageRgb8(img)
}

fn blur(img: &DynamicImage, bits: u32) -> DynamicImage {
    img.blur(f32::from_bits(bits))
}

fn contrast(img: &DynamicImage, bits: u32) -> DynamicImage {
    img.adjust_contrast(f32::from_bits(bits))
}

fn run_words(words: &[&str], img: &DynamicImage) -> DynamicImage {
    let toks: Vec<String> = words.iter().map(|w| w.to_string()).collect();
    let nums: Vec<Option<u32>> =
        toks.iter().map(|t| t.trim().parse::<f32>().ok().map(f32::to_bits)).collect();
    let mut p = build(&toks, &nums).unwrap();
    load_source(&mut p.layers, img.clone());
    apply_effects(&mut p.layers, blur, contrast);
    let first = output_layer(&p.layers);
    p.layers.swap_remove(first).image
}

#[test]
fn steps_run_layers_then_chain() {
    let mut layers = vec![
        layer(vec![Effect::Invert, Effect::Pass]),
        layer(vec![]),
        layer(vec![Effect::Blur(2.0f32.to_bits())]),
    ];
    assert_eq!(
        apply_effects(&mut layers, blur, contrast),
        vec![
            Step { layer: 0, effect: Effect::Invert },
            Step { layer: 0, effect: Effect::Pass },
            Step { layer: 2, effect: Effect::Blur(2.0f32.to_bits()) },
        ]
    );
}

#[test]
fn empty_chain_applies_nothing() {
    let mut layers = vec![layer(vec![])];
    load_source(&mut layers, sample());
    assert!(apply_effects(&mut layers, blur, contrast).is_empty());
    assert_eq!(layers[0].image.as_bytes(), sample().as_bytes());
}

#[test]
fn output_is_first_layer() {
    let layers = vec![layer(vec![]), layer(vec![Effect::Invert])];
    assert_eq!(output_layer(&layers), 0);
}

#[test]
fn resolve_each_input() {
    assert_eq!(resolve_input(&Input::Pipe), Ok(Source::Stdin));
    assert_eq!(
        resolve_input(&Input::Path(Some("a.png".to_string()))),
        Ok(Source::File("a.png".to_string()))
    );
    assert_eq!(resolve_input(&Input::Path(None)), Err(ExecError::MissingInput));
}

#[test]
fn pass_leaves_buffer_identical() {
    let img = sample();
    assert_eq!(run_words(&["-pass", "-pass"], &img).as_bytes(), img.as_bytes());
}

#[test]
fn invert_twice_restores_buffer() {
    let img = sample();
    assert_eq!(run_words(&["-invert", "-invert"], &img).as_bytes(), img.as_bytes());
    assert_ne!(run_words(&["-invert"], &img).as_bytes(), img.as_bytes());
}

#[test]
fn effect_order_matters() {
    let img = sample();
    let a = run_words(&["-blur", "5", "-invert"], &img);
    let b = run_words(&["-invert", "-blur", "5"], &img);
    assert_ne!(a.as_bytes(), b.as_bytes());
}

#[test]
fn later_layers_do_not_change_output() {
    let img = sample();
    let a = run_words(&["-invert"], &img);
    let b = run_words(&["-invert", "-layer", "-blur", "3", "-layer", "-invert"], &img);
    assert_eq!(a.as_bytes(), b.as_bytes());
}

#[test]
fn png_round_trip_without_effects() {
    let img = sample();
    let mut first: Vec<u8> = Vec::new();
    img.write_to(&mut Cursor::new(&mut first), ImageFormat::Png).unwrap();
    for words in [&["-pipe", "-pass"][..], &["-pipe"][..]] {
        let toks: Vec<String> = words.iter().map(|w| w.to_string()).collect();
        let nums: Vec<Option<u32>> = vec![None; toks.len()];
        let mut p = build(&toks, &nums).unwrap();
        load_source(&mut p.layers, decode_piped(&first).unwrap());
        apply_effects(&mut p.layers, blur, contrast);
        let second = encode_output(&p.layers).unwrap();
        assert_eq!(&second[..8], &[0x89, b'P', b'N', b'G', 0x0d, 0x0a, 0x1a, 0x0a]);
        let again = image::load_from_memory(&second).unwrap();
        assert_eq!(again.to_rgb8().as_raw(), img.to_rgb8().as_raw());
    }
}

#[test]
fn garbage_bytes_fail_to_decode() {
    assert_eq!(decode_piped(&vec![1, 2, 3, 4]).unwrap_err(), ExecError::DecodeFailure);
    assert_eq!(decode_piped(&Vec::new()).unwrap_err(), ExecError::DecodeFailure);
}

#[test]
fn decode_piped_reads_png() {
    let img = sample();
    let mut bytes: Vec<u8> = Vec::new();
    img.write_to(&mut Cursor::new(&mut bytes), ImageFormat::Png).unwrap();
    let back = decode_piped(&bytes).unwrap();
    assert_eq!(back.as_bytes(), img.as_bytes());
}

#[test]
fn encode_output_uses_first_layer() {
    let mut layers = vec![layer(vec![]), layer(vec![Effect::Invert])];
    load_source(&mut layers, sample());
    let bytes = encode_output(&layers).unwrap();
    let back = image::load_from_memory(&bytes).unwrap();
    assert_eq!(back.to_rgb8().as_raw(), sample().to_rgb8().as_raw());
}

#[test]
fn new_layer_is_placeholder() {
    let l = Layer::new();
    assert!(l.effect_chain.is_empty());
    assert_eq!((l.image.width(), l.image.height()), (1, 1));
}

#[test]
fn push_effect_appends() {
    let mut l = Layer::new();
    l.push_effect(Effect::Invert);
    l.push_effect(Effect::Pass);
    assert_eq!(l.effect_chain, vec![Effect::Invert, Effect::Pass]);
}

#[test]
fn source_goes_to_first_layer_only() {
    let mut layers = vec![layer(vec![Effect::Invert]), layer(vec![Effect::Pass])];
    load_source(&mut layers, sample());
    assert_eq!(layers[0].image.as_bytes(), sample().as_bytes());
    assert_eq!(layers[0].effect_chain, vec![Effect::Invert]);
    assert_eq!((layers[1].image.width(), layers[1].image.height()), (1, 1));
    assert_eq!(layers[1].effect_chain, vec![Effect::Pass]);
}

#[test]
fn chains_survive_application() {
    let mut layers = vec![layer(vec![Effect::Invert, Effect::Pass]), layer(vec![Effect::Pass])];
    load_source(&mut layers, sample());
    apply_effects(&mut layers, blur, contrast);
    assert_eq!(layers[0].effect_chain, vec![Effect::Invert, Effect::Pass]);
    assert_eq!(layers[1].effect_chain, vec![Effect::Pass]);
    assert_eq!((layers[1].image.width(), layers[1].image.height()), (1, 1));
}

#[test]
fn contrast_changes_buffer() {
    let img = sample();
    assert_ne!(run_words(&["-contrast", "40"], &img).as_bytes(), img.as_bytes());
}

#[test]
fn decode_piped_guesses_bmp() {
    let img = sample();
    let mut bytes: Vec<u8> = Vec::new();
    img.write_to(&mut Cursor::new(&mut bytes), ImageFormat::Bmp).unwrap();
    let back = decode_piped(&bytes).unwrap();
    assert_eq!(back.to_rgb8().as_raw(), img.to_rgb8().as_raw());
}
