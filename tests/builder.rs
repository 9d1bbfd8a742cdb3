use imgpipe::builder::{build, build_trimmed, classify, finite_bits, BuildError, Directive, Pipeline};
use imgpipe::config::{Input, Output};
use imgpipe::effect::Effect;

fn tokens(words: &[&str]) -> Vec<String> {
    words.iter().map(|w| w.to_string()).collect()
}

fn numbers(toks: &[String]) -> Vec<Option<u32>> {
    toks.iter().map(|t| t.trim().parse::<f32>().ok().map(f32::to_bits)).collect()
}

fn parse_words(words: &[&str]) -> Result<Pipeline, BuildError> {
    let toks = tokens(words);
    let nums = numbers(&toks);
    build(&toks, &nums)
}

fn chains(p: &Pipeline) -> Vec<Vec<Effect>> {
    p.layers.iter().map(|l| l.effect_chain.clone()).collect()
}

#[test]
fn file_in_blur_invert_file_out() {
    let p = parse_words(&["-i", "sample.png", "-blur", "2.0", "-invert", "-o", "out.png"]).unwrap();
    assert_eq!(p.config.input, Input::Path(Some("sample.png".to_string())));
    assert_eq!(p.config.output, Output::Path("out.png".to_string()));
    assert_eq!(chains(&p), vec![vec![Effect::Blur(2.0f32.to_bits()), Effect::Invert]]);
}

#[test]
fn pipe_and_dump_without_effects() {
    let p = parse_words(&["-pipe", "-dump"]).unwrap();
    assert_eq!(p.config.input, Input::Pipe);
    assert_eq!(p.config.output, Output::Dump);
    assert_eq!(chains(&p), vec![Vec::<Effect>::new()]);
}

#[test]
fn empty_tokens_give_defaults() {
    let p = parse_words(&[]).unwrap();
    assert_eq!(p.config.input, Input::Path(None));
    assert_eq!(p.config.output, Output::Dump);
    assert_eq!(p.layers.len(), 1);
    assert!(p.layers[0].effect_chain.is_empty());
}

#[test]
fn trailing_blur_is_missing_argument() {
    assert_eq!(parse_words(&["-blur"]).unwrap_err(), BuildError::MissingArgument(0));
    assert_eq!(parse_words(&["-invert", "-blur"]).unwrap_err(), BuildError::MissingArgument(1));
}

#[test]
fn non_numeric_blur_is_invalid_argument() {
    assert_eq!(parse_words(&["-blur", "abc"]).unwrap_err(), BuildError::InvalidArgument(1));
}

#[test]
fn non_numeric_contrast_is_invalid_argument() {
    assert_eq!(parse_words(&["-pass", "-contrast", "x"]).unwrap_err(), BuildError::InvalidArgument(2));
}

#[test]
fn missing_path_arguments() {
    assert_eq!(parse_words(&["-i"]).unwrap_err(), BuildError::MissingArgument(0));
    assert_eq!(parse_words(&["-pipe", "-o"]).unwrap_err(), BuildError::MissingArgument(1));
    assert_eq!(parse_words(&["-contrast"]).unwrap_err(), BuildError::MissingArgument(0));
}

#[test]
fn unknown_token_is_unrecognized() {
    assert_eq!(parse_words(&["-invert", "-sharpen"]).unwrap_err(), BuildError::UnrecognizedDirective(1));
    assert_eq!(parse_words(&["sample.png"]).unwrap_err(), BuildError::UnrecognizedDirective(0));
}

#[test]
fn path_wins_over_pipe_in_either_order() {
    let a = parse_words(&["-i", "path.png", "-pipe"]).unwrap();
    let b = parse_words(&["-pipe", "-i", "path.png"]).unwrap();
    assert_eq!(a.config.input, Input::Path(Some("path.png".to_string())));
    assert_eq!(b.config.input, Input::Path(Some("path.png".to_string())));
}

#[test]
fn last_input_path_wins() {
    let p = parse_words(&["-i", "a.png", "-i", "b.png"]).unwrap();
    assert_eq!(p.config.input, Input::Path(Some("b.png".to_string())));
}

#[test]
fn dump_overrides_earlier_output_path() {
    let p = parse_words(&["-o", "out.png", "-dump"]).unwrap();
    assert_eq!(p.config.output, Output::Dump);
    let q = parse_words(&["-dump", "-o", "out.png"]).unwrap();
    assert_eq!(q.config.output, Output::Path("out.png".to_string()));
}

#[test]
fn layers_collect_their_own_effects() {
    let p = parse_words(&["-invert", "-layer", "-contrast", "1.5", "-layer", "-pass"]).unwrap();
    assert_eq!(
        chains(&p),
        vec![
            vec![Effect::Invert],
            vec![Effect::Contrast(1.5f32.to_bits())],
            vec![Effect::Pass],
        ]
    );
}

#[test]
fn n_layer_directives_give_n_plus_one_layers() {
    for n in 0..5usize {
        let words: Vec<&str> = std::iter::repeat("-layer").take(n).collect();
        let p = parse_words(&words).unwrap();
        assert_eq!(p.layers.len(), n + 1);
    }
}

#[test]
fn layer_as_path_argument_is_no_directive() {
    let p = parse_words(&["-i", "-layer"]).unwrap();
    assert_eq!(p.layers.len(), 1);
    assert_eq!(p.config.input, Input::Path(Some("-layer".to_string())));
}

#[test]
fn tokens_are_trimmed() {
    let p = parse_words(&[" -invert ", "\t-blur", " 3 ", "-i", "  in.png\n"]).unwrap();
    assert_eq!(chains(&p), vec![vec![Effect::Invert, Effect::Blur(3.0f32.to_bits())]]);
    assert_eq!(p.config.input, Input::Path(Some("in.png".to_string())));
}

#[test]
fn classify_each_directive() {
    let cases = [
        ("-i", Directive::Input),
        ("-o", Directive::Output),
        ("-pipe", Directive::Pipe),
        ("-dump", Directive::Dump),
        ("-layer", Directive::Layer),
        ("-pass", Directive::Pass),
        ("-blur", Directive::Blur),
        ("-contrast", Directive::Contrast),
        ("-invert", Directive::Invert),
        ("-Invert", Directive::Unrecognized),
        ("", Directive::Unrecognized),
    ];
    for (word, d) in cases {
        assert_eq!(classify(&word.to_string()), d);
    }
}

#[test]
fn build_trimmed_takes_tokens_as_they_are() {
    let toks = tokens(&[" -invert"]);
    let nums = numbers(&toks);
    assert_eq!(build_trimmed(&toks, &nums).unwrap_err(), BuildError::UnrecognizedDirective(0));
    let toks = tokens(&["-contrast", "-2.5", "-layer"]);
    let nums = numbers(&toks);
    let p = build_trimmed(&toks, &nums).unwrap();
    assert_eq!(chains(&p), vec![vec![Effect::Contrast((-2.5f32).to_bits())], vec![]]);
}

#[test]
fn non_finite_arguments_are_invalid() {
    assert_eq!(parse_words(&["-blur", "inf"]).unwrap_err(), BuildError::InvalidArgument(1));
    assert_eq!(parse_words(&["-blur", "-inf"]).unwrap_err(), BuildError::InvalidArgument(1));
    assert_eq!(parse_words(&["-invert", "-contrast", "NaN"]).unwrap_err(), BuildError::InvalidArgument(2));
    let p = parse_words(&["-contrast", "0", "-blur", "1e-3"]).unwrap();
    assert_eq!(chains(&p), vec![vec![Effect::Contrast(0.0f32.to_bits()), Effect::Blur(1e-3f32.to_bits())]]);
}

#[test]
fn finite_bits_checks_exponent() {
    assert!(finite_bits(2.0f32.to_bits()));
    assert!(finite_bits(f32::MAX.to_bits()));
    assert!(finite_bits(0));
    assert!(!finite_bits(f32::INFINITY.to_bits()));
    assert!(!finite_bits(f32::NEG_INFINITY.to_bits()));
    assert!(!finite_bits(f32::NAN.to_bits()));
}

#[test]
fn unicode_white_space_is_trimmed() {
    let p = parse_words(&["\u{3000}-invert\u{85}", "\u{a0}-blur\u{2028}", "\u{2009}2\u{205f}"]).unwrap();
    assert_eq!(chains(&p), vec![vec![Effect::Invert, Effect::Blur(2.0f32.to_bits())]]);
    assert_eq!(parse_words(&["\u{200b}-invert"]).unwrap_err(), BuildError::UnrecognizedDirective(0));
}
