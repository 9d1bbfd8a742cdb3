use vstd::prelude::*;

use crate::config::{Configuration, Input, InputModel, Output, OutputModel};
use crate::effect::{chains_of, Effect, Layer};

verus! {

/// What a token asks for when it stands where a directive is expected.
#[derive(Debug, Clone, Copy, PartialEq, Eq, Structural)]
pub enum Directive {
    Input,
    Output,
    Pipe,
    Dump,
    Layer,
    Pass,
    Blur,
    Contrast,
    Invert,
    Unrecognized,
}

/// Why a token stream does not describe a pipeline. Each variant carries the
/// position of the offending token.
#[derive(Debug, Clone, Copy, PartialEq, Eq, Structural)]
pub enum BuildError {
    /// The directive at this position needs a following token and has none.
    MissingArgument(usize),
    /// The token at this position is not a number.
    InvalidArgument(usize),
    /// The token at this position is no directive.
    UnrecognizedDirective(usize),
}

/// A parsed pipeline: its configuration and its layers, the first of which
/// always exists.
#[derive(Debug)]
pub struct Pipeline {
    pub config: Configuration,
    pub layers: Vec<Layer>,
}

/// Mathematical model of a [`Pipeline`].
pub struct PipelineModel {
    pub input: InputModel,
    pub output: OutputModel,
    pub layers: Seq<Seq<Effect>>,
}

impl View for Pipeline {
    type V = PipelineModel;

    open spec fn view(&self) -> PipelineModel {
        PipelineModel {
            input: self.config.input@,
            output: self.config.output@,
            layers: chains_of(self.layers@),
        }
    }
}

/// Whether `c` has Unicode's White_Space property.
pub open spec fn is_white_space(c: char) -> bool {
    let n = c as u32;
    ||| 0x9 <= n <= 0xd
    ||| n == 0x20
    ||| n == 0x85
    ||| n == 0xa0
    ||| n == 0x1680
    ||| 0x2000 <= n <= 0x200a
    ||| n == 0x2028
    ||| n == 0x2029
    ||| n == 0x202f
    ||| n == 0x205f
    ||| n == 0x3000
}

/// `s` without its leading white space.
pub open spec fn trim_start(s: Seq<char>) -> Seq<char>
    decreases s.len(),
{
    if s.len() > 0 && is_white_space(s[0]) {
        trim_start(s.drop_first())
    } else {
        s
    }
}

/// `s` without its trailing white space.
pub open spec fn trim_end(s: Seq<char>) -> Seq<char>
    decreases s.len(),
{
    if s.len() > 0 && is_white_space(s.last()) {
        trim_end(s.drop_last())
    } else {
        s
    }
}

/// `s` without its leading and trailing white space.
pub open spec fn trimmed(s: Seq<char>) -> Seq<char> {
    trim_end(trim_start(s))
}

pub open spec fn directive_of(t: Seq<char>) -> Directive {
    if t == "-i"@ {
        Directive::Input
    } else if t == "-o"@ {
        Directive::Output
    } else if t == "-pipe"@ {
        Directive::Pipe
    } else if t == "-dump"@ {
        Directive::Dump
    } else if t == "-layer"@ {
        Directive::Layer
    } else if t == "-pass"@ {
        Directive::Pass
    } else if t == "-blur"@ {
        Directive::Blur
    } else if t == "-contrast"@ {
        Directive::Contrast
    } else if t == "-invert"@ {
        Directive::Invert
    } else {
        Directive::Unrecognized
    }
}

pub open spec fn takes_argument(d: Directive) -> bool {
    d == Directive::Input || d == Directive::Output || d == Directive::Blur || d
        == Directive::Contrast
}

/// Whether a single-precision bit pattern is finite: its exponent bits are
/// not all ones (which would make it an infinity or NaN).
pub open spec fn is_finite_bits(x: u32) -> bool {
    x & 0x7f80_0000u32 != 0x7f80_0000u32
}

/// Whether the single-precision value with bit pattern `x` is finite.
pub fn finite_bits(x: u32) -> (r: bool)
    ensures
        r == is_finite_bits(x),
{
    x & 0x7f80_0000u32 != 0x7f80_0000u32
}

/// The state of a left-to-right pass over the tokens.
pub struct BuildState {
    /// The path of the last `-i` read so far.
    pub pending: Option<Seq<char>>,
    pub input: InputModel,
    pub output: OutputModel,
    /// The effect chains; the last one is the current layer.
    pub layers: Seq<Seq<Effect>>,
}

pub open spec fn initial_state() -> BuildState {
    BuildState {
        pending: None,
        input: InputModel::Path(None),
        output: OutputModel::Dump,
        layers: seq![Seq::<Effect>::empty()],
    }
}

/// Appends an effect to the current layer.
pub open spec fn push_effect(st: BuildState, e: Effect) -> BuildState {
    BuildState {
        layers: st.layers.update(st.layers.len() - 1, st.layers.last().push(e)),
        ..st
    }
}

/// Reads the (trimmed) tokens from position `i` on; `nums[k]` is the
/// number that token `k` spells, if any.
pub open spec fn run(
    toks: Seq<Seq<char>>,
    nums: Seq<Option<u32>>,
    i: int,
    st: BuildState,
) -> Result<BuildState, BuildError>
    decreases toks.len() - i,
{
    if i < 0 || i >= toks.len() {
        Ok(st)
    } else {
        let d = directive_of(toks[i]);
        if takes_argument(d) && i + 1 >= toks.len() {
            Err(BuildError::MissingArgument(i as usize))
        } else {
            match d {
                Directive::Input => run(toks, nums, i + 2, BuildState { pending: Some(toks[i + 1]), ..st }),
                Directive::Output => run(
                    toks,
                    nums,
                    i + 2,
                    BuildState { output: OutputModel::Path(toks[i + 1]), ..st },
                ),
                Directive::Pipe => run(toks, nums, i + 1, BuildState { input: InputModel::Pipe, ..st }),
                Directive::Dump => run(toks, nums, i + 1, BuildState { output: OutputModel::Dump, ..st }),
                Directive::Layer => run(
                    toks,
                    nums,
                    i + 1,
                    BuildState { layers: st.layers.push(Seq::<Effect>::empty()), ..st },
                ),
                Directive::Pass => run(toks, nums, i + 1, push_effect(st, Effect::Pass)),
                Directive::Blur => match nums[i + 1] {
                    Some(x) => if is_finite_bits(x) {
                        run(toks, nums, i + 2, push_effect(st, Effect::Blur(x)))
                    } else {
                        Err(BuildError::InvalidArgument((i + 1) as usize))
                    },
                    None => Err(BuildError::InvalidArgument((i + 1) as usize)),
                },
                Directive::Contrast => match nums[i + 1] {
                    Some(x) => if is_finite_bits(x) {
                        run(toks, nums, i + 2, push_effect(st, Effect::Contrast(x)))
                    } else {
                        Err(BuildError::InvalidArgument((i + 1) as usize))
                    },
                    None => Err(BuildError::InvalidArgument((i + 1) as usize)),
                },
                Directive::Invert => run(toks, nums, i + 1, push_effect(st, Effect::Invert)),
                Directive::Unrecognized => Err(BuildError::UnrecognizedDirective(i as usize)),
            }
        }
    }
}

/// End of input: a path given with `-i` wins over `-pipe`.
pub open spec fn finish(st: BuildState) -> PipelineModel {
    PipelineModel {
        input: match st.pending {
            Some(p) => InputModel::Path(Some(p)),
            None => st.input,
        },
        output: st.output,
        layers: st.layers,
    }
}

/// The pipeline that trimmed tokens `toks` describe.
pub open spec fn parse(toks: Seq<Seq<char>>, nums: Seq<Option<u32>>) -> Result<PipelineModel, BuildError> {
    match run(toks, nums, 0, initial_state()) {
        Ok(st) => Ok(finish(st)),
        Err(e) => Err(e),
    }
}

/// The tokens after trimming.
pub open spec fn trimmed_tokens(tokens: Seq<String>) -> Seq<Seq<char>> {
    tokens.map_values(|t: String| trimmed(t@))
}

/// Relies on `str::trim`: removes the leading and trailing characters that
/// have Unicode's White_Space property.
#[verifier::external_body]
fn trim_token(t: &String) -> (r: String)
    ensures
        r@ == trimmed(t@),
{
    t.trim().to_string()
}

fn same(t: &String, lit: &str) -> (r: bool)
    ensures
        r == (t@ == lit@),
{
    let l = lit.to_owned();
    t.eq(&l)
}

/// Which directive the token `t` names.
pub fn classify(t: &String) -> (d: Directive)
    ensures
        d == directive_of(t@),
{
    if same(t, "-i") {
        Directive::Input
    } else if same(t, "-o") {
        Directive::Output
    } else if same(t, "-pipe") {
        Directive::Pipe
    } else if same(t, "-dump") {
        Directive::Dump
    } else if same(t, "-layer") {
        Directive::Layer
    } else if same(t, "-pass") {
        Directive::Pass
    } else if same(t, "-blur") {
        Directive::Blur
    } else if same(t, "-contrast") {
        Directive::Contrast
    } else if same(t, "-invert") {
        Directive::Invert
    } else {
        Directive::Unrecognized
    }
}

pub open spec fn path_view(p: Option<String>) -> Option<Seq<char>> {
    match p {
        Some(s) => Some(s@),
        None => None,
    }
}

/// The pass state held by the executable builder.
pub open spec fn state_of(
    pending: Option<String>,
    input: Input,
    output: Output,
    done: Seq<Layer>,
    current: Seq<Effect>,
) -> BuildState {
    BuildState {
        pending: path_view(pending),
        input: input@,
        output: output@,
        layers: chains_of(done).push(current),
    }
}

/// The characters of each token.
pub open spec fn token_views(toks: Seq<String>) -> Seq<Seq<char>> {
    toks.map_values(|t: String| t@)
}

/// Builds the pipeline that `tokens` describe. Each token is trimmed first;
/// `numbers[k]` is the bit pattern of the single-precision number that the
/// trimmed token `k` spells, or `None` where it spells none. A blur or
/// contrast argument must spell a finite number.
pub fn build(tokens: &Vec<String>, numbers: &Vec<Option<u32>>) -> (r: Result<Pipeline, BuildError>)
    requires
        numbers.len() == tokens.len(),
    ensures
        match r {
            Ok(p) => parse(trimmed_tokens(tokens@), numbers@) == Ok::<PipelineModel, BuildError>(p@)
                && p.layers.len() >= 1,
            Err(e) => parse(trimmed_tokens(tokens@), numbers@) == Err::<PipelineModel, BuildError>(e),
        },
{
    let n = tokens.len();
    let mut toks: Vec<String> = Vec::new();
    let mut k: usize = 0;
    while k < n
        invariant
            n == tokens.len(),
            k <= n,
            toks.len() == k,
            forall|j: int| 0 <= j < k ==> #[trigger] toks@[j]@ == trimmed(tokens@[j]@),
        decreases n - k,
    {
        let t = trim_token(&tokens[k]);
        toks.push(t);
        k = k + 1;
    }
    assert(token_views(toks@) =~= trimmed_tokens(tokens@));
    build_trimmed(&toks, numbers)
}

/// Builds the pipeline that the already trimmed tokens `toks` describe;
/// `numbers[k]` is the bit pattern of the number that `toks[k]` spells, if
/// any.
pub fn build_trimmed(toks: &Vec<String>, numbers: &Vec<Option<u32>>) -> (r: Result<Pipeline, BuildError>)
    requires
        numbers.len() == toks.len(),
    ensures
        match r {
            Ok(p) => parse(token_views(toks@), numbers@) == Ok::<PipelineModel, BuildError>(p@)
                && p.layers.len() >= 1,
            Err(e) => parse(token_views(toks@), numbers@) == Err::<PipelineModel, BuildError>(e),
        },
{
    let n = toks.len();
    let ghost tv = token_views(toks@);
    let mut pending: Option<String> = None;
    let mut input = Input::Path(None);
    let mut output = Output::Dump;
    let mut done: Vec<Layer> = Vec::new();
    let mut current: Vec<Effect> = Vec::new();
    assert(chains_of(done@).push(current@) =~= seq![Seq::<Effect>::empty()]);
    let mut i: usize = 0;
    while i < n
        invariant
            n == toks.len(),
            n == numbers.len(),
            i <= n,
            tv == token_views(toks@),
            tv.len() == n,
            forall|j: int| 0 <= j < n ==> #[trigger] tv[j] == toks@[j]@,
            run(tv, numbers@, 0, initial_state()) == run(
                tv,
                numbers@,
                i as int,
                state_of(pending, input, output, done@, current@),
            ),
        decreases n - i,
    {
        let ghost st = state_of(pending, input, output, done@, current@);
        let d = classify(&toks[i]);
        assert(d == directive_of(tv[i as int]));
        if (d == Directive::Input || d == Directive::Output || d == Directive::Blur || d
            == Directive::Contrast) && i + 1 >= n {
            assert(run(tv, numbers@, i as int, st) == Err::<BuildState, BuildError>(
                BuildError::MissingArgument(i),
            ));
            return Err(BuildError::MissingArgument(i));
        }
        match d {
            Directive::Input => {
                pending = Some(toks[i + 1].clone());
                i = i + 2;
            },
            Directive::Output => {
                output = Output::Path(toks[i + 1].clone());
                i = i + 2;
            },
            Directive::Pipe => {
                input = Input::Pipe;
                i = i + 1;
            },
            Directive::Dump => {
                output = Output::Dump;
                i = i + 1;
            },
            Directive::Layer => {
                let mut finished = Layer::new();
                finished.effect_chain = current;
                done.push(finished);
                current = Vec::new();
                assert(chains_of(done@).push(current@) =~= st.layers.push(Seq::<Effect>::empty()));
                i = i + 1;
            },
            Directive::Pass => {
                current.push(Effect::Pass);
                assert(chains_of(done@).push(current@) =~= push_effect(st, Effect::Pass).layers);
                i = i + 1;
            },
            Directive::Blur => {
                match numbers[i + 1] {
                    Some(x) => {
                        if !finite_bits(x) {
                            return Err(BuildError::InvalidArgument(i + 1));
                        }
                        current.push(Effect::Blur(x));
                        assert(chains_of(done@).push(current@) =~= push_effect(
                            st,
                            Effect::Blur(x),
                        ).layers);
                        i = i + 2;
                    },
                    None => {
                        return Err(BuildError::InvalidArgument(i + 1));
                    },
                }
            },
            Directive::Contrast => {
                match numbers[i + 1] {
                    Some(x) => {
                        if !finite_bits(x) {
                            return Err(BuildError::InvalidArgument(i + 1));
                        }
                        current.push(Effect::Contrast(x));
                        assert(chains_of(done@).push(current@) =~= push_effect(
                            st,
                            Effect::Contrast(x),
                        ).layers);
                        i = i + 2;
                    },
                    None => {
                        return Err(BuildError::InvalidArgument(i + 1));
                    },
                }
            },
            Directive::Invert => {
                current.push(Effect::Invert);
                assert(chains_of(done@).push(current@) =~= push_effect(st, Effect::Invert).layers);
                i = i + 1;
            },
            Directive::Unrecognized => {
                return Err(BuildError::UnrecognizedDirective(i));
            },
        }
    }
    let ghost last = state_of(pending, input, output, done@, current@);
    match pending {
        Some(p) => {
            input = Input::Path(Some(p));
        },
        None => {},
    }
    let mut finished = Layer::new();
    finished.effect_chain = current;
    done.push(finished);
    assert(chains_of(done@) =~= last.layers);
    Ok(Pipeline { config: Configuration { input, output }, layers: done })
}

} // verus!
