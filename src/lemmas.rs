use vstd::prelude::*;

use crate::builder::{
    directive_of, is_white_space, parse, push_effect, run, takes_argument, trimmed, BuildError,
    BuildState, Directive, PipelineModel,
};
use crate::config::{InputModel, OutputModel};
use crate::effect::{Effect, Layer};
use crate::executor::{chain_run, layer_ran, layer_steps, step_relates, steps_of, Step};

verus! {

/// The directives read by a pass from position `i` on, in order; the tokens
/// consumed as arguments are skipped.
pub open spec fn directives_from(toks: Seq<Seq<char>>, i: int) -> Seq<Directive>
    decreases toks.len() - i,
{
    if i < 0 || i >= toks.len() {
        Seq::empty()
    } else {
        let d = directive_of(toks[i]);
        if takes_argument(d) {
            if i + 1 < toks.len() {
                seq![d] + directives_from(toks, i + 2)
            } else {
                seq![d]
            }
        } else {
            seq![d] + directives_from(toks, i + 1)
        }
    }
}

/// How often `d` occurs in `ds`.
pub open spec fn count_of(ds: Seq<Directive>, d: Directive) -> nat
    decreases ds.len(),
{
    if ds.len() == 0 {
        0
    } else {
        (if ds[0] == d { 1nat } else { 0nat }) + count_of(ds.drop_first(), d)
    }
}

proof fn lemma_run_counts(toks: Seq<Seq<char>>, nums: Seq<Option<u32>>, i: int, st: BuildState)
    requires
        run(toks, nums, i, st) is Ok,
        st.layers.len() >= 1,
    ensures
        run(toks, nums, i, st)->Ok_0.layers.len() == st.layers.len() + count_of(
            directives_from(toks, i),
            Directive::Layer,
        ),
        (st.pending is Some || count_of(directives_from(toks, i), Directive::Input) > 0)
            ==> run(toks, nums, i, st)->Ok_0.pending is Some,
    decreases toks.len() - i,
{
    if i < 0 || i >= toks.len() {
    } else {
        let d = directive_of(toks[i]);
        let next = if takes_argument(d) { i + 2 } else { i + 1 };
        let ds = directives_from(toks, i);
        assert(ds.drop_first() =~= directives_from(toks, next));
        match d {
            Directive::Input => {
                lemma_run_counts(toks, nums, next, BuildState { pending: Some(toks[i + 1]), ..st });
            },
            Directive::Output => {
                lemma_run_counts(
                    toks,
                    nums,
                    next,
                    BuildState { output: OutputModel::Path(toks[i + 1]), ..st },
                );
            },
            Directive::Pipe => {
                lemma_run_counts(toks, nums, next, BuildState { input: InputModel::Pipe, ..st });
            },
            Directive::Dump => {
                lemma_run_counts(toks, nums, next, BuildState { output: OutputModel::Dump, ..st });
            },
            Directive::Layer => {
                lemma_run_counts(
                    toks,
                    nums,
                    next,
                    BuildState { layers: st.layers.push(Seq::<Effect>::empty()), ..st },
                );
            },
            Directive::Pass => {
                lemma_run_counts(toks, nums, next, push_effect(st, Effect::Pass));
            },
            Directive::Blur => {
                lemma_run_counts(toks, nums, next, push_effect(st, Effect::Blur(nums[i + 1]->Some_0)));
            },
            Directive::Contrast => {
                lemma_run_counts(
                    toks,
                    nums,
                    next,
                    push_effect(st, Effect::Contrast(nums[i + 1]->Some_0)),
                );
            },
            Directive::Invert => {
                lemma_run_counts(toks, nums, next, push_effect(st, Effect::Invert));
            },
            Directive::Unrecognized => {},
        }
    }
}

/// Each `-layer` directive adds one layer to the one that always exists.
pub proof fn lemma_layer_count(toks: Seq<Seq<char>>, nums: Seq<Option<u32>>)
    requires
        parse(toks, nums) is Ok,
    ensures
        parse(toks, nums)->Ok_0.layers.len() == 1 + count_of(
            directives_from(toks, 0),
            Directive::Layer,
        ),
{
    lemma_run_counts(toks, nums, 0, crate::builder::initial_state());
}

/// A path given with `-i` decides the input, wherever `-pipe` stands.
pub proof fn lemma_path_beats_pipe(toks: Seq<Seq<char>>, nums: Seq<Option<u32>>)
    requires
        parse(toks, nums) is Ok,
        count_of(directives_from(toks, 0), Directive::Input) > 0,
    ensures
        parse(toks, nums)->Ok_0.input matches InputModel::Path(Some(_)),
{
    lemma_run_counts(toks, nums, 0, crate::builder::initial_state());
}

/// In the steps that `apply_effects` performs, the buffer of the first layer,
/// the one emitted, is touched by the first layer's chain alone, before any
/// other layer is processed: later layers cannot change the output.
pub proof fn lemma_output_ignores_later_layers(chains: Seq<Seq<Effect>>)
    requires
        chains.len() >= 1,
        chains.len() <= usize::MAX,
    ensures
        steps_of(chains).len() >= chains[0].len(),
        steps_of(chains).take(chains[0].len() as int) == layer_steps(0, chains[0]),
        forall|k: int|
            chains[0].len() <= k < steps_of(chains).len() ==> #[trigger] steps_of(chains)[k].layer
                != 0,
    decreases chains.len(),
{
    let s = steps_of(chains);
    if chains.len() == 1 {
        assert(chains.drop_last() =~= Seq::<Seq<Effect>>::empty());
        assert(steps_of(chains.drop_last()) == Seq::<Step>::empty());
        assert(s =~= layer_steps(0, chains[0]));
        assert(s.take(chains[0].len() as int) =~= layer_steps(0, chains[0]));
    } else {
        let front = chains.drop_last();
        lemma_output_ignores_later_layers(front);
        let a = steps_of(front);
        let b = layer_steps(chains.len() - 1, chains.last());
        assert(s == a + b);
        assert(front[0] == chains[0]);
        assert(s.take(chains[0].len() as int) =~= a.take(chains[0].len() as int));
        assert forall|k: int| chains[0].len() <= k < s.len() implies #[trigger] s[k].layer != 0 by {
            if k >= a.len() {
                assert(s[k] == b[k - a.len()]);
            } else {
                assert(s[k] == a[k]);
            }
        }
    }
}

proof fn lemma_run_extends(
    toks: Seq<Seq<char>>,
    nums: Seq<Option<u32>>,
    toks2: Seq<Seq<char>>,
    nums2: Seq<Option<u32>>,
    i: int,
    st: BuildState,
)
    requires
        run(toks, nums, i, st) is Ok,
        0 <= i <= toks.len(),
        nums.len() == toks.len(),
        toks.len() <= toks2.len(),
        nums2.len() == toks2.len(),
        forall|k: int| 0 <= k < toks.len() ==> toks2[k] == toks[k] && nums2[k] == nums[k],
    ensures
        run(toks2, nums2, i, st) == run(toks2, nums2, toks.len() as int, run(toks, nums, i, st)->Ok_0),
    decreases toks.len() - i,
{
    if i < toks.len() {
        let d = directive_of(toks[i]);
        let next = if takes_argument(d) { i + 2 } else { i + 1 };
        match d {
            Directive::Input => {
                lemma_run_extends(toks, nums, toks2, nums2, next, BuildState { pending: Some(toks[i + 1]), ..st });
            },
            Directive::Output => {
                lemma_run_extends(
                    toks,
                    nums,
                    toks2,
                    nums2,
                    next,
                    BuildState { output: OutputModel::Path(toks[i + 1]), ..st },
                );
            },
            Directive::Pipe => {
                lemma_run_extends(toks, nums, toks2, nums2, next, BuildState { input: InputModel::Pipe, ..st });
            },
            Directive::Dump => {
                lemma_run_extends(toks, nums, toks2, nums2, next, BuildState { output: OutputModel::Dump, ..st });
            },
            Directive::Layer => {
                lemma_run_extends(
                    toks,
                    nums,
                    toks2,
                    nums2,
                    next,
                    BuildState { layers: st.layers.push(Seq::<Effect>::empty()), ..st },
                );
            },
            Directive::Pass => {
                lemma_run_extends(toks, nums, toks2, nums2, next, push_effect(st, Effect::Pass));
            },
            Directive::Blur => {
                lemma_run_extends(
                    toks,
                    nums,
                    toks2,
                    nums2,
                    next,
                    push_effect(st, Effect::Blur(nums[i + 1]->Some_0)),
                );
            },
            Directive::Contrast => {
                lemma_run_extends(
                    toks,
                    nums,
                    toks2,
                    nums2,
                    next,
                    push_effect(st, Effect::Contrast(nums[i + 1]->Some_0)),
                );
            },
            Directive::Invert => {
                lemma_run_extends(toks, nums, toks2, nums2, next, push_effect(st, Effect::Invert));
            },
            Directive::Unrecognized => {},
        }
    }
}

/// After tokens that form a pipeline, a trailing `-blur` is a missing
/// argument, and a `-blur` followed by a token that spells no number is an
/// invalid argument.
pub proof fn lemma_blur_argument_errors(
    toks: Seq<Seq<char>>,
    nums: Seq<Option<u32>>,
    arg: Seq<char>,
    blur_num: Option<u32>,
)
    requires
        parse(toks, nums) is Ok,
        nums.len() == toks.len(),
        toks.len() + 2 <= usize::MAX,
    ensures
        parse(toks.push("-blur"@), nums.push(blur_num)) == Err::<PipelineModel, BuildError>(
            BuildError::MissingArgument(toks.len() as usize),
        ),
        parse(toks.push("-blur"@).push(arg), nums.push(blur_num).push(None)) == Err::<
            PipelineModel,
            BuildError,
        >(BuildError::InvalidArgument((toks.len() + 1) as usize)),
{
    reveal_strlit("-i");
    reveal_strlit("-o");
    reveal_strlit("-pipe");
    reveal_strlit("-dump");
    reveal_strlit("-layer");
    reveal_strlit("-pass");
    reveal_strlit("-blur");
    assert("-blur"@.len() == 5 && "-i"@.len() == 2 && "-o"@.len() == 2 && "-layer"@.len() == 6);
    assert("-blur"@[1] == 'b' && "-pipe"@[1] == 'p' && "-dump"@[1] == 'd' && "-pass"@[1] == 'p');
    assert("-blur"@[1] != "-pipe"@[1] && "-blur"@[1] != "-dump"@[1] && "-blur"@[1] != "-pass"@[1]);
    assert(directive_of("-blur"@) == Directive::Blur);
    let st = crate::builder::initial_state();
    let t1 = toks.push("-blur"@);
    let n1 = nums.push(blur_num);
    lemma_run_extends(toks, nums, t1, n1, 0, st);
    let t2 = t1.push(arg);
    let n2 = n1.push(None);
    lemma_run_extends(toks, nums, t2, n2, 0, st);
    assert(t2[toks.len() as int] == "-blur"@);
    assert(n2[toks.len() + 1int] == None::<u32>);
}

/// A `Pass` inserted anywhere in a chain changes nothing. Each run of the
/// longer chain, with the buffer that the `Pass` repeats dropped, is a run of
/// the shorter chain from the same buffer to the same buffer; and each run of
/// the shorter chain, with that buffer repeated, is a run of the longer one.
pub proof fn lemma_pass_changes_nothing<B, C>(
    blur: B,
    contrast: C,
    chain: Seq<Effect>,
    i: int,
    long_run: Seq<image::DynamicImage>,
    short_run: Seq<image::DynamicImage>,
)
    where
        B: Fn(&image::DynamicImage, u32) -> image::DynamicImage,
        C: Fn(&image::DynamicImage, u32) -> image::DynamicImage,
    requires
        0 <= i <= chain.len(),
    ensures
        chain_run(blur, contrast, long_run, chain.insert(i, Effect::Pass)) ==> {
            &&& chain_run(blur, contrast, long_run.remove(i + 1), chain)
            &&& long_run.remove(i + 1)[0] == long_run[0]
            &&& long_run.remove(i + 1).last() == long_run.last()
        },
        chain_run(blur, contrast, short_run, chain) ==> {
            &&& chain_run(blur, contrast, short_run.insert(i, short_run[i]), chain.insert(i, Effect::Pass))
            &&& short_run.insert(i, short_run[i])[0] == short_run[0]
            &&& short_run.insert(i, short_run[i]).last() == short_run.last()
        },
{
    reveal(chain_run);
    let long_chain = chain.insert(i, Effect::Pass);
    if chain_run(blur, contrast, long_run, long_chain) {
        let b = long_run.remove(i + 1);
        assert(step_relates(blur, contrast, long_chain[i], long_run[i], long_run[i + 1]));
        assert forall|j: int| 0 <= j < chain.len() implies #[trigger] step_relates(
            blur,
            contrast,
            chain[j],
            b[j],
            b[j + 1],
        ) by {
            if j < i {
                assert(long_chain[j] == chain[j]);
                assert(step_relates(blur, contrast, long_chain[j], long_run[j], long_run[j + 1]));
            } else {
                let jj = j + 1;
                assert(long_chain[jj] == chain[j]);
                assert(step_relates(blur, contrast, long_chain[jj], long_run[jj], long_run[jj + 1]));
            }
        }
    }
    if chain_run(blur, contrast, short_run, chain) {
        let b = short_run.insert(i, short_run[i]);
        assert forall|j: int| 0 <= j < long_chain.len() implies #[trigger] step_relates(
            blur,
            contrast,
            long_chain[j],
            b[j],
            b[j + 1],
        ) by {
            if j < i {
                assert(long_chain[j] == chain[j]);
                assert(step_relates(blur, contrast, chain[j], short_run[j], short_run[j + 1]));
            } else if j > i {
                let jj = j - 1;
                assert(long_chain[j] == chain[jj]);
                assert(step_relates(blur, contrast, chain[jj], short_run[jj], short_run[jj + 1]));
            }
        }
    }
}

/// A token that neither starts nor ends with white space is its own trim.
pub proof fn lemma_clean_token_untrimmed(s: Seq<char>)
    requires
        s.len() == 0 || (!is_white_space(s[0]) && !is_white_space(s.last())),
    ensures
        trimmed(s) == s,
{
}

/// Whether `f` gives at most one buffer for each buffer and parameter.
pub open spec fn gives_one_result<F>(f: F) -> bool
    where
        F: Fn(&image::DynamicImage, u32) -> image::DynamicImage,
{
    forall|img: &image::DynamicImage, x: u32, o1: image::DynamicImage, o2: image::DynamicImage|
        #[trigger] f.ensures((img, x), o1) && #[trigger] f.ensures((img, x), o2) ==> o1 == o2
}

proof fn lemma_runs_agree_upto<B, C>(
    blur: B,
    contrast: C,
    chain: Seq<Effect>,
    a: Seq<image::DynamicImage>,
    b: Seq<image::DynamicImage>,
    j: int,
)
    where
        B: Fn(&image::DynamicImage, u32) -> image::DynamicImage,
        C: Fn(&image::DynamicImage, u32) -> image::DynamicImage,
    requires
        gives_one_result(blur),
        gives_one_result(contrast),
        chain_run(blur, contrast, a, chain),
        chain_run(blur, contrast, b, chain),
        a[0] == b[0],
        0 <= j <= chain.len(),
    ensures
        a[j] == b[j],
    decreases j,
{
    if j > 0 {
        let i = j - 1;
        lemma_runs_agree_upto(blur, contrast, chain, a, b, i);
        reveal(chain_run);
        assert(step_relates(blur, contrast, chain[i], a[i], a[i + 1]));
        assert(step_relates(blur, contrast, chain[i], b[i], b[i + 1]));
        match chain[i] {
            Effect::Blur(x) => {
                assert(blur.ensures((&a[i], x), a[i + 1]));
                assert(blur.ensures((&a[i], x), b[i + 1]));
            },
            Effect::Contrast(x) => {
                assert(contrast.ensures((&a[i], x), a[i + 1]));
                assert(contrast.ensures((&a[i], x), b[i + 1]));
            },
            _ => {},
        }
    }
}

/// Later layers never change the output. Where the filters give one buffer
/// for each input, two runs whose first layers start alike (same buffer,
/// same chain) end with the same first buffer, whatever their other layers
/// hold; the emitted bytes are that buffer's encoding.
pub proof fn lemma_output_only_from_first_layer<B, C>(
    blur: B,
    contrast: C,
    before1: Seq<Layer>,
    after1: Seq<Layer>,
    before2: Seq<Layer>,
    after2: Seq<Layer>,
)
    where
        B: Fn(&image::DynamicImage, u32) -> image::DynamicImage,
        C: Fn(&image::DynamicImage, u32) -> image::DynamicImage,
    requires
        gives_one_result(blur),
        gives_one_result(contrast),
        before1.len() >= 1,
        before2.len() >= 1,
        after1.len() == before1.len(),
        after2.len() == before2.len(),
        forall|k: int| 0 <= k < before1.len() ==> #[trigger] layer_ran(blur, contrast, before1[k], after1[k]),
        forall|k: int| 0 <= k < before2.len() ==> #[trigger] layer_ran(blur, contrast, before2[k], after2[k]),
        before1[0].image == before2[0].image,
        before1[0].effect_chain@ == before2[0].effect_chain@,
    ensures
        after1[0].image == after2[0].image,
{
    assert(layer_ran(blur, contrast, before1[0], after1[0]));
    assert(layer_ran(blur, contrast, before2[0], after2[0]));
    let chain = before1[0].effect_chain@;
    let a = choose|bufs: Seq<image::DynamicImage>|
        chain_run(blur, contrast, bufs, chain) && bufs[0] == before1[0].image && bufs.last()
            == after1[0].image;
    let b = choose|bufs: Seq<image::DynamicImage>|
        chain_run(blur, contrast, bufs, chain) && bufs[0] == before2[0].image && bufs.last()
            == after2[0].image;
    reveal(chain_run);
    lemma_runs_agree_upto(blur, contrast, chain, a, b, chain.len() as int);
}

} // verus!
