use vstd::prelude::*;

verus! {

/// Where the source image is read from.
#[derive(Debug, Clone, PartialEq, Eq)]
pub enum Input {
    Pipe,
    Path(Option<String>),
}

/// Where the encoded result is written.
#[derive(Debug, Clone, PartialEq, Eq)]
pub enum Output {
    Dump,
    Path(String),
}

/// Mathematical model of [`Input`].
pub enum InputModel {
    Pipe,
    Path(Option<Seq<char>>),
}

/// Mathematical model of [`Output`].
pub enum OutputModel {
    Dump,
    Path(Seq<char>),
}

impl View for Input {
    type V = InputModel;

    open spec fn view(&self) -> InputModel {
        match self {
            Input::Pipe => InputModel::Pipe,
            Input::Path(None) => InputModel::Path(None),
            Input::Path(Some(p)) => InputModel::Path(Some(p@)),
        }
    }
}

impl View for Output {
    type V = OutputModel;

    open spec fn view(&self) -> OutputModel {
        match self {
            Output::Dump => OutputModel::Dump,
            Output::Path(p) => OutputModel::Path(p@),
        }
    }
}

/// The source and sink of one run.
#[derive(Debug, Clone, PartialEq, Eq)]
pub struct Configuration {
    pub input: Input,
    pub output: Output,
}

impl Configuration {
    /// No input path yet, output to standard output.
    pub fn new() -> (r: Configuration)
        ensures
            r.input@ == InputModel::Path(None),
            r.output@ == OutputModel::Dump,
    {
        Configuration { input: Input::Path(None), output: Output::Dump }
    }
}

} // verus!
