//! Where a program's source text comes from.

use vstd::prelude::*;

verus! {

/// A program given as text, or the path of the file that holds it.
#[derive(Debug, PartialEq, Eq)]
pub enum ProgramSource {
    Literal(String),
    File(String),
}

/// A program's source as a mathematical value.
pub enum ProgramSourceView {
    Literal(Seq<char>),
    File(Seq<char>),
}

impl View for ProgramSource {
    type V = ProgramSourceView;

    open spec fn view(&self) -> ProgramSourceView {
        match self {
            ProgramSource::Literal(s) => ProgramSourceView::Literal(s@),
            ProgramSource::File(s) => ProgramSourceView::File(s@),
        }
    }
}

impl ProgramSourceView {
    /// How the source is described to a reader.
    pub open spec fn description(self) -> Seq<char> {
        match self {
            ProgramSourceView::File(path) => "file "@ + path,
            ProgramSourceView::Literal(text) => "literal string '"@ + text + "'"@,
        }
    }
}

impl ProgramSource {
    /// How the source is described to a reader.
    pub fn to_string(&self) -> (s: String)
        ensures
            s@ == self@.description(),
    {
        match self {
            ProgramSource::File(path) => {
                let mut s = String::from_str("file ");
                s.append(path.as_str());
                s
            },
            ProgramSource::Literal(text) => {
                let mut s = String::from_str("literal string '");
                s.append(text.as_str());
                s.append("'");
                s
            },
        }
    }
}

} // verus!
