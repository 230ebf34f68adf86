//! A source text and the name it goes by.

use vstd::prelude::*;
use vstd::string::StringExecFns;

verus! {

/// A source text with its name.
pub struct Source {
    name: String,
    text: String,
}

/// What a source holds, as plain values.
pub struct SourceView {
    pub name: Seq<char>,
    pub text: Seq<char>,
}

impl View for Source {
    type V = SourceView;

    closed spec fn view(&self) -> SourceView {
        SourceView { name: self.name@, text: self.text@ }
    }
}

impl Source {
    pub fn new(name: String, text: String) -> (source: Self)
        ensures
            source@.name == name@,
            source@.text == text@,
    {
        Self { name, text }
    }

    pub fn name(&self) -> (name: &str)
        ensures
            name@ == self@.name,
    {
        self.name.as_str()
    }

    pub fn text(&self) -> (text: &str)
        ensures
            text@ == self@.text,
    {
        self.text.as_str()
    }
}

/// A source typed at the prompt: it goes by the name `REPL`.
pub fn from_repl_input(input: &str) -> (source: Source)
    ensures
        source@.name == "REPL"@,
        source@.text == input@,
{
    Source::new(String::from_str("REPL"), String::from_str(input))
}

} // verus!
