//! What a message is built into.

use vstd::prelude::*;

verus! {

/// The kinds of output that a message can be built into.
#[derive(Clone, Copy, Debug, PartialEq, Eq, Structural)]
pub enum OutputType {
    String,
}

/// Something that can be built into text: a finished text, which is its own
/// result, or a message whose arguments are all bound.
pub trait BuildStr: Sized {
    /// The text that this value stands for.
    spec fn built(&self) -> Seq<char>;

    /// Completes the value. Nothing changes.
    fn build(self) -> (r: Self)
        ensures
            r.built() == self.built(),
    ;

    /// Completes the value for display. Nothing changes.
    fn build_display(self) -> (r: Self)
        ensures
            r.built() == self.built(),
    ;

    /// The text that this value stands for.
    fn build_string(self) -> (r: String)
        ensures
            r@ == self.built(),
    ;
}

impl BuildStr for &'static str {
    open spec fn built(&self) -> Seq<char> {
        self@
    }

    fn build(self) -> (r: Self) {
        self
    }

    fn build_display(self) -> (r: Self) {
        self
    }

    fn build_string(self) -> (r: String) {
        self.to_owned()
    }
}

} // verus!
