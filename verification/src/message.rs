//! What is told to the user.

use vstd::prelude::*;

verus! {

/// Where a message goes.
#[derive(Debug, Clone, Copy, PartialEq, Eq, Structural)]
pub enum Stream {
    Stdout,
    Stderr,
}

/// One line for the user. The text type `T` is `String` in programs and `Seq<char>`
/// in specifications.
#[derive(Debug, PartialEq, Eq)]
pub struct Message<T = String> {
    pub stream: Stream,
    pub text: T,
}

impl DeepView for Message {
    type V = Message<Seq<char>>;

    open spec fn deep_view(&self) -> Message<Seq<char>> {
        Message { stream: self.stream, text: self.text@ }
    }
}

} // verus!
