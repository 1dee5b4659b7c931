use vstd::prelude::*;

verus! {

/// A positioned failure report: the byte span of the token that was active
/// when the failure was detected, or no span when there was none (the stream
/// was exhausted or not yet started), together with a descriptive message.
#[derive(Debug, Clone, PartialEq)]
pub struct Error {
    /// Byte offset of the token active at failure time, when one was.
    pub index: Option<usize>,
    /// Byte length of that token, when one was.
    pub len: Option<usize>,
    /// What went wrong, in words.
    pub msg: String,
}

impl Error {
    /// Builds an error from its parts.
    pub fn new(index: Option<usize>, len: Option<usize>, msg: String) -> (r: Self)
        ensures
            r.index == index,
            r.len == len,
            r.msg == msg,
    {
        Self { index, len, msg }
    }
}

} // verus!
