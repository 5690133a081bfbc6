//! A structured output buffer for the token-oriented backend: text is only
//! ever appended, so every rendering step extends the buffer.

use vstd::prelude::*;

verus! {

/// An append-only token buffer. Its view is the character sequence written so
/// far.
#[derive(Debug)]
pub struct TokenStream {
    text: String,
}

impl View for TokenStream {
    type V = Seq<char>;

    closed spec fn view(&self) -> Seq<char> {
        self.text@
    }
}

impl TokenStream {
    pub fn new() -> (r: TokenStream)
        ensures
            r@ == Seq::<char>::empty(),
    {
        TokenStream { text: String::new() }
    }

    /// Appends raw text.
    pub fn push_str(&mut self, s: &str)
        ensures
            final(self)@ == old(self)@ + s@,
    {
        self.text.append(s);
    }

    /// Appends everything another stream holds.
    pub fn combine(&mut self, other: &TokenStream)
        ensures
            final(self)@ == old(self)@ + other@,
    {
        self.text.append(other.text.as_str());
    }

    /// The accumulated text.
    pub fn into_string(self) -> (r: String)
        ensures
            r@ == self@,
    {
        self.text
    }

    pub fn as_str(&self) -> (r: &str)
        ensures
            r@ == self@,
    {
        self.text.as_str()
    }
}

} // verus!
