//! Errors as a message and the messages of what caused it.
use vstd::prelude::*;

verus! {

/// A message and its causes, the nearest cause first.
#[derive(Debug)]
pub struct ErrorChain {
    pub message: String,
    pub causes: Vec<String>,
}

impl View for ErrorChain {
    type V = Seq<Seq<char>>;

    open spec fn view(&self) -> Seq<Seq<char>> {
        seq![self.message@] + self.causes.deep_view()
    }
}

impl DeepView for ErrorChain {
    type V = Seq<Seq<char>>;

    open spec fn deep_view(&self) -> Seq<Seq<char>> {
        self@
    }
}

impl ErrorChain {
    /// An error without a cause.
    pub fn msg(message: String) -> (r: Self)
        ensures
            r@ == seq![message@],
            r.message@ == message@,
    {
        let r = ErrorChain { message, causes: Vec::new() };
        assert(r@ == seq![message@]);
        r
    }

    /// The error with a message put in front; what it was is now the cause.
    pub fn context(self, message: String) -> (r: Self)
        ensures
            r@ == seq![message@] + self@,
            r.message@ == message@,
    {
        let ghost chain = self@;
        let mut causes = self.causes;
        causes.insert(0, self.message);
        let r = ErrorChain { message, causes };
        assert(r@ == seq![message@] + chain);
        r
    }
}

} // verus!
