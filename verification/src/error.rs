use vstd::prelude::*;

verus! {

/// The failure value of checked construction and revalidation.
///
/// It carries the rejected text, so the caller can recover or report the
/// original data. Its view is the sequence of characters of that text.
#[derive(Debug)]
pub struct FromSourceError {
    source: String,
}

impl View for FromSourceError {
    type V = Seq<char>;

    closed spec fn view(&self) -> Seq<char> {
        self.source@
    }
}

impl FromSourceError {
    /// Wraps the rejected text in a new failure value.
    pub fn new(source: String) -> (r: FromSourceError)
        ensures
            r@ == source@,
    {
        FromSourceError { source }
    }

    /// Borrows the rejected text.
    pub fn source(&self) -> (r: &str)
        ensures
            r@ == self@,
    {
        self.source.as_str()
    }

    /// Recovers the rejected text by value.
    pub fn into_source(self) -> (r: String)
        ensures
            r@ == self@,
    {
        self.source
    }
}

} // verus!
