use vstd::prelude::*;

verus! {

/// A terminal error, with its message.
#[derive(Debug)]
pub enum Error {
    Parsing(String),
}

impl Error {
    pub open spec fn msg(self) -> Seq<char> {
        match self {
            Error::Parsing(m) => m@,
        }
    }

    /// The error's message.
    pub fn message(&self) -> (r: String)
        ensures
            r@ == self.msg(),
    {
        match self {
            Error::Parsing(m) => m.clone(),
        }
    }
}

} // verus!
