use vstd::prelude::*;

verus! {

/// An error meant to be shown to the user as is.
#[derive(Debug)]
pub struct PrintableError {
    pub msg: String,
}

impl PrintableError {
    pub fn new(msg: String) -> (e: PrintableError)
        ensures
            e.msg@ == msg@,
    {
        PrintableError { msg }
    }

    /// The text shown to the user.
    pub fn message(&self) -> (s: &str)
        ensures
            s@ == self.msg@,
    {
        self.msg.as_str()
    }
}

} // verus!
