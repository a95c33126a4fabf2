//! The library's error type: a message.
use vstd::prelude::*;

verus! {

#[derive(Debug, Clone)]
pub struct Error {
    message: String,
}

impl Error {
    pub closed spec fn message_spec(&self) -> Seq<char> {
        self.message@
    }

    pub fn new(message: &str) -> (e: Error)
        ensures
            e.message_spec() == message@,
    {
        Error { message: message.to_owned() }
    }

    pub fn from_string(message: String) -> (e: Error)
        ensures
            e.message_spec() == message@,
    {
        Error { message }
    }

    pub fn message(&self) -> (m: &String)
        ensures
            m@ == self.message_spec(),
    {
        &self.message
    }
}

} // verus!
