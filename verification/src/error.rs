use vstd::prelude::*;

verus! {

/// Why an operation on an envelope was refused.
#[derive(Clone, Copy, Debug, PartialEq, Eq, Structural)]
pub enum Error {
    /// An argument is outside what the format can hold: no password, more than
    /// 65535 passwords, a password or metadata blob too long for its length field,
    /// or a body longer than one keystream.
    BadArgument,
    /// The bytes are not an envelope: wrong magic, a required field cut short, or
    /// a metadata length that runs past the end.
    InvalidFormat,
    /// No entry of the envelope accepts the password.
    WrongPassword,
}

impl Error {
    /// The text that describes each kind of refusal.
    pub open spec fn spec_message(self) -> Seq<char> {
        match self {
            Error::BadArgument => "argument outside what the envelope format allows"@,
            Error::InvalidFormat => "not a valid WCRY envelope"@,
            Error::WrongPassword => "the password matches no entry"@,
        }
    }

    /// A short description for messages: one fixed text for each kind.
    pub fn message(&self) -> (s: &'static str)
        ensures
            s@ == self.spec_message(),
    {
        match self {
            Error::BadArgument => "argument outside what the envelope format allows",
            Error::InvalidFormat => "not a valid WCRY envelope",
            Error::WrongPassword => "the password matches no entry",
        }
    }
}

} // verus!
