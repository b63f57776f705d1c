//! The failures that the library reports.

use vstd::prelude::*;

verus! {

/// Why an operation did not produce its result.
#[derive(Clone, Copy, Debug, PartialEq, Eq, Structural)]
pub enum Error {
    /// The bytes do not start with a well-formed header.
    InvalidFormat,
    /// An AEAD tag of the body did not verify.
    AuthenticationFailure,
    /// No populated keyslot opens under the given secret.
    WrongPassword,
    /// Every keyslot is already populated.
    MaxSlots,
    /// The keyslot to delete is the only populated one.
    LastSlot,
    /// Fewer bytes were available than the operation has to read.
    IoFailure,
    /// A confirmation prompt was answered negatively.
    UserAborted,
}

impl Error {
    /// The exit code of a program that ends with this error: a prompt that
    /// was declined ends it as a success does, with 0, and every other
    /// error with 1.
    pub open spec fn exit_code_spec(self) -> i32 {
        if self == Error::UserAborted {
            0
        } else {
            1
        }
    }

    /// What this error says to the user.
    pub open spec fn message_spec(self) -> Seq<char> {
        match self {
            Error::InvalidFormat => "the file does not start with a valid header"@,
            Error::AuthenticationFailure => "the data does not verify: it was changed, or its header was"@,
            Error::WrongPassword => "no keyslot opens with this key"@,
            Error::MaxSlots => "every keyslot is in use"@,
            Error::LastSlot => "the last keyslot cannot be deleted"@,
            Error::IoFailure => "the input ended too early"@,
            Error::UserAborted => "aborted"@,
        }
    }

    /// The exit code of a program that ends with this error.
    pub fn exit_code(self) -> (code: i32)
        ensures
            code == self.exit_code_spec(),
    {
        match self {
            Error::UserAborted => 0,
            _ => 1,
        }
    }

    /// What this error says to the user.
    pub fn message(self) -> (text: &'static str)
        ensures
            text@ == self.message_spec(),
    {
        match self {
            Error::InvalidFormat => "the file does not start with a valid header",
            Error::AuthenticationFailure => "the data does not verify: it was changed, or its header was",
            Error::WrongPassword => "no keyslot opens with this key",
            Error::MaxSlots => "every keyslot is in use",
            Error::LastSlot => "the last keyslot cannot be deleted",
            Error::IoFailure => "the input ended too early",
            Error::UserAborted => "aborted",
        }
    }
}

} // verus!
