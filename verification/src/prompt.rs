//! Confirmation prompts: what a line that the user typed says, and whether
//! an operation may go ahead.

use crate::error::Error;
use vstd::prelude::*;
use vstd::string::StrSliceExecFns;

verus! {

/// Whether confirmation prompts are shown or taken as answered with yes.
#[derive(Clone, Copy, Debug, PartialEq, Eq, Structural)]
pub enum SkipMode {
    ShowPrompts,
    HidePrompts,
}

/// What a line says in answer to a yes-or-no prompt. Only its first
/// character counts: a line break stands for the default, `y` and `n` in
/// either case for yes and no, and after anything else the prompt is to be
/// shown again. A line without any character, which is what the end of the
/// input reads as, is a failure.
pub open spec fn answer_of(line: Seq<char>, default: bool) -> Result<Option<bool>, Error> {
    if line.len() == 0 {
        Err(Error::IoFailure)
    } else if line[0] == '\n' || line[0] == '\r' {
        Ok(Some(default))
    } else if line[0] == 'y' || line[0] == 'Y' {
        Ok(Some(true))
    } else if line[0] == 'n' || line[0] == 'N' {
        Ok(Some(false))
    } else {
        Ok(None)
    }
}

/// Reads the answer to a yes-or-no prompt off the line that was typed.
/// Returns the answer, or nothing where the prompt is to be shown again.
pub fn get_answer(line: &str, default: bool) -> (r: Result<Option<bool>, Error>)
    ensures
        r == answer_of(line@, default),
{
    if line.unicode_len() == 0 {
        return Err(Error::IoFailure);
    }
    let first = line.get_char(0);
    if first == '\n' || first == '\r' {
        Ok(Some(default))
    } else if first == 'y' || first == 'Y' {
        Ok(Some(true))
    } else if first == 'n' || first == 'N' {
        Ok(Some(false))
    } else {
        Ok(None)
    }
}

/// Whether an operation that asks for confirmation may go ahead: it may
/// where prompts are hidden or the answer was yes, and is aborted otherwise.
pub fn confirm(skip: SkipMode, answer: bool) -> (r: Result<(), Error>)
    ensures
        r is Ok <==> skip == SkipMode::HidePrompts || answer,
        r matches Err(e) ==> e == Error::UserAborted,
{
    match skip {
        SkipMode::HidePrompts => Ok(()),
        SkipMode::ShowPrompts => if answer {
            Ok(())
        } else {
            Err(Error::UserAborted)
        },
    }
}

} // verus!
