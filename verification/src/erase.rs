//! Secure erasure of a file: what is done to the file, and in what order.
//! The steps themselves are carried out by the caller.

use vstd::prelude::*;

verus! {

/// One step of erasing a file.
#[derive(Clone, Copy, Debug, PartialEq, Eq, Structural)]
pub enum EraseStep {
    /// Overwrite the file, from its start, with this many random bytes.
    Overwrite(u64),
    /// Flush what was written.
    Flush,
    /// Cut the file down to no bytes.
    Truncate,
    /// Remove the file.
    Unlink,
}

/// How many overwriting passes a request for `passes` passes makes: a
/// negative number asks for none.
pub open spec fn pass_count(passes: i32) -> nat {
    if passes < 0 {
        0
    } else {
        passes as nat
    }
}

/// The steps that erase a file of `len` bytes: one overwriting pass after
/// the other, then a flush, then the truncation, then the removal.
pub open spec fn erase_steps(len: u64, passes: i32) -> Seq<EraseStep> {
    Seq::new(pass_count(passes), |i: int| EraseStep::Overwrite(len)) + seq![
        EraseStep::Flush,
        EraseStep::Truncate,
        EraseStep::Unlink,
    ]
}

/// The steps that securely erase a file of `len` bytes with the given
/// number of overwriting passes.
pub fn secure_erase(len: u64, passes: i32) -> (steps: Vec<EraseStep>)
    ensures
        steps@ == erase_steps(len, passes),
        steps@.len() == pass_count(passes) + 3,
{
    let mut steps: Vec<EraseStep> = Vec::new();
    let mut i: i32 = 0;
    while i < passes
        invariant
            0 <= i,
            passes < 0 ==> i == 0,
            passes >= 0 ==> i <= passes,
            steps@ == Seq::new(i as nat, |j: int| EraseStep::Overwrite(len)),
        decreases passes - i,
    {
        steps.push(EraseStep::Overwrite(len));
        i += 1;
        assert(steps@ =~= Seq::new(i as nat, |j: int| EraseStep::Overwrite(len)));
    }
    let ghost overwrites = steps@;
    steps.push(EraseStep::Flush);
    steps.push(EraseStep::Truncate);
    steps.push(EraseStep::Unlink);
    assert(steps@ =~= overwrites + seq![EraseStep::Flush, EraseStep::Truncate, EraseStep::Unlink]);
    steps
}

} // verus!
