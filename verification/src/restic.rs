//! What a run of restic came to.

use vstd::prelude::*;
use crate::text::{decimal_value, law_signed_decimal_reads_back, print_signed, signed_decimal};

verus! {

/// Why a run of restic failed.
#[derive(Debug)]
pub enum ResticError {
    /// It could not be started; the reason as the system words it.
    Spawn(String),
    /// It ended with this exit code, -1 where a signal ended it.
    Exit(i32),
}

impl ResticError {
    pub open spec fn text(self) -> Seq<char> {
        match self {
            ResticError::Spawn(reason) =>
                "failed to spawn restic (is it installed and on PATH?): "@ + reason@,
            ResticError::Exit(code) => "restic exited with status "@ + signed_decimal(code as int),
        }
    }

    pub fn message(&self) -> (out: String)
        ensures
            out@ == self.text(),
    {
        match self {
            ResticError::Spawn(reason) =>
                "failed to spawn restic (is it installed and on PATH?): ".to_owned().concat(
                reason.as_str(),
            ),
            ResticError::Exit(code) => "restic exited with status ".to_owned().concat(
                print_signed(*code).as_str(),
            ),
        }
    }
}

/// The verdict on a run of restic.
pub open spec fn is_verdict(
    outcome: Result<Option<i32>, String>,
    out: Result<(), ResticError>,
) -> bool {
    match outcome {
        Ok(Some(code)) => if code == 0 {
            out is Ok
        } else {
            out matches Err(ResticError::Exit(c)) && c == code
        },
        Ok(None) => out matches Err(ResticError::Exit(c)) && c == -1,
        Err(reason) => out matches Err(ResticError::Spawn(r)) && r@ == reason@,
    }
}

/// Judges a run of restic by its exit code, which is absent where a signal ended it, or by the
/// reason why it could not be started. Exit code 0 alone is success.
pub fn run_restic(outcome: Result<Option<i32>, String>) -> (out: Result<(), ResticError>)
    ensures
        is_verdict(outcome, out),
{
    match outcome {
        Ok(Some(code)) => if code == 0 {
            Ok(())
        } else {
            Err(ResticError::Exit(code))
        },
        Ok(None) => Err(ResticError::Exit(-1)),
        Err(reason) => Err(ResticError::Spawn(reason)),
    }
}

/// The words on a failed run end with the exit code, which reads back as a number, or with the
/// system's reason why restic could not be started.
pub proof fn law_restic_error_tells_cause(error: ResticError)
    ensures
        match error {
            ResticError::Spawn(reason) => {
                let note = "failed to spawn restic (is it installed and on PATH?): "@;
                &&& note.is_prefix_of(error.text())
                &&& error.text().skip(note.len() as int) == reason@
            },
            ResticError::Exit(code) => {
                let note = "restic exited with status "@;
                let number = error.text().skip(note.len() as int);
                &&& note.is_prefix_of(error.text())
                &&& code >= 0 ==> decimal_value(number) == code && number[0] != '-'
                &&& code < 0 ==> number[0] == '-' && decimal_value(number.skip(1)) == -code
            },
        },
{
    match error {
        ResticError::Spawn(reason) => {
            let note = "failed to spawn restic (is it installed and on PATH?): "@;
            assert(note =~= error.text().subrange(0, note.len() as int));
            assert(error.text().skip(note.len() as int) =~= reason@);
        },
        ResticError::Exit(code) => {
            let note = "restic exited with status "@;
            assert(note =~= error.text().subrange(0, note.len() as int));
            assert(error.text().skip(note.len() as int) =~= signed_decimal(code as int));
            law_signed_decimal_reads_back(code as int);
        },
    }
}

/// A run has succeeded exactly where restic was started and ended with exit code 0. Any other exit
/// code is the one that is reported, -1 stands for a signal, and a failure to start is told apart.
pub proof fn law_only_zero_is_success(
    outcome: Result<Option<i32>, String>,
    out: Result<(), ResticError>,
)
    requires
        is_verdict(outcome, out),
    ensures
        out is Ok <==> outcome == Ok::<Option<i32>, String>(Some(0)),
        out matches Err(ResticError::Exit(c)) ==> c != 0 && (outcome
            == Ok::<Option<i32>, String>(Some(c)) || (outcome is Ok && outcome->Ok_0 is None && c
            == -1)),
        out matches Err(ResticError::Spawn(r)) ==> (outcome matches Err(reason) && r@ == reason@),
{
}

} // verus!
