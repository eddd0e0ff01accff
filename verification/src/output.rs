//! Judging what a compiler run left behind.

use vstd::prelude::*;
use crate::invocation::InvocationError;

verus! {

/// What a finished compiler run left behind.
#[derive(Debug)]
pub struct ProcessOutput {
    /// The exit code, or `None` where a signal ended the run.
    pub exit_code: Option<i32>,
    /// What the run printed to standard output.
    pub stdout: Vec<u8>,
    /// What the run printed to standard error.
    pub stderr: Vec<u8>,
}

impl ProcessOutput {
    /// Whether the run ended with exit code 0.
    pub open spec fn succeeded(&self) -> bool {
        self.exit_code == Some(0i32)
    }

    /// The listing of a run, or the reason the run gave none: a run that did not
    /// end with exit code 0 failed, whatever it printed, and a run that ended
    /// well must have printed something.
    pub open spec fn listing(&self) -> Result<Seq<u8>, InvocationError> {
        if !self.succeeded() {
            Err(InvocationError::NonZeroExit(self.exit_code))
        } else if self.stdout@.len() == 0 {
            Err(InvocationError::EmptyOutput)
        } else {
            Ok(self.stdout@)
        }
    }

    /// What the run printed to standard error, where it printed anything there.
    /// The caller passes it on as a diagnostic; it does not decide whether the
    /// run failed.
    pub fn diagnostic(&self) -> (bytes: Option<&Vec<u8>>)
        ensures
            self.stderr@.len() == 0 <==> bytes is None,
            bytes matches Some(text) ==> text@ == self.stderr@,
    {
        if self.stderr.len() == 0 {
            None
        } else {
            Some(&self.stderr)
        }
    }

    /// Hands out the listing that the run printed, or says why there is none.
    pub fn into_listing(self) -> (result: Result<Vec<u8>, InvocationError>)
        ensures
            match result {
                Ok(bytes) => self.listing() == Ok::<Seq<u8>, InvocationError>(bytes@),
                Err(why) => self.listing() == Err::<Seq<u8>, InvocationError>(why),
            },
    {
        match self.exit_code {
            Some(0) => {
                if self.stdout.len() == 0 {
                    Err(InvocationError::EmptyOutput)
                } else {
                    Ok(self.stdout)
                }
            },
            code => Err(InvocationError::NonZeroExit(code)),
        }
    }
}

} // verus!
