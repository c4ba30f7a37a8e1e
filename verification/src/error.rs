//! Uniform error type. Every user-facing failure carries one message line and
//! the process exit code that goes with it.

use vstd::prelude::*;

verus! {

/// Exit code used for invalid command line usage.
pub const EXIT_USAGE: i32 = 2;

/// Exit code used for runtime failures (connect, spawn, kill, marker missing).
pub const EXIT_FAILURE: i32 = 1;

/// Exit code used when the client times out waiting for a response.
pub const EXIT_TIMEOUT: i32 = 124;

#[derive(Debug)]
pub struct AppError {
    pub message: String,
    pub code: i32,
}

pub type AppResult<T> = Result<T, AppError>;

impl AppError {
    /// An invalid command line.
    pub fn usage(message: String) -> (e: AppError)
        ensures
            e.message@ == message@,
            e.code == EXIT_USAGE,
    {
        AppError { message, code: EXIT_USAGE }
    }

    /// A runtime failure.
    pub fn failure(message: String) -> (e: AppError)
        ensures
            e.message@ == message@,
            e.code == EXIT_FAILURE,
    {
        AppError { message, code: EXIT_FAILURE }
    }

    /// The client gave up waiting for a response.
    pub fn timeout(message: String) -> (e: AppError)
        ensures
            e.message@ == message@,
            e.code == EXIT_TIMEOUT,
    {
        AppError { message, code: EXIT_TIMEOUT }
    }
}

} // verus!
