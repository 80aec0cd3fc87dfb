//! The decisions of one `write` on a WASI output stream.
use vstd::prelude::*;

verus! {

/// A failure that a WASI output stream reports.
pub enum StreamError {
    /// The stream is closed.
    Closed,
    /// The last operation failed; the text describes the failure.
    LastOperationFailed(String),
}

/// Why a write failed.
pub enum WriteError {
    /// The stream closed while writing (`io::ErrorKind::UnexpectedEof`).
    UnexpectedEof,
    /// The stream reported a failure, described by the text (`io::ErrorKind::Other`).
    Other(String),
    /// The stream allows more bytes than an address can count.
    PermitTooLarge,
}

/// What to do after asking the stream how much it accepts.
pub enum WriteStep {
    /// Write nothing and report that zero bytes were written.
    Nothing,
    /// Report the failure.
    Fail(WriteError),
    /// Write the first `n` bytes of the buffer.
    Write(usize),
}

/// What to do with a buffer of `buf_len` bytes when the stream answered the
/// question how many bytes it accepts with `permit`: nothing when it accepts
/// none or is closed; fail when it failed or allows more than `usize` counts;
/// otherwise write as much of the buffer as it accepts.
pub fn plan_write(permit: Result<u64, StreamError>, buf_len: usize) -> (s: WriteStep)
    ensures
        match permit {
            Ok(n) => if n == 0 {
                s is Nothing
            } else if n > usize::MAX {
                s == WriteStep::Fail(WriteError::PermitTooLarge)
            } else {
                s == WriteStep::Write(if buf_len <= n { buf_len } else { n as usize })
            },
            Err(StreamError::Closed) => s is Nothing,
            Err(StreamError::LastOperationFailed(e)) => s == WriteStep::Fail(WriteError::Other(e)),
        },
{
    match permit {
        Ok(n) => {
            if n == 0 {
                WriteStep::Nothing
            } else if n > usize::MAX as u64 {
                WriteStep::Fail(WriteError::PermitTooLarge)
            } else {
                let allowed = n as usize;
                if buf_len <= allowed {
                    WriteStep::Write(buf_len)
                } else {
                    WriteStep::Write(allowed)
                }
            }
        },
        Err(StreamError::Closed) => WriteStep::Nothing,
        Err(StreamError::LastOperationFailed(e)) => WriteStep::Fail(WriteError::Other(e)),
    }
}

/// The outcome of writing `n` bytes when the stream answered `written`: the
/// count on success; `UnexpectedEof` when the stream closed; the stream's
/// failure otherwise.
pub fn finish_write(n: usize, written: Result<(), StreamError>) -> (r: Result<usize, WriteError>)
    ensures
        match written {
            Ok(()) => r == Ok::<usize, WriteError>(n),
            Err(StreamError::Closed) => r == Err::<usize, WriteError>(WriteError::UnexpectedEof),
            Err(StreamError::LastOperationFailed(e)) => r == Err::<usize, WriteError>(WriteError::Other(e)),
        },
{
    match written {
        Ok(()) => Ok(n),
        Err(StreamError::Closed) => Err(WriteError::UnexpectedEof),
        Err(StreamError::LastOperationFailed(e)) => Err(WriteError::Other(e)),
    }
}

} // verus!
