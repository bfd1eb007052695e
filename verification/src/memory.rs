//! What a read of foreign memory gave, and when it is taken.

use vstd::prelude::*;

verus! {

/// Why a read of foreign memory was not taken.
#[derive(Clone, Copy, Debug, PartialEq, Eq, Structural)]
pub enum ReadError {
    /// The operating system reported a failure, with this code.
    Os { code: i32 },
    /// The read gave `actual` bytes where `expected` were asked for.
    ShortRead { expected: usize, actual: usize },
}

/// What a read holds, with its bytes as a sequence.
pub open spec fn read_view(read: Result<Vec<u8>, i32>) -> Result<Seq<u8>, i32> {
    match read {
        Ok(bytes) => Ok(bytes@),
        Err(code) => Err(code),
    }
}

/// The bytes of a read that was asked for `length` bytes: those that it gave,
/// where it gave exactly `length`. A failed and a short read are errors.
pub open spec fn accept_read(read: Result<Seq<u8>, i32>, length: int) -> Result<
    Seq<u8>,
    ReadError,
> {
    match read {
        Ok(bytes) => if bytes.len() == length {
            Ok(bytes)
        } else {
            Err(ReadError::ShortRead { expected: length as usize, actual: bytes.len() as usize })
        },
        Err(code) => Err(ReadError::Os { code }),
    }
}

/// Takes the outcome of a read that was asked for `length` bytes: the bytes
/// that the operating system gave, or the code of its failure.
pub fn read_buf(read: Result<Vec<u8>, i32>, length: usize) -> (r: Result<Vec<u8>, ReadError>)
    ensures
        match accept_read(read_view(read), length as int) {
            Ok(bytes) => r == Ok::<Vec<u8>, ReadError>(read.unwrap()) && bytes == r.unwrap()@,
            Err(error) => r == Err::<Vec<u8>, ReadError>(error),
        },
{
    match read {
        Ok(bytes) => {
            let actual: usize = bytes.len();
            if actual == length {
                Ok(bytes)
            } else {
                Err(ReadError::ShortRead { expected: length, actual })
            }
        },
        Err(code) => Err(ReadError::Os { code }),
    }
}

} // verus!
