//! The error of the crate as a whole.

use vstd::prelude::*;
use vstd::std_specs::convert::FromSpecImpl;
use crate::buffer::BufferError;
use crate::draw::DrawError;

verus! {

/// `std::io::Error`, the error of std's input and output. Nothing is
/// claimed of what it holds: it is carried as it came.
#[verifier::external_type_specification]
#[verifier::external_body]
pub struct ExIoError(std::io::Error);

/// What drawing the login prompt can fail with.
#[derive(Debug)]
#[non_exhaustive]
pub enum Error {
    /// A viewport or a pixel lay out of bounds.
    Buffer(BufferError),
    /// Text could not be drawn.
    Draw(DrawError),
    /// Input or output failed.
    Io(std::io::Error),
}

impl From<BufferError> for Error {
    fn from(e: BufferError) -> (r: Error) {
        Error::Buffer(e)
    }
}

impl FromSpecImpl<BufferError> for Error {
    open spec fn obeys_from_spec() -> bool {
        true
    }

    open spec fn from_spec(e: BufferError) -> Error {
        Error::Buffer(e)
    }
}

impl From<DrawError> for Error {
    fn from(e: DrawError) -> (r: Error) {
        Error::Draw(e)
    }
}

impl FromSpecImpl<DrawError> for Error {
    open spec fn obeys_from_spec() -> bool {
        true
    }

    open spec fn from_spec(e: DrawError) -> Error {
        Error::Draw(e)
    }
}

impl From<std::io::Error> for Error {
    fn from(e: std::io::Error) -> (r: Error) {
        Error::Io(e)
    }
}

impl FromSpecImpl<std::io::Error> for Error {
    open spec fn obeys_from_spec() -> bool {
        true
    }

    open spec fn from_spec(e: std::io::Error) -> Error {
        Error::Io(e)
    }
}

} // verus!
