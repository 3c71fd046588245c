//! The errors that the decoders report.
use std::fmt::Debug;
use std::io;
use vstd::prelude::*;

verus! {

/// Why decoding stopped. `E` is the error type of the byte source.
#[derive(Debug)]
pub enum Error<E: Debug + Sync + Send + 'static> {
    /// The byte source failed.
    UpstreamError(E),
    /// A field of a header block could not be read.
    IoError(io::Error),
    /// The archive ends inside a header, a payload or its padding.
    UnexpectedEof,
    /// The archive breaks the format in the way that the text names.
    Format(&'static str),
}

/// An error as contracts speak of it: an I/O error without its text, a format
/// error by its text.
pub ghost enum Fault<E> {
    Upstream(E),
    Io,
    UnexpectedEof,
    Format(Seq<char>),
}

impl<E: Debug + Sync + Send + 'static> View for Error<E> {
    type V = Fault<E>;

    open spec fn view(&self) -> Fault<E> {
        match *self {
            Error::UpstreamError(e) => Fault::Upstream(e),
            Error::IoError(_) => Fault::Io,
            Error::UnexpectedEof => Fault::UnexpectedEof,
            Error::Format(text) => Fault::Format(text@),
        }
    }
}

impl<E: Debug + Sync + Send + 'static> From<E> for Error<E> {
    fn from(e: E) -> (r: Self)
        ensures
            r == Error::UpstreamError(e),
    {
        Error::UpstreamError(e)
    }
}

impl<E: Debug + Sync + Send + 'static> vstd::std_specs::convert::FromSpecImpl<E> for Error<E> {
    open spec fn obeys_from_spec() -> bool {
        true
    }

    open spec fn from_spec(e: E) -> Self {
        Error::UpstreamError(e)
    }
}

} // verus!
