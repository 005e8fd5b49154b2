use vstd::prelude::*;

verus! {

/// Why a module could not be read, or a sample not be exported.
#[derive(Debug)]
pub enum Error {
    /// Reading the file failed.
    Io(String),
    /// The container is recognised but uses a feature or version that is not supported.
    UnsupportedFormat(String),
    /// The bytes do not carry the signature of the format.
    InvalidFile(String),
    /// The structure the file declares runs past the end of the buffer.
    TruncatedFile,
}

/// The kind of an [`Error`], without its message.
#[derive(Debug, Clone, Copy, PartialEq, Eq, Structural)]
pub enum ErrorKind {
    Io,
    UnsupportedFormat,
    InvalidFile,
    TruncatedFile,
}

impl Error {
    pub open spec fn kind(&self) -> ErrorKind {
        match self {
            Error::Io(_) => ErrorKind::Io,
            Error::UnsupportedFormat(_) => ErrorKind::UnsupportedFormat,
            Error::InvalidFile(_) => ErrorKind::InvalidFile,
            Error::TruncatedFile => ErrorKind::TruncatedFile,
        }
    }

    /// The error's message; none for a truncated file.
    pub open spec fn message(&self) -> Seq<char> {
        match self {
            Error::Io(m) => m@,
            Error::UnsupportedFormat(m) => m@,
            Error::InvalidFile(m) => m@,
            Error::TruncatedFile => Seq::empty(),
        }
    }

    pub fn io(reason: &str) -> (e: Error)
        ensures
            e.kind() == ErrorKind::Io,
            e.message() == reason@,
    {
        Error::Io(reason.to_owned())
    }

    pub fn unsupported(reason: &str) -> (e: Error)
        ensures
            e.kind() == ErrorKind::UnsupportedFormat,
            e.message() == reason@,
    {
        Error::UnsupportedFormat(reason.to_owned())
    }

    pub fn invalid(reason: &str) -> (e: Error)
        ensures
            e.kind() == ErrorKind::InvalidFile,
            e.message() == reason@,
    {
        Error::InvalidFile(reason.to_owned())
    }
}

} // verus!
