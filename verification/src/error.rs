use vstd::prelude::*;

verus! {

/// The I/O error type of std, carried by [`CryptError::Io`].
#[verifier::external_type_specification]
#[verifier::external_body]
pub struct ExIoError(std::io::Error);

/// Every way an operation of this library can fail.
#[derive(Debug)]
pub enum CryptError {
    /// Reading or writing a file failed.
    Io(std::io::Error),
    /// Not an OpenCrypt file, an unknown version, or a length mismatch.
    InvalidFormat,
    /// Wrong password or key, or a chunk whose tag does not verify.
    InvalidPassword,
    /// Key derivation, the random number generator or the cipher failed.
    Memory,
    /// A malformed argument, such as a key string that is not a key.
    InvalidParam,
    /// The operation is not available on this platform.
    Unsupported,
    /// The output file already exists.
    OutputExists,
    /// The input is missing, not a file, or the paths are not acceptable.
    InputInvalid,
}

/// The variant of a [`CryptError`], without the payload of `Io`.
#[derive(PartialEq, Eq, Structural, Clone, Copy, Debug)]
pub enum ErrorKind {
    Io,
    InvalidFormat,
    InvalidPassword,
    Memory,
    InvalidParam,
    Unsupported,
    OutputExists,
    InputInvalid,
}

impl CryptError {
    /// Which variant this error is.
    pub open spec fn kind(&self) -> ErrorKind {
        match self {
            CryptError::Io(_) => ErrorKind::Io,
            CryptError::InvalidFormat => ErrorKind::InvalidFormat,
            CryptError::InvalidPassword => ErrorKind::InvalidPassword,
            CryptError::Memory => ErrorKind::Memory,
            CryptError::InvalidParam => ErrorKind::InvalidParam,
            CryptError::Unsupported => ErrorKind::Unsupported,
            CryptError::OutputExists => ErrorKind::OutputExists,
            CryptError::InputInvalid => ErrorKind::InputInvalid,
        }
    }
}

/// Result of a computation that describes a file: the produced bytes, or
/// the kind of error.
pub open spec fn outcome(r: Result<Vec<u8>, CryptError>) -> Result<Seq<u8>, ErrorKind> {
    match r {
        Ok(v) => Ok(v@),
        Err(e) => Err(e.kind()),
    }
}

} // verus!
