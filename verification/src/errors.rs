use vstd::prelude::*;

verus! {

/// The failures the library itself reports.
///
/// `NotAbsolute` and `NotCanonical` are the two invalid-destination kinds;
/// the remaining variants cover a mode string that is not valid octal and
/// user or group names the system could not resolve.  Filesystem failures
/// (directory creation, writing, renaming) happen in the unverified shell
/// around the library and are reported there.
#[derive(Clone, Copy, Debug, PartialEq, Eq, Structural)]
pub enum WriteError {
    NotAbsolute,
    NotCanonical,
    InvalidMode,
    UnknownUser,
    UnknownGroup,
}

impl WriteError {
    /// A short description, for embedding in error reports.
    pub fn message(&self) -> &'static str {
        match self {
            WriteError::NotAbsolute => "destination path has to be absolute",
            WriteError::NotCanonical => "destination path is not canonical",
            WriteError::InvalidMode => "invalid mode",
            WriteError::UnknownUser => "no such user",
            WriteError::UnknownGroup => "no such group",
        }
    }
}

} // verus!
